//! Line search over a text document, with an exact and a case-folded policy.
pub mod input;
pub mod lines;
pub mod matching;
pub mod search;

pub use input::{find_matches, Input, MISSING_FILENAME, MISSING_QUERY};
pub use lines::lines;
pub use matching::line_matches;
pub use search::{search, search_case_insensitive};
