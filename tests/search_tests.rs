use gvko_minigrep::{
    find_matches, line_matches, lines, search, search_case_insensitive, Input, MISSING_FILENAME,
    MISSING_QUERY,
};

#[test]
fn one_result() {
    let query = "duct";
    let contents = "\
Rust:
safe, fast, productive.
Pick three.
Duct tape.";

    assert_eq!(vec!["safe, fast, productive."], search(query, contents));
}

#[test]
fn case_insensitive() {
    let query = "rUsT";
    let contents = "\
Rust:
safe, fast, productive.
Pick three.
Trust me.";

    assert_eq!(
        vec!["Rust:", "Trust me."],
        search_case_insensitive(query, contents)
    );
}

#[test]
fn no_match_is_empty() {
    assert_eq!(Vec::<&str>::new(), search("zebra", "one\ntwo\nthree"));
    assert_eq!(
        Vec::<&str>::new(),
        search_case_insensitive("ZEBRA", "one\ntwo\nthree")
    );
}

#[test]
fn empty_query_returns_every_line() {
    let contents = "Alpha\n\nbeta\nGamma";
    assert_eq!(vec!["Alpha", "", "beta", "Gamma"], search("", contents));
    assert_eq!(
        vec!["Alpha", "", "beta", "Gamma"],
        search_case_insensitive("", contents)
    );
}

#[test]
fn empty_document_has_no_matches() {
    assert_eq!(Vec::<&str>::new(), search("", ""));
    assert_eq!(Vec::<&str>::new(), search("a", ""));
    assert_eq!(Vec::<&str>::new(), search_case_insensitive("", ""));
    assert_eq!(Vec::<&str>::new(), search_case_insensitive("A", ""));
}

#[test]
fn order_kept_and_repeats_reported() {
    let contents = "b one\na two\nb one\nc three\nB four";
    assert_eq!(vec!["b one", "b one"], search("b", contents));
    assert_eq!(
        vec!["b one", "b one", "B four"],
        search_case_insensitive("b", contents)
    );
}

#[test]
fn exact_search_respects_case() {
    assert_eq!(vec!["Duct tape."], search("Duct", "duct work\nDuct tape."));
}

#[test]
fn folded_search_returns_original_text() {
    assert_eq!(
        vec!["HELLO World", "hello"],
        search_case_insensitive("Hello", "HELLO World\nbye\nhello")
    );
}

#[test]
fn lines_split_on_newline() {
    assert_eq!(Vec::<&str>::new(), lines(""));
    assert_eq!(vec![""], lines("\n"));
    assert_eq!(vec!["a"], lines("a\n"));
    assert_eq!(vec!["a", "", "b"], lines("a\n\nb"));
    assert_eq!(vec!["a", "b", ""], lines("a\nb\n\n"));
}

#[test]
fn line_matches_is_substring_test() {
    assert!(line_matches("safe, fast, productive.", "duct"));
    assert!(line_matches("anything", ""));
    assert!(line_matches("", ""));
    assert!(!line_matches("", "a"));
    assert!(!line_matches("Duct tape.", "duct"));
    assert!(!line_matches("ab", "abc"));
    assert!(line_matches("aab", "ab"));
}

#[test]
fn non_ascii_text() {
    assert_eq!(vec!["Grüße", "GRÜSSE x"], search_case_insensitive("grü", "Grüße\nGRÜSSE x\nnein"));
    assert_eq!(vec!["naïve"], search("ïv", "naïve\nnaive"));
}

#[test]
fn input_missing_query() {
    assert_eq!(Err(MISSING_QUERY), Input::new(Vec::new(), true).map(|_| ()));
    assert_eq!("Didn't get a query string", MISSING_QUERY);
}

#[test]
fn input_missing_filename() {
    let args = vec!["needle".to_string()];
    assert_eq!(Err(MISSING_FILENAME), Input::new(args, false).map(|_| ()));
    assert_eq!("Didn't get a filename string", MISSING_FILENAME);
}

#[test]
fn input_takes_query_then_filename() {
    let args = vec![
        "needle".to_string(),
        "poem.txt".to_string(),
        "extra".to_string(),
    ];
    let input = Input::new(args, true).ok().unwrap();
    assert_eq!("needle", input.query);
    assert_eq!("poem.txt", input.filename);
    assert!(input.case_sensitive);
    let args = vec!["q".to_string(), "f".to_string()];
    let input = Input::new(args, false).ok().unwrap();
    assert!(!input.case_sensitive);
}

#[test]
fn find_matches_follows_policy() {
    let contents = "Rust:\nsafe, fast, productive.\nPick three.\nTrust me.";
    let exact = Input::new(vec!["rust".to_string(), "f".to_string()], true)
        .ok()
        .unwrap();
    assert_eq!(vec!["Trust me."], find_matches(&exact, contents));
    let folded = Input::new(vec!["rust".to_string(), "f".to_string()], false)
        .ok()
        .unwrap();
    assert_eq!(vec!["Rust:", "Trust me."], find_matches(&folded, contents));
}
