//! The search engine: the lines of a document that hold a query.
use vstd::prelude::*;
use crate::lines::{lines, lines_of, views_of};
use crate::matching::{contains_text, line_matches, lower_of, lowercase, occurs_at};

verus! {

/// A line holds the query exactly, case preserved.
pub open spec fn exact_match(query: Seq<char>) -> spec_fn(Seq<char>) -> bool {
    |line: Seq<char>| contains_text(line, query)
}

/// The lowercase form of a line holds the lowercase form of the query.
pub open spec fn folded_match(query: Seq<char>) -> spec_fn(Seq<char>) -> bool {
    |line: Seq<char>| contains_text(lower_of(line), lower_of(query))
}

/// The lines of `contents` that hold `query`, in document order.
pub open spec fn search_spec(query: Seq<char>, contents: Seq<char>) -> Seq<Seq<char>> {
    lines_of(contents).filter(exact_match(query))
}

/// The lines of `contents` whose lowercase form holds the lowercase form of
/// `query`, as they stand in the document, in document order.
pub open spec fn search_folded_spec(query: Seq<char>, contents: Seq<char>) -> Seq<Seq<char>> {
    lines_of(contents).filter(folded_match(query))
}

/// The empty text stands in every text.
pub proof fn lemma_empty_in_every_text(hay: Seq<char>, needle: Seq<char>)
    requires
        needle.len() == 0,
    ensures
        contains_text(hay, needle),
{
    assert(hay.subrange(0, 0) =~= needle);
    assert(occurs_at(hay, needle, 0));
}

/// Filtering keeps a sequence whole when every element passes.
proof fn lemma_filter_keeps_all(s: Seq<Seq<char>>, pred: spec_fn(Seq<char>) -> bool)
    requires
        forall|i: int| 0 <= i < s.len() ==> pred(s[i]),
    ensures
        s.filter(pred) == s,
    decreases s.len(),
{
    reveal(Seq::filter);
    if s.len() > 0 {
        lemma_filter_keeps_all(s.drop_last(), pred);
        assert(s.drop_last().push(s.last()) =~= s);
    }
}

/// One more element of `s` seen by a filter over its prefix.
proof fn lemma_filter_take_step(s: Seq<Seq<char>>, pred: spec_fn(Seq<char>) -> bool, i: int)
    requires
        0 <= i < s.len(),
    ensures
        s.take(i + 1).filter(pred) == if pred(s[i]) {
            s.take(i).filter(pred).push(s[i])
        } else {
            s.take(i).filter(pred)
        },
{
    reveal(Seq::filter);
    assert(s.take(i + 1).drop_last() =~= s.take(i));
}

/// Returns the lines of `contents` that hold `query` as a contiguous run of
/// characters, case preserved, as slices of `contents` in document order.
pub fn search<'a>(query: &str, contents: &'a str) -> (r: Vec<&'a str>)
    ensures
        views_of(r@) == search_spec(query@, contents@),
        query@.len() == 0 ==> views_of(r@) == lines_of(contents@),
{
    let all = lines(contents);
    let ghost ls = lines_of(contents@);
    let mut out: Vec<&'a str> = Vec::new();
    let mut i: usize = 0;
    while i < all.len()
        invariant
            views_of(all@) == ls,
            i <= all@.len(),
            views_of(out@) == ls.take(i as int).filter(exact_match(query@)),
        decreases all@.len() - i,
    {
        let line = all[i];
        let keep = line_matches(line, query);
        proof {
            assert(ls[i as int] == line@);
            lemma_filter_take_step(ls, exact_match(query@), i as int);
            assert(views_of(out@.push(line)) =~= views_of(out@).push(line@));
        }
        if keep {
            out.push(line);
        }
        i = i + 1;
    }
    proof {
        assert(ls.take(all@.len() as int) =~= ls);
        if query@.len() == 0 {
            assert forall|k: int| 0 <= k < ls.len() implies exact_match(query@)(ls[k]) by {
                lemma_empty_in_every_text(ls[k], query@);
            }
            lemma_filter_keeps_all(ls, exact_match(query@));
        }
    }
    out
}

/// Returns the lines of `contents` whose lowercase form holds the lowercase
/// form of `query`, as slices of `contents` (not lowercased) in document
/// order.
pub fn search_case_insensitive<'a>(query: &str, contents: &'a str) -> (r: Vec<&'a str>)
    ensures
        views_of(r@) == search_folded_spec(query@, contents@),
        query@.len() == 0 ==> views_of(r@) == lines_of(contents@),
{
    let query_lower = lowercase(query);
    let all = lines(contents);
    let ghost ls = lines_of(contents@);
    let mut out: Vec<&'a str> = Vec::new();
    let mut i: usize = 0;
    while i < all.len()
        invariant
            views_of(all@) == ls,
            i <= all@.len(),
            query_lower@ == lower_of(query@),
            views_of(out@) == ls.take(i as int).filter(folded_match(query@)),
        decreases all@.len() - i,
    {
        let line = all[i];
        let line_lower = lowercase(line);
        let keep = line_matches(line_lower.as_str(), query_lower.as_str());
        proof {
            assert(ls[i as int] == line@);
            lemma_filter_take_step(ls, folded_match(query@), i as int);
            assert(views_of(out@.push(line)) =~= views_of(out@).push(line@));
        }
        if keep {
            out.push(line);
        }
        i = i + 1;
    }
    proof {
        assert(ls.take(all@.len() as int) =~= ls);
        if query@.len() == 0 {
            assert forall|k: int| 0 <= k < ls.len() implies folded_match(query@)(ls[k]) by {
                lemma_empty_in_every_text(lower_of(ls[k]), lower_of(query@));
            }
            lemma_filter_keeps_all(ls, folded_match(query@));
        }
    }
    out
}

} // verus!

verus! {

/// The positions of the elements of `s` that pass `pred`, in increasing
/// order.
pub open spec fn kept_positions(s: Seq<Seq<char>>, pred: spec_fn(Seq<char>) -> bool) -> Seq<int>
    decreases s.len(),
{
    if s.len() == 0 {
        Seq::empty()
    } else {
        let before = kept_positions(s.drop_last(), pred);
        if pred(s.last()) {
            before.push(s.len() - 1)
        } else {
            before
        }
    }
}

/// `out` is the sequence of the elements of `s` at the strictly increasing
/// positions `pos`: each taken once, in the order of `s`.
pub open spec fn picked_in_order(out: Seq<Seq<char>>, s: Seq<Seq<char>>, pos: Seq<int>) -> bool {
    &&& pos.len() == out.len()
    &&& forall|k: int| 0 <= k < pos.len() ==> 0 <= #[trigger] pos[k] < s.len() && out[k] == s[pos[k]]
    &&& forall|j: int, k: int| 0 <= j < k < pos.len() ==> pos[j] < pos[k]
}

/// A filter picks its elements in order, and picks every element that
/// passes.
proof fn lemma_filter_in_order(s: Seq<Seq<char>>, pred: spec_fn(Seq<char>) -> bool)
    ensures
        picked_in_order(s.filter(pred), s, kept_positions(s, pred)),
        forall|i: int|
            0 <= i < s.len() && pred(s[i]) ==> kept_positions(s, pred).contains(i),
    decreases s.len(),
{
    reveal(Seq::filter);
    if s.len() > 0 {
        let d = s.drop_last();
        lemma_filter_in_order(d, pred);
        let before = kept_positions(d, pred);
        let pos = kept_positions(s, pred);
        let out = s.filter(pred);
        assert forall|k: int| 0 <= k < pos.len() implies 0 <= #[trigger] pos[k] < s.len() && out[k]
            == s[pos[k]] by {
            if k < before.len() {
                assert(d[before[k]] == s[before[k]]);
            }
        }
        assert forall|i: int| 0 <= i < s.len() && pred(s[i]) implies pos.contains(i) by {
            if i < s.len() - 1 {
                assert(d[i] == s[i]);
                assert(pred(d[i]));
                assert(before.contains(i));
                let k = choose|k: int| 0 <= k < before.len() && before[k] == i;
                assert(pos[k] == i);
            } else {
                assert(pos[pos.len() - 1] == i);
            }
        }
    }
}

/// Search keeps document order: its result is the document's lines at
/// strictly increasing positions, each line taken at most once, and every
/// line that holds the query is taken. This holds for both policies.
pub proof fn lemma_search_keeps_order(query: Seq<char>, contents: Seq<char>)
    ensures
        picked_in_order(
            search_spec(query, contents),
            lines_of(contents),
            kept_positions(lines_of(contents), exact_match(query)),
        ),
        forall|i: int|
            0 <= i < lines_of(contents).len() && contains_text(#[trigger] lines_of(contents)[i], query)
                ==> kept_positions(lines_of(contents), exact_match(query)).contains(i),
        picked_in_order(
            search_folded_spec(query, contents),
            lines_of(contents),
            kept_positions(lines_of(contents), folded_match(query)),
        ),
        forall|i: int|
            0 <= i < lines_of(contents).len() && contains_text(
                lower_of(#[trigger] lines_of(contents)[i]),
                lower_of(query),
            ) ==> kept_positions(lines_of(contents), folded_match(query)).contains(i),
{
    lemma_filter_in_order(lines_of(contents), exact_match(query));
    lemma_filter_in_order(lines_of(contents), folded_match(query));
}

/// An empty document has no lines, so search finds nothing in it under
/// either policy, whatever the query.
pub proof fn lemma_empty_document(query: Seq<char>)
    ensures
        search_spec(query, Seq::empty()) == Seq::<Seq<char>>::empty(),
        search_folded_spec(query, Seq::empty()) == Seq::<Seq<char>>::empty(),
{
    reveal(Seq::filter);
}

/// With the empty query, exact search returns every line of the document,
/// unchanged and in order.
pub proof fn lemma_empty_query(contents: Seq<char>)
    ensures
        search_spec(Seq::empty(), contents) == lines_of(contents),
{
    let ls = lines_of(contents);
    assert forall|k: int| 0 <= k < ls.len() implies exact_match(Seq::empty())(ls[k]) by {
        lemma_empty_in_every_text(ls[k], Seq::empty());
    }
    lemma_filter_keeps_all(ls, exact_match(Seq::empty()));
}

} // verus!
