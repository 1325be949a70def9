//! Splitting a document into its lines.
use vstd::prelude::*;

verus! {

/// The pieces of `s` between its newline characters, in order. There is one
/// piece more than there are newlines, so the empty text is a single empty
/// piece.
pub open spec fn pieces(s: Seq<char>) -> Seq<Seq<char>>
    decreases s.len(),
{
    if s.len() == 0 {
        seq![s]
    } else {
        let before = pieces(s.drop_last());
        if s.last() == '\n' {
            before.push(Seq::empty())
        } else {
            before.update(before.len() - 1, before.last().push(s.last()))
        }
    }
}

/// The lines of a document: the pieces between newlines, where a newline that
/// ends the text closes the last line instead of opening an empty one, and the
/// empty text has no lines at all.
pub open spec fn lines_of(s: Seq<char>) -> Seq<Seq<char>> {
    if s.len() == 0 {
        Seq::empty()
    } else if s.last() == '\n' {
        pieces(s.drop_last())
    } else {
        pieces(s)
    }
}

/// The text views of a sequence of string slices.
pub open spec fn views_of(v: Seq<&str>) -> Seq<Seq<char>> {
    v.map_values(|l: &str| l@)
}

proof fn lemma_pieces_len(s: Seq<char>)
    ensures
        pieces(s).len() >= 1,
    decreases s.len(),
{
    if s.len() > 0 {
        lemma_pieces_len(s.drop_last());
    }
}

/// Text without a newline is one piece.
proof fn lemma_pieces_single(s: Seq<char>)
    requires
        !s.contains('\n'),
    ensures
        pieces(s) == seq![s],
    decreases s.len(),
{
    if s.len() > 0 {
        let d = s.drop_last();
        assert(!d.contains('\n')) by {
            if d.contains('\n') {
                let i = choose|i: int| 0 <= i < d.len() && d[i] == '\n';
                assert(s[i] == '\n');
            }
        }
        lemma_pieces_single(d);
        assert(s.last() != '\n') by {
            assert(s[s.len() - 1] == s.last());
        }
        assert(d.push(s.last()) =~= s);
        assert(pieces(s) =~= seq![s]);
    }
}

/// A newline between two texts joins their pieces.
proof fn lemma_pieces_join(p: Seq<char>, b: Seq<char>)
    ensures
        pieces(p + seq!['\n'] + b) == pieces(p) + pieces(b),
    decreases b.len(),
{
    let s = p + seq!['\n'] + b;
    lemma_pieces_len(p);
    if b.len() == 0 {
        assert(s.drop_last() =~= p);
        assert(b =~= Seq::<char>::empty());
        assert(pieces(b) == seq![Seq::<char>::empty()]);
        assert(pieces(p) + pieces(b) =~= pieces(p).push(Seq::empty()));
    } else {
        let b0 = b.drop_last();
        lemma_pieces_join(p, b0);
        lemma_pieces_len(b0);
        assert(s.drop_last() =~= p + seq!['\n'] + b0);
        assert(s.last() == b.last());
        let left = pieces(p);
        let right = pieces(b0);
        if b.last() == '\n' {
            assert((left + right).push(Seq::empty()) =~= left + right.push(Seq::empty()));
        } else {
            let joined = left + right;
            assert(joined.last() == right.last());
            assert(joined.update(joined.len() - 1, joined.last().push(b.last())) =~= left
                + right.update(right.len() - 1, right.last().push(b.last())));
        }
    }
}

/// Relies on `str::split_once` with a `char` delimiter: `None` when `s` does
/// not hold it, else the text before its first occurrence and the text after.
#[verifier::external_body]
fn split_once_at<'a>(s: &'a str, sep: char) -> (r: Option<(&'a str, &'a str)>)
    ensures
        r is None <==> !s@.contains(sep),
        r matches Some((head, tail)) ==> s@ == head@ + seq![sep] + tail@ && !head@.contains(
            sep,
        ),
{
    s.split_once(sep)
}

/// Splits `contents` into its lines, each a slice of `contents`. Lines are
/// separated by `'\n'`; a final newline ends the last line and opens no new
/// one.
pub fn lines<'a>(contents: &'a str) -> (r: Vec<&'a str>)
    ensures
        views_of(r@) == lines_of(contents@),
{
    let mut out: Vec<&'a str> = Vec::new();
    let mut rest: &'a str = contents;
    let ghost mut consumed: Seq<char> = Seq::empty();
    loop
        invariant
            contents@ == consumed + rest@,
            consumed.len() == 0 || consumed.last() == '\n',
            pieces(contents@) == views_of(out@) + pieces(rest@),
            consumed.len() == 0 ==> out@.len() == 0,
            consumed.len() > 0 ==> pieces(consumed.drop_last()) == views_of(out@),
        decreases rest@.len(),
    {
        match split_once_at(rest, '\n') {
            Some((head, tail)) => {
                proof {
                    lemma_pieces_single(head@);
                    lemma_pieces_join(head@, tail@);
                    assert(views_of(out@.push(head)) =~= views_of(out@).push(head@));
                    assert(views_of(out@) + pieces(rest@) =~= views_of(out@.push(head)) + pieces(
                        tail@,
                    ));
                    let c2 = consumed + head@ + seq!['\n'];
                    assert(c2.drop_last() =~= consumed + head@);
                    if consumed.len() > 0 {
                        assert(consumed + head@ =~= consumed.drop_last() + seq!['\n'] + head@);
                        lemma_pieces_join(consumed.drop_last(), head@);
                    } else {
                        assert(consumed + head@ =~= head@);
                        assert(views_of(out@.push(head)) =~= seq![head@]);
                    }
                    assert(contents@ =~= c2 + tail@);
                    consumed = c2;
                }
                out.push(head);
                rest = tail;
            },
            None => {
                proof {
                    lemma_pieces_single(rest@);
                }
                if rest.unicode_len() > 0 {
                    proof {
                        assert(contents@.last() == rest@.last());
                        assert(views_of(out@.push(rest)) =~= views_of(out@).push(rest@));
                        assert(views_of(out@) + pieces(rest@) =~= views_of(out@).push(rest@));
                    }
                    out.push(rest);
                } else {
                    proof {
                        assert(contents@ =~= consumed);
                        if consumed.len() == 0 {
                            assert(views_of(out@) =~= Seq::<Seq<char>>::empty());
                        }
                    }
                }
                return out;
            },
        }
    }
}

} // verus!
