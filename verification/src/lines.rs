//! Splitting text into lines, with the same conventions as `str::lines`:
//! lines are separated by `'\n'`, a separator `"\r\n"` counts as one line
//! ending, and a final line ending produces no extra empty line.

use vstd::prelude::*;
use vstd::string::StrSliceExecFns;

verus! {

/// Index of the first `'\n'` in `s`, or `s.len()` if there is none.
pub open spec fn first_newline(s: Seq<char>) -> int
    decreases s.len(),
{
    if s.len() == 0 {
        0
    } else if s[0] == '\n' {
        0
    } else {
        1 + first_newline(s.subrange(1, s.len() as int))
    }
}

/// A line terminated by `'\n'` also loses a final `'\r'`, so that `"\r\n"`
/// acts as a single line ending.
pub open spec fn strip_cr(l: Seq<char>) -> Seq<char> {
    if l.len() > 0 && l.last() == '\r' {
        l.drop_last()
    } else {
        l
    }
}

pub proof fn lemma_first_newline_bounds(s: Seq<char>)
    ensures
        0 <= first_newline(s) <= s.len(),
        first_newline(s) < s.len() ==> s[first_newline(s)] == '\n',
        forall|k: int| 0 <= k < first_newline(s) ==> s[k] != '\n',
    decreases s.len(),
{
    if s.len() == 0 {
    } else if s[0] == '\n' {
    } else {
        let t = s.subrange(1, s.len() as int);
        lemma_first_newline_bounds(t);
        assert forall|k: int| 0 <= k < first_newline(s) implies s[k] != '\n' by {
            if k >= 1 {
                assert(s[k] == t[k - 1]);
            }
        }
        if first_newline(s) < s.len() {
            assert(s[first_newline(s)] == t[first_newline(t)]);
        }
    }
}

/// `first_newline` is the one position with no `'\n'` anywhere before it
/// and either a `'\n'` at it or the end of the sequence.
pub proof fn lemma_first_newline_at(s: Seq<char>, i: int)
    requires
        0 <= i <= s.len(),
        forall|k: int| 0 <= k < i ==> s[k] != '\n',
        i < s.len() ==> s[i] == '\n',
    ensures
        first_newline(s) == i,
    decreases s.len(),
{
    if s.len() == 0 {
    } else if s[0] == '\n' {
        assert(i == 0);
    } else {
        let t = s.subrange(1, s.len() as int);
        assert(i >= 1);
        assert forall|k: int| 0 <= k < i - 1 implies t[k] != '\n' by {
            assert(t[k] == s[k + 1]);
        }
        lemma_first_newline_at(t, i - 1);
    }
}

/// The lines of `s`: maximal stretches between `'\n'` separators, each with
/// a final `'\r'` removed when a `'\n'` followed it. Empty text has no
/// lines, and a final `'\n'` adds no empty last line.
pub open spec fn line_split(s: Seq<char>) -> Seq<Seq<char>>
    decreases s.len(),
    via line_split_decreases
{
    if s.len() == 0 {
        Seq::empty()
    } else {
        let i = first_newline(s);
        if i == s.len() {
            seq![s]
        } else {
            seq![strip_cr(s.subrange(0, i))] + line_split(s.subrange(i + 1, s.len() as int))
        }
    }
}

#[via_fn]
proof fn line_split_decreases(s: Seq<char>) {
    lemma_first_newline_bounds(s);
}

/// Splits `contents` into its lines, in order, each a view into `contents`.
pub fn split_lines<'a>(contents: &'a str) -> (r: Vec<&'a str>)
    ensures
        r.deep_view() == line_split(contents@),
{
    let n: usize = contents.unicode_len();
    let mut r: Vec<&'a str> = Vec::new();
    let mut start: usize = 0;
    let mut pos: usize = 0;
    proof {
        assert(contents@.subrange(0, n as int) =~= contents@);
        assert(r.deep_view() + line_split(contents@) =~= line_split(contents@));
    }
    while pos < n
        invariant
            n == contents@.len(),
            start <= pos <= n,
            forall|k: int| start <= k < pos ==> contents@[k] != '\n',
            line_split(contents@) == r.deep_view() + line_split(
                contents@.subrange(start as int, n as int),
            ),
        decreases n - pos,
    {
        if contents.get_char(pos) == '\n' {
            let end: usize = if pos > start && contents.get_char(pos - 1) == '\r' {
                pos - 1
            } else {
                pos
            };
            let line: &'a str = contents.substring_char(start, end);
            proof {
                let tail = contents@.subrange(start as int, n as int);
                assert forall|k: int| 0 <= k < pos - start implies tail[k] != '\n' by {
                    assert(tail[k] == contents@[start + k]);
                }
                assert(tail[pos - start] == contents@[pos as int]);
                lemma_first_newline_at(tail, pos - start);
                assert(tail.subrange(0, pos - start) =~= contents@.subrange(
                    start as int,
                    pos as int,
                ));
                let piece = contents@.subrange(start as int, pos as int);
                if pos > start && contents@[pos - 1] == '\r' {
                    assert(piece.last() == contents@[pos - 1]);
                    assert(strip_cr(piece) =~= line@);
                } else {
                    if piece.len() > 0 {
                        assert(piece.last() == contents@[pos - 1]);
                    }
                    assert(strip_cr(piece) =~= line@);
                }
                assert(tail.subrange(pos - start + 1, tail.len() as int) =~= contents@.subrange(
                    pos + 1,
                    n as int,
                ));
                assert(line_split(tail) == seq![line@] + line_split(
                    contents@.subrange(pos + 1, n as int),
                ));
                assert((r.deep_view() + seq![line@]) + line_split(
                    contents@.subrange(pos + 1, n as int),
                ) =~= r.deep_view() + (seq![line@] + line_split(
                    contents@.subrange(pos + 1, n as int),
                )));
            }
            let ghost old_dv = r.deep_view();
            r.push(line);
            proof {
                assert(r.deep_view() =~= old_dv + seq![line@]);
            }
            start = pos + 1;
        }
        pos += 1;
    }
    if start < n {
        let line: &'a str = contents.substring_char(start, n);
        proof {
            let tail = contents@.subrange(start as int, n as int);
            assert forall|k: int| 0 <= k < tail.len() implies tail[k] != '\n' by {
                assert(tail[k] == contents@[start + k]);
            }
            lemma_first_newline_at(tail, tail.len() as int);
            assert(line_split(tail) == seq![tail]);
            assert(line@ == tail);
        }
        let ghost old_dv = r.deep_view();
        r.push(line);
        proof {
            assert(r.deep_view() =~= old_dv + seq![line@]);
            assert(old_dv + seq![line@] =~= line_split(contents@));
        }
    } else {
        proof {
            let tail = contents@.subrange(start as int, n as int);
            assert(tail =~= Seq::<char>::empty());
            assert(line_split(tail) =~= Seq::<Seq<char>>::empty());
            assert(r.deep_view() + line_split(tail) =~= r.deep_view());
        }
    }
    r
}

} // verus!
