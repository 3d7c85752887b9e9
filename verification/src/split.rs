//! Splitting text into lines and into whitespace-separated tokens, trimming,
//! and joining.

use vstd::prelude::*;
use crate::text::{append, char_in_class, CharClass, copy_range, in_class, is_space, is_space_char, lemma_run_end, lemma_run_nonempty, run_end, scan_run};

verus! {

/// The views of a vector of texts.
pub open spec fn texts(v: Seq<Vec<char>>) -> Seq<Seq<char>> {
    v.map_values(|l: Vec<char>| l@)
}

/// A line without the carriage return that may precede its line feed.
pub open spec fn strip_cr(line: Seq<char>) -> Seq<char> {
    if line.len() > 0 && line.last() == '\r' {
        line.drop_last()
    } else {
        line
    }
}

/// The lines of `t` from position `i` on.
///
/// A line ends at a line feed, or at a carriage return directly followed by
/// a line feed; neither belongs to the line. What follows the last line feed
/// is a line of its own unless it is empty, and keeps a trailing carriage
/// return.
pub open spec fn lines_from(t: Seq<char>, i: int) -> Seq<Seq<char>>
    decreases t.len() - i,
{
    if i < 0 || i >= t.len() {
        seq![]
    } else {
        let e = run_end(t, i, CharClass::NonNewline);
        if e >= t.len() {
            seq![t.subrange(i, t.len() as int)]
        } else {
            proof {
                lemma_run_end(t, i, CharClass::NonNewline);
            }
            seq![strip_cr(t.subrange(i, e))] + lines_from(t, e + 1)
        }
    }
}

/// The lines of `t`.
pub open spec fn lines_of(t: Seq<char>) -> Seq<Seq<char>> {
    lines_from(t, 0)
}

/// No line holds a line feed.
pub proof fn lemma_lines_have_no_newline(t: Seq<char>, i: int)
    requires
        0 <= i <= t.len(),
    ensures
        forall|k: int, p: int|
            0 <= k < lines_from(t, i).len() && 0 <= p < lines_from(t, i)[k].len()
                ==> #[trigger] lines_from(t, i)[k][p] != '\n',
    decreases t.len() - i,
{
    if i < t.len() {
        let e = run_end(t, i, CharClass::NonNewline);
        lemma_run_end(t, i, CharClass::NonNewline);
        if e < t.len() {
            lemma_lines_have_no_newline(t, e + 1);
            let head = strip_cr(t.subrange(i, e));
            let rest = lines_from(t, e + 1);
            assert forall|k: int, p: int|
                0 <= k < lines_from(t, i).len() && 0 <= p < lines_from(t, i)[k].len()
                implies #[trigger] lines_from(t, i)[k][p] != '\n' by {
                if k == 0 {
                    assert(lines_from(t, i)[0] == head);
                    assert(head[p] == t[i + p]);
                } else {
                    assert(lines_from(t, i)[k] == rest[k - 1]);
                }
            }
        } else {
            assert forall|k: int, p: int|
                0 <= k < lines_from(t, i).len() && 0 <= p < lines_from(t, i)[k].len()
                implies #[trigger] lines_from(t, i)[k][p] != '\n' by {
                assert(lines_from(t, i)[k][p] == t[i + p]);
            }
        }
    }
}

/// Splits `t` into its lines.
pub fn split_lines(t: &[char]) -> (r: Vec<Vec<char>>)
    ensures
        texts(r@) == lines_of(t@),
{
    let mut out: Vec<Vec<char>> = Vec::new();
    let mut i: usize = 0;
    while i < t.len()
        invariant
            i <= t.len(),
            texts(out@) + lines_from(t@, i as int) == lines_of(t@),
        decreases t.len() - i,
    {
        let e = scan_run(t, i, CharClass::NonNewline);
        let ghost before = texts(out@);
        if e >= t.len() {
            let line = copy_range(t, i, t.len());
            out.push(line);
            proof {
                assert(texts(out@) == before.push(line@));
                assert(lines_from(t@, i as int) == seq![line@]);
                assert(lines_from(t@, t.len() as int) == Seq::<Seq<char>>::empty());
                assert(before + seq![line@] == before.push(line@) + Seq::<Seq<char>>::empty());
            }
            i = t.len();
        } else {
            let stop = if e > i && t[e - 1] == '\r' {
                e - 1
            } else {
                e
            };
            let line = copy_range(t, i, stop);
            out.push(line);
            proof {
                assert(texts(out@) == before.push(line@));
                assert(line@ == strip_cr(t@.subrange(i as int, e as int)));
                assert(lines_from(t@, i as int) == seq![line@] + lines_from(t@, e + 1));
                assert(before + (seq![line@] + lines_from(t@, e + 1)) == before.push(line@)
                    + lines_from(t@, e + 1));
            }
            i = e + 1;
        }
    }
    proof {
        assert(lines_from(t@, i as int) == Seq::<Seq<char>>::empty());
        assert(texts(out@) + Seq::<Seq<char>>::empty() == texts(out@));
    }
    out
}

/// The whitespace-separated tokens of `t` from position `i` on: the maximal
/// runs of characters that are not whitespace.
pub open spec fn tokens_from(t: Seq<char>, i: int) -> Seq<Seq<char>>
    decreases t.len() - i,
{
    if i < 0 || i >= t.len() {
        seq![]
    } else if is_space(t[i]) {
        tokens_from(t, i + 1)
    } else {
        let e = run_end(t, i, CharClass::NonSpace);
        proof {
            lemma_run_nonempty(t, i, CharClass::NonSpace);
        }
        seq![t.subrange(i, e)] + tokens_from(t, e)
    }
}

/// The whitespace-separated tokens of `t`.
pub open spec fn tokens_of(t: Seq<char>) -> Seq<Seq<char>> {
    tokens_from(t, 0)
}

/// A token is not empty and holds no whitespace.
pub proof fn lemma_tokens_are_words(t: Seq<char>, i: int)
    requires
        0 <= i <= t.len(),
    ensures
        forall|k: int|
            0 <= k < tokens_from(t, i).len() ==> (#[trigger] tokens_from(t, i)[k]).len() > 0,
        forall|k: int, p: int|
            0 <= k < tokens_from(t, i).len() && 0 <= p < tokens_from(t, i)[k].len() ==> !is_space(
                #[trigger] tokens_from(t, i)[k][p],
            ),
    decreases t.len() - i,
{
    if i < t.len() {
        if is_space(t[i]) {
            lemma_tokens_are_words(t, i + 1);
            assert(tokens_from(t, i) == tokens_from(t, i + 1));
        } else {
            let e = run_end(t, i, CharClass::NonSpace);
            lemma_run_nonempty(t, i, CharClass::NonSpace);
            lemma_run_end(t, i, CharClass::NonSpace);
            lemma_tokens_are_words(t, e);
            let head = t.subrange(i, e);
            let rest = tokens_from(t, e);
            assert(tokens_from(t, i) == seq![head] + rest);
            assert forall|k: int| 0 <= k < tokens_from(t, i).len() implies (
            #[trigger] tokens_from(t, i)[k]).len() > 0 by {
                if k > 0 {
                    assert(tokens_from(t, i)[k] == rest[k - 1]);
                } else {
                    assert(tokens_from(t, i)[0] == head);
                }
            }
            assert forall|k: int, p: int|
                0 <= k < tokens_from(t, i).len() && 0 <= p < tokens_from(t, i)[k].len()
                implies !is_space(#[trigger] tokens_from(t, i)[k][p]) by {
                if k == 0 {
                    assert(tokens_from(t, i)[0] == head);
                    assert(head[p] == t[i + p]);
                    assert(in_class(t[i + p], CharClass::NonSpace));
                } else {
                    assert(tokens_from(t, i)[k] == rest[k - 1]);
                }
            }
        }
    } else {
        assert(tokens_from(t, i) == Seq::<Seq<char>>::empty());
    }
}

/// Splits `t` into its whitespace-separated tokens.
pub fn split_tokens(t: &[char]) -> (r: Vec<Vec<char>>)
    ensures
        texts(r@) == tokens_of(t@),
{
    let mut out: Vec<Vec<char>> = Vec::new();
    let mut i: usize = 0;
    while i < t.len()
        invariant
            i <= t.len(),
            texts(out@) + tokens_from(t@, i as int) == tokens_of(t@),
        decreases t.len() - i,
    {
        if is_space_char(t[i]) {
            i = i + 1;
        } else {
            let e = scan_run(t, i, CharClass::NonSpace);
            let token = copy_range(t, i, e);
            let ghost before = texts(out@);
            out.push(token);
            proof {
                lemma_run_nonempty(t@, i as int, CharClass::NonSpace);
                assert(texts(out@) == before.push(token@));
                assert(tokens_from(t@, i as int) == seq![token@] + tokens_from(t@, e as int));
                assert(before + (seq![token@] + tokens_from(t@, e as int)) == before.push(token@)
                    + tokens_from(t@, e as int));
            }
            i = e;
        }
    }
    proof {
        assert(tokens_from(t@, i as int) == Seq::<Seq<char>>::empty());
        assert(texts(out@) + Seq::<Seq<char>>::empty() == texts(out@));
    }
    out
}

/// The start of the run of characters of `class` that ends just before `j`.
pub open spec fn run_start(t: Seq<char>, j: int, class: CharClass) -> int
    decreases j,
{
    if 0 < j <= t.len() && in_class(t[j - 1], class) {
        run_start(t, j - 1, class)
    } else {
        j
    }
}

/// `t` without its leading whitespace.
pub open spec fn trim_start(t: Seq<char>) -> Seq<char> {
    t.subrange(run_end(t, 0, CharClass::Space), t.len() as int)
}

/// `t` without its leading and trailing whitespace.
pub open spec fn trim(t: Seq<char>) -> Seq<char> {
    let s = run_end(t, 0, CharClass::Space);
    let e = run_start(t, t.len() as int, CharClass::Space);
    if s >= e {
        Seq::empty()
    } else {
        t.subrange(s, e)
    }
}

/// Scans backwards over the run of `class` that ends just before `j`.
pub fn scan_back(t: &[char], j: usize, class: CharClass) -> (i: usize)
    ensures
        i == run_start(t@, j as int, class),
        i <= j,
{
    let mut i: usize = j;
    while i > 0 && i <= t.len() && char_in_class(t[i - 1], class)
        invariant
            i <= j,
            run_start(t@, i as int, class) == run_start(t@, j as int, class),
        decreases i,
    {
        i = i - 1;
    }
    i
}

/// A copy of `t` without its leading and trailing whitespace.
pub fn trimmed(t: &[char]) -> (r: Vec<char>)
    ensures
        r@ == trim(t@),
{
    let s = scan_run(t, 0, CharClass::Space);
    let e = scan_back(t, t.len(), CharClass::Space);
    if s >= e {
        Vec::new()
    } else {
        copy_range(t, s, e)
    }
}

/// The texts of `parts` in order, with `sep` between each two neighbours.
pub open spec fn join(parts: Seq<Seq<char>>, sep: Seq<char>) -> Seq<char>
    decreases parts.len(),
{
    if parts.len() == 0 {
        Seq::empty()
    } else if parts.len() == 1 {
        parts[0]
    } else {
        join(parts.drop_last(), sep) + sep + parts.last()
    }
}

/// Joins the texts `parts[from..]` with `sep` between neighbours.
pub fn join_from(parts: &Vec<Vec<char>>, from: usize, sep: &[char]) -> (r: Vec<char>)
    requires
        from <= parts.len(),
    ensures
        r@ == join(texts(parts@).subrange(from as int, parts.len() as int), sep@),
{
    let mut out: Vec<char> = Vec::new();
    let mut k: usize = from;
    let ghost all = texts(parts@);
    while k < parts.len()
        invariant
            from <= k <= parts.len(),
            all == texts(parts@),
            out@ == join(all.subrange(from as int, k as int), sep@),
        decreases parts.len() - k,
    {
        let ghost prev = all.subrange(from as int, k as int);
        let ghost next = all.subrange(from as int, k + 1);
        proof {
            assert(next.drop_last() == prev);
            assert(next.last() == parts@[k as int]@);
        }
        if k > from {
            append(&mut out, sep);
        }
        append(&mut out, parts[k].as_slice());
        proof {
            if k == from {
                assert(prev.len() == 0);
                assert(out@ == parts@[k as int]@);
            }
        }
        k = k + 1;
    }
    out
}

/// The pieces of `t` from position `i` on that commas separate. A comma at
/// the end leaves an empty last piece.
pub open spec fn fields_from(t: Seq<char>, i: int) -> Seq<Seq<char>>
    decreases t.len() - i + 1,
{
    if i < 0 || i > t.len() {
        seq![]
    } else {
        let e = run_end(t, i, CharClass::Except(','));
        if e >= t.len() {
            seq![t.subrange(i, t.len() as int)]
        } else {
            proof {
                lemma_run_end(t, i, CharClass::Except(','));
            }
            seq![t.subrange(i, e)] + fields_from(t, e + 1)
        }
    }
}

/// Splits `t` at its commas.
pub fn split_fields(t: &[char]) -> (r: Vec<Vec<char>>)
    ensures
        texts(r@) == fields_from(t@, 0),
{
    let mut out: Vec<Vec<char>> = Vec::new();
    let mut i: usize = 0;
    loop
        invariant_except_break
            i <= t.len(),
            texts(out@) + fields_from(t@, i as int) == fields_from(t@, 0),
        ensures
            texts(out@) == fields_from(t@, 0),
        decreases t.len() - i,
    {
        let e = scan_run(t, i, CharClass::Except(','));
        let piece = copy_range(t, i, e);
        let ghost before = texts(out@);
        out.push(piece);
        proof {
            assert(texts(out@) == before.push(piece@));
        }
        if e >= t.len() {
            proof {
                assert(fields_from(t@, i as int) == seq![piece@]);
                assert(before + seq![piece@] == before.push(piece@));
            }
            break ;
        }
        proof {
            assert(fields_from(t@, i as int) == seq![piece@] + fields_from(t@, e + 1));
            assert(before + (seq![piece@] + fields_from(t@, e + 1)) == before.push(piece@)
                + fields_from(t@, e + 1));
        }
        i = e + 1;
    }
    out
}

} // verus!
