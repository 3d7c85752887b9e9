//! Removal of comments from shader text.

use vstd::prelude::*;
use crate::text::{CharClass, lemma_run_nonempty, run_end, scan_run, to_chars, to_string};

verus! {

/// Whether a line comment (`//`) opens at position `i`.
pub open spec fn line_comment_at(t: Seq<char>, i: int) -> bool {
    0 <= i && i + 1 < t.len() && t[i] == '/' && t[i + 1] == '/'
}

/// Whether a block comment opener (`/*`) stands at position `i`.
pub open spec fn block_open_at(t: Seq<char>, i: int) -> bool {
    0 <= i && i + 1 < t.len() && t[i] == '/' && t[i + 1] == '*'
}

/// The first position at or after `j` where a block comment closer (`*/`)
/// stands, or the length of the text where there is none.
pub open spec fn block_close(t: Seq<char>, j: int) -> int
    decreases t.len() - j,
{
    if j < 0 || j + 1 >= t.len() {
        t.len() as int
    } else if t[j] == '*' && t[j + 1] == '/' {
        j
    } else {
        block_close(t, j + 1)
    }
}

/// A closer is found at or after the position where the search began.
pub proof fn lemma_block_close(t: Seq<char>, j: int)
    requires
        0 <= j <= t.len(),
    ensures
        j <= block_close(t, j) <= t.len(),
        block_close(t, j) < t.len() ==> block_close(t, j) + 1 < t.len() && t[block_close(t, j)]
            == '*' && t[block_close(t, j) + 1] == '/',
    decreases t.len() - j,
{
    if j + 1 < t.len() && !(t[j] == '*' && t[j + 1] == '/') {
        lemma_block_close(t, j + 1);
    }
}

/// `t` from position `i` on, without its comments.
///
/// A line comment runs from `//` up to, not including, the next line feed. A
/// block comment runs from `/*` through the first `*/` that lies wholly
/// behind the opener; an opener that is never closed is ordinary text.
/// Comments are found from left to right, so an opener inside a comment
/// opens nothing.
pub open spec fn strip_from(t: Seq<char>, i: int) -> Seq<char>
    decreases t.len() - i,
{
    if i < 0 || i >= t.len() {
        Seq::empty()
    } else if line_comment_at(t, i) {
        proof {
            lemma_run_nonempty(t, i, CharClass::NonNewline);
        }
        strip_from(t, run_end(t, i, CharClass::NonNewline))
    } else if block_open_at(t, i) && block_close(t, i + 2) < t.len() {
        proof {
            lemma_block_close(t, i + 2);
        }
        strip_from(t, block_close(t, i + 2) + 2)
    } else {
        seq![t[i]] + strip_from(t, i + 1)
    }
}

/// `t` without its comments.
pub open spec fn stripped(t: Seq<char>) -> Seq<char> {
    strip_from(t, 0)
}

/// Finds the first block comment closer at or after `j`.
fn find_block_close(t: &[char], j: usize) -> (k: usize)
    requires
        j <= t.len(),
    ensures
        k == block_close(t@, j as int),
        j <= k <= t.len(),
{
    let mut k: usize = j;
    while t.len() - k >= 2 && !(t[k] == '*' && t[k + 1] == '/')
        invariant
            j <= k <= t.len(),
            block_close(t@, k as int) == block_close(t@, j as int),
        decreases t.len() - k,
    {
        k = k + 1;
    }
    if t.len() - k < 2 {
        t.len()
    } else {
        k
    }
}

/// Removes the comments from `t`.
pub fn strip_comment_chars(t: &[char]) -> (r: Vec<char>)
    ensures
        r@ == stripped(t@),
{
    let mut out: Vec<char> = Vec::new();
    let mut i: usize = 0;
    while i < t.len()
        invariant
            i <= t.len(),
            out@ + strip_from(t@, i as int) == stripped(t@),
        decreases t.len() - i,
    {
        if i + 1 < t.len() && t[i] == '/' && t[i + 1] == '/' {
            proof {
                lemma_run_nonempty(t@, i as int, CharClass::NonNewline);
            }
            i = scan_run(t, i, CharClass::NonNewline);
        } else if i + 1 < t.len() && t[i] == '/' && t[i + 1] == '*' {
            let close = find_block_close(t, i + 2);
            if close < t.len() {
                proof {
                    lemma_block_close(t@, i + 2);
                }
                i = close + 2;
            } else {
                let ghost before = out@;
                out.push(t[i]);
                proof {
                    assert(before + (seq![t@[i as int]] + strip_from(t@, i + 1)) == before.push(
                        t@[i as int],
                    ) + strip_from(t@, i + 1));
                }
                i = i + 1;
            }
        } else {
            let ghost before = out@;
            out.push(t[i]);
            proof {
                assert(before + (seq![t@[i as int]] + strip_from(t@, i + 1)) == before.push(
                    t@[i as int],
                ) + strip_from(t@, i + 1));
            }
            i = i + 1;
        }
    }
    proof {
        assert(out@ + Seq::<char>::empty() == out@);
    }
    out
}

/// Removes the line comments and the block comments from `s`.
pub fn strip_comments(s: &str) -> (r: String)
    ensures
        r@ == stripped(s@),
{
    let t = to_chars(s);
    let out = strip_comment_chars(t.as_slice());
    to_string(out.as_slice())
}

} // verus!
