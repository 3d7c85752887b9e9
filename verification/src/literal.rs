//! Double-quoted literals in shader text, and their rewriting into
//! fixed-size arrays of code points.

use vstd::prelude::*;
use crate::number::{decimal, decimal_text, hex_literal, hex_literal_text};
use crate::text::{append, append_str, code_point, copy_range, to_chars, to_string};

verus! {

/// The number of code points that a rewritten string literal holds.
pub const STRING_MAX_LEN: usize = 20;

/// Where the double-quoted literal ends whose opening quote has been passed
/// and whose next unread character stands at `j`: the position behind the
/// closing quote.
///
/// Inside a literal a backslash takes the next character with it, whatever
/// it is but a line feed; a backslash before a line feed, or at the end of
/// the text, leaves the literal unfinished, as does a missing closing quote.
pub open spec fn literal_end(t: Seq<char>, j: int) -> Option<int>
    decreases t.len() - j,
{
    if j < 0 || j >= t.len() {
        None
    } else if t[j] == '"' {
        Some(j + 1)
    } else if t[j] == '\\' {
        if j + 1 < t.len() && t[j + 1] != '\n' {
            literal_end(t, j + 2)
        } else {
            None
        }
    } else {
        literal_end(t, j + 1)
    }
}

/// Where the double-quoted literal that opens at `i` ends, if one opens
/// there and is finished.
pub open spec fn literal_at(t: Seq<char>, i: int) -> Option<int> {
    if 0 <= i < t.len() && t[i] == '"' {
        literal_end(t, i + 1)
    } else {
        None
    }
}

/// A literal ends behind the position from which it is read, inside the
/// text.
pub proof fn lemma_literal_end(t: Seq<char>, j: int)
    requires
        0 <= j,
    ensures
        literal_end(t, j) matches Some(e) ==> j < e <= t.len(),
    decreases t.len() - j,
{
    if j < t.len() && t[j] != '"' {
        if t[j] == '\\' {
            if j + 1 < t.len() && t[j + 1] != '\n' {
                lemma_literal_end(t, j + 2);
            }
        } else {
            lemma_literal_end(t, j + 1);
        }
    }
}

/// Finds the end of the literal that opens at `i`.
pub fn scan_literal(t: &[char], i: usize) -> (r: Option<usize>)
    ensures
        match r {
            Some(e) => literal_at(t@, i as int) == Some(e as int) && i + 2 <= e <= t.len(),
            None => literal_at(t@, i as int) is None,
        },
{
    if i >= t.len() || t[i] != '"' {
        return None;
    }
    let mut j: usize = i + 1;
    while j < t.len()
        invariant
            i < j <= t.len(),
            literal_end(t@, j as int) == literal_at(t@, i as int),
        decreases t.len() - j,
    {
        if t[j] == '"' {
            return Some(j + 1);
        } else if t[j] == '\\' {
            if t.len() - j >= 2 && t[j + 1] != '\n' {
                j = j + 2;
            } else {
                return None;
            }
        } else {
            j = j + 1;
        }
    }
    None
}

/// The bounds of the leftmost finished literal that opens at or after `i`.
pub open spec fn first_literal(t: Seq<char>, i: int) -> Option<(int, int)>
    decreases t.len() - i,
{
    if i < 0 || i >= t.len() {
        None
    } else if literal_at(t, i) is Some {
        Some((i, literal_at(t, i)->0))
    } else {
        first_literal(t, i + 1)
    }
}

/// Finds the leftmost finished literal of `t`.
pub fn find_literal(t: &[char]) -> (r: Option<(usize, usize)>)
    ensures
        match r {
            Some((s, e)) => first_literal(t@, 0) == Some((s as int, e as int)) && s + 2 <= e
                <= t.len(),
            None => first_literal(t@, 0) is None,
        },
{
    let mut i: usize = 0;
    while i < t.len()
        invariant
            i <= t.len(),
            first_literal(t@, i as int) == first_literal(t@, 0),
        decreases t.len() - i,
    {
        match scan_literal(t, i) {
            Some(e) => {
                return Some((i, e));
            },
            None => {},
        }
        i = i + 1;
    }
    None
}

/// What a quoted literal denotes once its quotes are removed and its escape
/// sequences are resolved, or `None` where it holds an escape sequence that
/// has no meaning.
pub uninterp spec fn unescaped(literal: Seq<char>) -> Option<Seq<char>>;

/// `snailquote::unescape`: reads a shell-like quoted string. The result
/// depends on the text alone. An invalid escape sequence is an error, which
/// becomes `None` here; the function does not panic.
#[verifier::external_body]
fn unescape(literal: &str) -> (r: Option<String>)
    ensures
        match r {
            Some(s) => unescaped(literal@) == Some(s@),
            None => unescaped(literal@) is None,
        },
{
    snailquote::unescape(literal).ok()
}

/// The code point that stands at place `k` of the array for the text `s`:
/// the character's, or zero behind the end of the text.
pub open spec fn code_at(s: Seq<char>, k: int) -> nat {
    if 0 <= k < s.len() {
        s[k] as nat
    } else {
        0
    }
}

/// The first `n` places of the array for `s` as hexadecimal literals,
/// separated by commas.
pub open spec fn code_list(s: Seq<char>, n: nat) -> Seq<char>
    decreases n,
{
    if n == 0 {
        Seq::empty()
    } else if n == 1 {
        hex_literal(code_at(s, 0))
    } else {
        code_list(s, (n - 1) as nat) + seq![','] + hex_literal(code_at(s, n - 1))
    }
}

/// The constructor call that stands for the text `s`: its length, then its
/// code points padded with zeros to `STRING_MAX_LEN` places.
pub open spec fn encoded(s: Seq<char>) -> Seq<char> {
    "String("@ + decimal(s.len()) + ", array<uint,20>("@ + code_list(s, STRING_MAX_LEN as nat)
        + "))"@
}

/// The constructor call for the decoded text `s`, or `None` where the text
/// is longer than `STRING_MAX_LEN` characters.
pub open spec fn encode(s: Seq<char>) -> Option<Seq<char>> {
    if s.len() > STRING_MAX_LEN {
        None
    } else {
        Some(encoded(s))
    }
}

/// Encodes a decoded string as a constructor call.
pub fn encode_text(s: &[char]) -> (r: Option<Vec<char>>)
    ensures
        match r {
            Some(v) => encode(s@) == Some(v@),
            None => encode(s@) is None,
        },
{
    if s.len() > STRING_MAX_LEN {
        return None;
    }
    let mut out: Vec<char> = Vec::new();
    append_str(&mut out, "String(");
    let len_text = decimal_text(s.len());
    append(&mut out, len_text.as_slice());
    append_str(&mut out, ", array<uint,20>(");
    let ghost head = out@;
    let mut k: usize = 0;
    while k < STRING_MAX_LEN
        invariant
            k <= STRING_MAX_LEN,
            out@ == head + code_list(s@, k as nat),
        decreases STRING_MAX_LEN - k,
    {
        let ghost before = code_list(s@, k as nat);
        if k > 0 {
            out.push(',');
        }
        let code: u32 = if k < s.len() {
            code_point(s[k])
        } else {
            0
        };
        let lit = hex_literal_text(code);
        append(&mut out, lit.as_slice());
        proof {
            assert(code as nat == code_at(s@, k as int));
            if k == 0 {
                assert(out@ == head + lit@);
            } else {
                assert(out@ == head + (before + seq![','] + lit@));
            }
        }
        k = k + 1;
    }
    append_str(&mut out, "))");
    Some(out)
}

/// A text in front of an outcome that may have failed.
pub open spec fn prepend(head: Seq<char>, rest: Option<Seq<char>>) -> Option<Seq<char>> {
    match rest {
        Some(r) => Some(head + r),
        None => None,
    }
}

/// What stands for the finished literal `lit`: its encoding where its
/// escape sequences resolve, the literal itself where they do not, and
/// `None` where the resolved text is too long.
pub open spec fn literal_image(lit: Seq<char>) -> Option<Seq<char>> {
    match unescaped(lit) {
        Some(s) => encode(s),
        None => Some(lit),
    }
}

/// `t` from position `i` on with each finished double-quoted literal
/// replaced by what stands for it, or `None` where one of them is too long.
/// Literals are found from left to right and do not overlap.
pub open spec fn rewrite_from(t: Seq<char>, i: int) -> Option<Seq<char>>
    decreases t.len() - i,
{
    if i < 0 || i >= t.len() {
        Some(Seq::empty())
    } else {
        match literal_at(t, i) {
            Some(e) => {
                proof {
                    lemma_literal_end(t, i + 1);
                }
                match literal_image(t.subrange(i, e)) {
                    Some(image) => prepend(image, rewrite_from(t, e)),
                    None => None,
                }
            },
            None => prepend(seq![t[i]], rewrite_from(t, i + 1)),
        }
    }
}

/// `t` with its string literals rewritten.
pub open spec fn rewritten(t: Seq<char>) -> Option<Seq<char>> {
    rewrite_from(t, 0)
}

/// Resolves the escape sequences of the finished literal `lit` and encodes
/// the result.
pub fn literal_image_text(lit: &[char]) -> (r: Option<Vec<char>>)
    ensures
        match r {
            Some(v) => literal_image(lit@) == Some(v@),
            None => literal_image(lit@) is None,
        },
{
    let s = to_string(lit);
    match unescape(s.as_str()) {
        Some(decoded) => {
            let chars = to_chars(decoded.as_str());
            encode_text(chars.as_slice())
        },
        None => Some(copy_range(lit, 0, lit.len())),
    }
}

/// Rewrites the string literals of `t`.
pub fn rewrite_literals(t: &[char]) -> (r: Option<Vec<char>>)
    ensures
        match r {
            Some(v) => rewritten(t@) == Some(v@),
            None => rewritten(t@) is None,
        },
{
    let mut out: Vec<char> = Vec::new();
    let mut i: usize = 0;
    while i < t.len()
        invariant
            i <= t.len(),
            prepend(out@, rewrite_from(t@, i as int)) == rewritten(t@),
        decreases t.len() - i,
    {
        let ghost before = out@;
        match scan_literal(t, i) {
            Some(e) => {
                let lit = copy_range(t, i, e);
                match literal_image_text(lit.as_slice()) {
                    Some(image) => {
                        append(&mut out, image.as_slice());
                        proof {
                            let rest = rewrite_from(t@, e as int);
                            if rest is Some {
                                assert(before + (image@ + rest->0) == (before + image@) + rest->0);
                            }
                        }
                        i = e;
                    },
                    None => {
                        return None;
                    },
                }
            },
            None => {
                out.push(t[i]);
                proof {
                    let rest = rewrite_from(t@, i + 1);
                    if rest is Some {
                        assert(before + (seq![t@[i as int]] + rest->0) == before.push(t@[i as int])
                            + rest->0);
                    }
                }
                i = i + 1;
            },
        }
    }
    proof {
        assert(out@ + Seq::<char>::empty() == out@);
    }
    Some(out)
}

} // verus!
