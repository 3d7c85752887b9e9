//! Lines of code as spans of text that share a style.

use vstd::prelude::*;
use vstd::utf8::encode_utf8;
use crate::text::{is_space, is_space_char, to_chars};

verus! {

/// A styled span of text with syntax highlighting.
#[derive(Debug, Clone)]
pub struct StyledSpan {
    pub text: String,
    pub start: usize,
    pub end: usize,
    pub style: SpanStyle,
}

/// Style information for a span of text.
#[derive(Debug, Clone, Copy)]
pub struct SpanStyle {
    pub foreground: (u8, u8, u8),
    pub background: (u8, u8, u8),
    pub is_bold: bool,
    pub is_italic: bool,
    pub is_underline: bool,
}

/// A line of styled spans.
#[derive(Debug, Clone)]
pub struct StyledLine {
    pub spans: Vec<StyledSpan>,
    pub line_number: usize,
}

/// Whether `t` holds whitespace only.
pub open spec fn all_space(t: Seq<char>) -> bool {
    forall|i: int| 0 <= i < t.len() ==> is_space(#[trigger] t[i])
}

/// Whether each of the first `n` spans holds whitespace only.
pub open spec fn blank_up_to(spans: Seq<StyledSpan>, n: int) -> bool {
    forall|k: int| 0 <= k < n ==> all_space((#[trigger] spans[k]).text@)
}

/// The bytes that the texts of the first `n` spans take together in UTF-8.
pub open spec fn bytes_up_to(spans: Seq<StyledSpan>, n: int) -> int
    decreases n,
{
    if n <= 0 {
        0
    } else {
        bytes_up_to(spans, n - 1) + encode_utf8(spans[n - 1].text@).len()
    }
}

/// Tests whether `text` holds whitespace only.
pub fn is_blank_text(text: &str) -> (r: bool)
    ensures
        r == all_space(text@),
{
    let t = to_chars(text);
    let mut i: usize = 0;
    while i < t.len()
        invariant
            i <= t.len(),
            t@ == text@,
            forall|k: int| 0 <= k < i ==> is_space(#[trigger] t@[k]),
        decreases t.len() - i,
    {
        if !is_space_char(t[i]) {
            return false;
        }
        i = i + 1;
    }
    true
}

impl StyledLine {
    /// Whether the line shows nothing: every span is whitespace.
    pub fn is_blank(&self) -> (r: bool)
        ensures
            r == blank_up_to(self.spans@, self.spans@.len() as int),
    {
        let mut k: usize = 0;
        while k < self.spans.len()
            invariant
                k <= self.spans.len(),
                blank_up_to(self.spans@, k as int),
            decreases self.spans.len() - k,
        {
            if !is_blank_text(self.spans[k].text.as_str()) {
                return false;
            }
            k = k + 1;
        }
        true
    }

    /// Whether the line shows something: a span holds a character that is
    /// no whitespace.
    pub fn has_text(&self) -> (r: bool)
        ensures
            r == !blank_up_to(self.spans@, self.spans@.len() as int),
    {
        !self.is_blank()
    }

    /// The bytes that the texts of the spans take together in UTF-8, or
    /// `None` where their number does not fit.
    pub fn byte_length(&self) -> (r: Option<usize>)
        ensures
            match r {
                Some(n) => n == bytes_up_to(self.spans@, self.spans@.len() as int),
                None => bytes_up_to(self.spans@, self.spans@.len() as int) > usize::MAX,
            },
    {
        let mut total: usize = 0;
        let mut k: usize = 0;
        while k < self.spans.len()
            invariant
                k <= self.spans.len(),
                total == bytes_up_to(self.spans@, k as int),
            decreases self.spans.len() - k,
        {
            let text = self.spans[k].text.as_str();
            let len = text.as_bytes().len();
            proof {
                assert(text@ == self.spans@[k as int].text@);
                assert(len == encode_utf8(self.spans@[k as int].text@).len());
                assert(bytes_up_to(self.spans@, k + 1) == bytes_up_to(self.spans@, k as int) + len);
            }
            match total.checked_add(len) {
                Some(n) => {
                    total = n;
                },
                None => {
                    proof {
                        lemma_bytes_grow(self.spans@, k + 1, self.spans@.len() as int);
                    }
                    return None;
                },
            }
            k = k + 1;
        }
        Some(total)
    }
}

/// More spans never take fewer bytes.
proof fn lemma_bytes_grow(spans: Seq<StyledSpan>, a: int, b: int)
    requires
        0 <= a <= b,
    ensures
        bytes_up_to(spans, a) <= bytes_up_to(spans, b),
    decreases b - a,
{
    if a < b {
        lemma_bytes_grow(spans, a, b - 1);
    }
}

} // verus!
