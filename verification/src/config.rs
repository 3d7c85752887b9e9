//! The colors of the background gradient and their validation.

use vstd::prelude::*;
use crate::error::CodeSkewError;
use crate::text::{append_str, to_chars, to_string};

verus! {

/// Gradient colors for the background.
#[derive(Debug, Clone)]
pub struct GradientColors {
    pub start: String,
    pub end: String,
}

/// Whether `c` is an ASCII hexadecimal digit.
pub open spec fn is_hex_digit(c: char) -> bool {
    ||| '0' <= c <= '9'
    ||| 'a' <= c <= 'f'
    ||| 'A' <= c <= 'F'
}

/// Whether `color` is a `#` followed by exactly six hexadecimal digits.
pub open spec fn valid_color(color: Seq<char>) -> bool {
    &&& color.len() == 7
    &&& color[0] == '#'
    &&& forall|i: int| 1 <= i < 7 ==> is_hex_digit(#[trigger] color[i])
}

/// What the validation of the two colors gives: nothing where both are
/// valid, else the summary of the error for the first that is not.
pub open spec fn gradient_error(start: Seq<char>, end: Seq<char>) -> Option<Seq<char>> {
    if !valid_color(start) {
        Some("Invalid gradient start color: "@ + start)
    } else if !valid_color(end) {
        Some("Invalid gradient end color: "@ + end)
    } else {
        None
    }
}

/// Tests whether `c` is an ASCII hexadecimal digit.
fn is_hex_digit_char(c: char) -> (r: bool)
    ensures
        r == is_hex_digit(c),
{
    ('0' <= c && c <= '9') || ('a' <= c && c <= 'f') || ('A' <= c && c <= 'F')
}

impl GradientColors {
    /// Create a new gradient colors instance.
    pub fn new(start: String, end: String) -> (r: Self)
        ensures
            r.start == start,
            r.end == end,
    {
        Self { start, end }
    }

    /// Get the start color.
    pub fn start(&self) -> (r: &str)
        ensures
            r@ == self.start@,
    {
        self.start.as_str()
    }

    /// Get the end color.
    pub fn end(&self) -> (r: &str)
        ensures
            r@ == self.end@,
    {
        self.end.as_str()
    }

    /// Validate gradient colors format.
    pub fn validate(&self) -> (r: Result<(), CodeSkewError>)
        ensures
            match r {
                Ok(_) => gradient_error(self.start@, self.end@) is None,
                Err(CodeSkewError::ConfigError(msg)) => gradient_error(self.start@, self.end@)
                    == Some(msg@),
                Err(_) => false,
            },
    {
        if !self.is_valid_color(self.start()) {
            let mut msg: Vec<char> = Vec::new();
            append_str(&mut msg, "Invalid gradient start color: ");
            append_str(&mut msg, self.start());
            return Err(CodeSkewError::ConfigError(to_string(msg.as_slice())));
        }
        if !self.is_valid_color(self.end()) {
            let mut msg: Vec<char> = Vec::new();
            append_str(&mut msg, "Invalid gradient end color: ");
            append_str(&mut msg, self.end());
            return Err(CodeSkewError::ConfigError(to_string(msg.as_slice())));
        }
        Ok(())
    }

    /// Check if a color string is valid (hex format).
    pub fn is_valid_color(&self, color: &str) -> (r: bool)
        ensures
            r == valid_color(color@),
    {
        let t = to_chars(color);
        if t.len() != 7 || t[0] != '#' {
            return false;
        }
        let mut i: usize = 1;
        while i < 7
            invariant
                1 <= i <= 7,
                t.len() == 7,
                t@ == color@,
                forall|k: int| 1 <= k < i ==> is_hex_digit(#[trigger] t@[k]),
            decreases 7 - i,
        {
            if !is_hex_digit_char(t[i]) {
                return false;
            }
            i = i + 1;
        }
        true
    }
}

} // verus!
