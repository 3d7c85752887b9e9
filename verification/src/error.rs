//! Errors that preprocessing reports, each with the line it belongs to.

use vstd::prelude::*;
use crate::number::{decimal, decimal_text};
use crate::text::{append, append_str, to_string};

verus! {

/// An error in shader text: what is wrong, and the line that is to blame.
#[derive(Clone, Debug)]
pub struct WGSLError {
    summary: String,
    line: usize,
}

/// What an error says, as plain values.
pub struct Failure {
    /// What is wrong.
    pub summary: Seq<char>,
    /// The line that is to blame, counted from one.
    pub line: usize,
}

impl View for WGSLError {
    type V = Failure;

    closed spec fn view(&self) -> Failure {
        Failure { summary: self.summary@, line: self.line }
    }
}

/// The text that reports `summary` for the place `row`:`col`.
pub open spec fn report_text(summary: Seq<char>, row: usize, col: usize) -> Seq<char> {
    decimal(row as nat) + seq![':'] + decimal(col as nat) + ": "@ + summary
}

impl WGSLError {
    /// An error that says `summary` of line `line`.
    pub fn new(summary: String, line: usize) -> (e: Self)
        ensures
            e@ == (Failure { summary: summary@, line }),
    {
        WGSLError { summary, line }
    }

    /// What is wrong.
    pub fn summary(&self) -> (s: &str)
        ensures
            s@ == self@.summary,
    {
        self.summary.as_str()
    }

    /// The line that is to blame, counted from one.
    pub fn line(&self) -> (n: usize)
        ensures
            n == self@.line,
    {
        self.line
    }

    /// The report of `summary` for the place `row`:`col`, as one line of
    /// text.
    pub fn handler(summary: &str, row: usize, col: usize) -> (r: String)
        ensures
            r@ == report_text(summary@, row, col),
    {
        let mut out: Vec<char> = decimal_text(row);
        out.push(':');
        let col_text = decimal_text(col);
        append(&mut out, col_text.as_slice());
        append_str(&mut out, ": ");
        append_str(&mut out, summary);
        to_string(out.as_slice())
    }

    /// The report of this error: its line, column zero, and its summary.
    pub fn submit(&self) -> (r: String)
        ensures
            r@ == report_text(self@.summary, self@.line, 0),
    {
        Self::handler(self.summary.as_str(), self.line, 0)
    }
}

/// `std::io::Error`, as an opaque type.
#[verifier::external_type_specification]
#[verifier::external_body]
pub struct ExIoError(std::io::Error);

/// What can go wrong while code is rendered.
#[derive(Debug)]
pub enum CodeSkewError {
    IoError(std::io::Error),
    FontError(String),
    LayoutError(String),
    RenderingError(String),
    ConfigError(String),
    SyntaxError(String),
    AnimationError(String),
    OutputError(String),
    Unknown(String),
}

/// What the display of an I/O error of the standard library reads. It
/// depends on the platform, so nothing is said of it.
#[verifier::external_body]
fn io_error_text(e: &std::io::Error) -> (r: String) {
    format!("{}", e)
}

impl CodeSkewError {
    /// The words that open the message of this kind of error.
    pub open spec fn prefix(&self) -> Seq<char> {
        match self {
            CodeSkewError::IoError(_) => "IO error: "@,
            CodeSkewError::FontError(_) => "Font error: "@,
            CodeSkewError::LayoutError(_) => "Layout error: "@,
            CodeSkewError::RenderingError(_) => "Rendering error: "@,
            CodeSkewError::ConfigError(_) => "Configuration error: "@,
            CodeSkewError::SyntaxError(_) => "Syntax highlighting error: "@,
            CodeSkewError::AnimationError(_) => "Animation error: "@,
            CodeSkewError::OutputError(_) => "Output error: "@,
            CodeSkewError::Unknown(_) => "Unknown error: "@,
        }
    }

    /// The detail that the error carries, where it is text.
    pub open spec fn detail(&self) -> Option<Seq<char>> {
        match self {
            CodeSkewError::IoError(_) => None,
            CodeSkewError::FontError(s) => Some(s@),
            CodeSkewError::LayoutError(s) => Some(s@),
            CodeSkewError::RenderingError(s) => Some(s@),
            CodeSkewError::ConfigError(s) => Some(s@),
            CodeSkewError::SyntaxError(s) => Some(s@),
            CodeSkewError::AnimationError(s) => Some(s@),
            CodeSkewError::OutputError(s) => Some(s@),
            CodeSkewError::Unknown(s) => Some(s@),
        }
    }

    /// The message of the error: the words for its kind, then its detail.
    pub fn message(&self) -> (r: String)
        ensures
            r@.len() >= self.prefix().len(),
            r@.subrange(0, self.prefix().len() as int) == self.prefix(),
            self.detail() matches Some(d) ==> r@ == self.prefix() + d,
    {
        let mut out: Vec<char> = Vec::new();
        match self {
            CodeSkewError::IoError(e) => {
                append_str(&mut out, "IO error: ");
                let ghost head = out@;
                append_str(&mut out, io_error_text(e).as_str());
                assert(out@.subrange(0, head.len() as int) == head);
            },
            CodeSkewError::FontError(s) => {
                append_str(&mut out, "Font error: ");
                let ghost head = out@;
                append_str(&mut out, s.as_str());
                assert(out@.subrange(0, head.len() as int) == head);
            },
            CodeSkewError::LayoutError(s) => {
                append_str(&mut out, "Layout error: ");
                let ghost head = out@;
                append_str(&mut out, s.as_str());
                assert(out@.subrange(0, head.len() as int) == head);
            },
            CodeSkewError::RenderingError(s) => {
                append_str(&mut out, "Rendering error: ");
                let ghost head = out@;
                append_str(&mut out, s.as_str());
                assert(out@.subrange(0, head.len() as int) == head);
            },
            CodeSkewError::ConfigError(s) => {
                append_str(&mut out, "Configuration error: ");
                let ghost head = out@;
                append_str(&mut out, s.as_str());
                assert(out@.subrange(0, head.len() as int) == head);
            },
            CodeSkewError::SyntaxError(s) => {
                append_str(&mut out, "Syntax highlighting error: ");
                let ghost head = out@;
                append_str(&mut out, s.as_str());
                assert(out@.subrange(0, head.len() as int) == head);
            },
            CodeSkewError::AnimationError(s) => {
                append_str(&mut out, "Animation error: ");
                let ghost head = out@;
                append_str(&mut out, s.as_str());
                assert(out@.subrange(0, head.len() as int) == head);
            },
            CodeSkewError::OutputError(s) => {
                append_str(&mut out, "Output error: ");
                let ghost head = out@;
                append_str(&mut out, s.as_str());
                assert(out@.subrange(0, head.len() as int) == head);
            },
            CodeSkewError::Unknown(s) => {
                append_str(&mut out, "Unknown error: ");
                let ghost head = out@;
                append_str(&mut out, s.as_str());
                assert(out@.subrange(0, head.len() as int) == head);
            },
        }
        to_string(out.as_slice())
    }
}

} // verus!
