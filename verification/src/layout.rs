//! Characters with their colors, and the flattening of styled lines into
//! them.

use vstd::prelude::*;
use crate::highlight::{StyledLine, StyledSpan};
use crate::text::to_chars;

verus! {

/// A styled character with color information.
#[derive(Debug, Clone)]
pub struct StyledChar {
    pub char: char,
    pub color: CharColor,
}

/// Color information for a character.
#[derive(Debug, Clone)]
pub struct CharColor {
    pub r: u8,
    pub g: u8,
    pub b: u8,
}

/// A character and its color as plain values.
pub struct Glyph {
    pub ch: char,
    pub r: u8,
    pub g: u8,
    pub b: u8,
}

impl View for StyledChar {
    type V = Glyph;

    open spec fn view(&self) -> Glyph {
        Glyph { ch: self.char, r: self.color.r, g: self.color.g, b: self.color.b }
    }
}

/// The views of a vector of styled characters.
pub open spec fn glyphs(v: Seq<StyledChar>) -> Seq<Glyph> {
    v.map_values(|c: StyledChar| c@)
}

/// The character `c` in the color `color`.
pub open spec fn glyph_of(c: char, color: (u8, u8, u8)) -> Glyph {
    Glyph { ch: c, r: color.0, g: color.1, b: color.2 }
}

/// The characters of `text`, each in the foreground color `color`.
pub open spec fn span_glyphs(text: Seq<char>, color: (u8, u8, u8)) -> Seq<Glyph> {
    text.map_values(|c: char| glyph_of(c, color))
}

/// The characters of the first `n` spans of a line, each in the foreground
/// color of its span.
pub open spec fn line_glyphs(spans: Seq<StyledSpan>, n: int) -> Seq<Glyph>
    decreases n,
{
    if n <= 0 {
        Seq::empty()
    } else {
        line_glyphs(spans, n - 1) + span_glyphs(spans[n - 1].text@, spans[n - 1].style.foreground)
    }
}

/// The glyphs of a vector with one more character.
proof fn lemma_glyphs_push(v: Seq<StyledChar>, x: StyledChar)
    ensures
        glyphs(v.push(x)) == glyphs(v).push(x@),
{
    assert(glyphs(v.push(x)) =~= glyphs(v).push(x@));
}

/// The glyphs of a span with one more character.
proof fn lemma_span_glyphs_next(text: Seq<char>, i: int, color: (u8, u8, u8))
    requires
        0 <= i < text.len(),
    ensures
        span_glyphs(text.take(i + 1), color) == span_glyphs(text.take(i), color).push(
            glyph_of(text[i], color),
        ),
{
    assert(span_glyphs(text.take(i + 1), color) =~= span_glyphs(text.take(i), color).push(
        glyph_of(text[i], color),
    ));
}

/// Flattens a styled line into its characters, each with the foreground
/// color of the span that holds it.
pub fn styled_chars(line: &StyledLine) -> (r: Vec<StyledChar>)
    ensures
        glyphs(r@) == line_glyphs(line.spans@, line.spans@.len() as int),
{
    let mut out: Vec<StyledChar> = Vec::new();
    let mut k: usize = 0;
    assert(glyphs(out@) =~= Seq::<Glyph>::empty());
    while k < line.spans.len()
        invariant
            k <= line.spans.len(),
            glyphs(out@) == line_glyphs(line.spans@, k as int),
        decreases line.spans.len() - k,
    {
        let span = &line.spans[k];
        let text = to_chars(span.text.as_str());
        let ghost before = glyphs(out@);
        let mut i: usize = 0;
        proof {
            assert(before + span_glyphs(text@.take(0), span.style.foreground) =~= before);
        }
        while i < text.len()
            invariant
                i <= text.len(),
                text@ == span.text@,
                glyphs(out@) == before + span_glyphs(text@.take(i as int), span.style.foreground),
            decreases text.len() - i,
        {
            let ghost prev = out@;
            let styled = StyledChar {
                char: text[i],
                color: CharColor {
                    r: span.style.foreground.0,
                    g: span.style.foreground.1,
                    b: span.style.foreground.2,
                },
            };
            let ghost glyph = styled@;
            out.push(styled);
            proof {
                assert(out@ == prev.push(styled));
                assert(glyph == glyph_of(text@[i as int], span.style.foreground));
                lemma_glyphs_push(prev, styled);
                lemma_span_glyphs_next(text@, i as int, span.style.foreground);
                let done = span_glyphs(text@.take(i as int), span.style.foreground);
                assert((before + done).push(glyph) == before + done.push(glyph));
            }
            i = i + 1;
        }
        proof {
            assert(text@.take(text@.len() as int) == text@);
        }
        k = k + 1;
    }
    out
}

} // verus!
