//! The output formats that a rendering can have.

use vstd::prelude::*;
use crate::text::{equals_str, to_chars};

verus! {

/// Output format for the rendered code.
#[derive(Copy, Clone, Debug, PartialEq, Eq, Structural)]
pub enum OutputFormat {
    /// PNG image format.
    Png,
    /// SVG vector format.
    Svg,
    /// Animated GIF format.
    Gif,
    /// Animated WebP format.
    Webp,
    /// Live animated window.
    Wgpu,
}

impl Default for OutputFormat {
    fn default() -> (r: Self)
        ensures
            r == OutputFormat::Png,
    {
        OutputFormat::Png
    }
}

/// The format that a file extension asks for: SVG, GIF and WebP by their
/// usual spellings, PNG for every other extension and for none.
pub open spec fn format_of_extension(ext: Option<Seq<char>>) -> OutputFormat {
    match ext {
        Some(e) => if e == "svg"@ || e == "SVG"@ {
            OutputFormat::Svg
        } else if e == "gif"@ || e == "GIF"@ {
            OutputFormat::Gif
        } else if e == "webp"@ || e == "WEBP"@ || e == "WebP"@ {
            OutputFormat::Webp
        } else {
            OutputFormat::Png
        },
        None => OutputFormat::Png,
    }
}

/// The format in which an output is written, from what the command line
/// says: a live preview wins over everything; else the format that was
/// named, or the one of the output file's extension; an animation that is
/// neither WebP nor live becomes a GIF; a sticker is always WebP.
pub open spec fn chosen_format(
    live: bool,
    named: Option<OutputFormat>,
    ext: Option<Seq<char>>,
    animate: bool,
    telegram: bool,
) -> OutputFormat {
    let first = if live {
        OutputFormat::Wgpu
    } else {
        match named {
            Some(f) => f,
            None => format_of_extension(ext),
        }
    };
    let second = if animate && first != OutputFormat::Webp && first != OutputFormat::Wgpu {
        OutputFormat::Gif
    } else {
        first
    };
    if telegram {
        OutputFormat::Webp
    } else {
        second
    }
}

/// The side of a sticker, which is a square.
pub const STICKER_SIDE: u32 = 512;

/// The size of the output: that of a sticker where one is asked for, else
/// the size that was named.
pub open spec fn chosen_size(telegram: bool, width: u32, height: u32) -> (u32, u32) {
    if telegram {
        (STICKER_SIDE, STICKER_SIDE)
    } else {
        (width, height)
    }
}

/// Chooses the size of the output.
pub fn output_size(telegram: bool, width: u32, height: u32) -> (r: (u32, u32))
    ensures
        r == chosen_size(telegram, width, height),
{
    if telegram {
        (STICKER_SIDE, STICKER_SIDE)
    } else {
        (width, height)
    }
}

/// Whether the output is animated: where an animation is asked for, and
/// always for a sticker.
pub fn animated(animate: bool, telegram: bool) -> (r: bool)
    ensures
        r == (animate || telegram),
{
    animate || telegram
}

impl OutputFormat {
    /// The lower-case name of the format.
    pub open spec fn spec_name(self) -> Seq<char> {
        match self {
            OutputFormat::Png => "png"@,
            OutputFormat::Svg => "svg"@,
            OutputFormat::Gif => "gif"@,
            OutputFormat::Webp => "webp"@,
            OutputFormat::Wgpu => "wgpu"@,
        }
    }

    /// The lower-case name of the format.
    pub fn name(&self) -> (r: &'static str)
        ensures
            r@ == self.spec_name(),
    {
        match self {
            OutputFormat::Png => "png",
            OutputFormat::Svg => "svg",
            OutputFormat::Gif => "gif",
            OutputFormat::Webp => "webp",
            OutputFormat::Wgpu => "wgpu",
        }
    }

    /// The format that the extension of an output file asks for.
    pub fn determine_format_from_extension(ext: Option<&str>) -> (r: OutputFormat)
        ensures
            r == format_of_extension(
                match ext {
                    Some(e) => Some(e@),
                    None => None,
                },
            ),
    {
        match ext {
            Some(e) => {
                let t = to_chars(e);
                let t = t.as_slice();
                if equals_str(t, "svg") || equals_str(t, "SVG") {
                    OutputFormat::Svg
                } else if equals_str(t, "gif") || equals_str(t, "GIF") {
                    OutputFormat::Gif
                } else if equals_str(t, "webp") || equals_str(t, "WEBP") || equals_str(t, "WebP") {
                    OutputFormat::Webp
                } else {
                    OutputFormat::Png
                }
            },
            None => OutputFormat::Png,
        }
    }

    /// Chooses the format of an output from what the command line says.
    pub fn resolve(
        live: bool,
        named: Option<OutputFormat>,
        ext: Option<&str>,
        animate: bool,
        telegram: bool,
    ) -> (r: OutputFormat)
        ensures
            r == chosen_format(
                live,
                named,
                match ext {
                    Some(e) => Some(e@),
                    None => None,
                },
                animate,
                telegram,
            ),
    {
        let first = if live {
            OutputFormat::Wgpu
        } else {
            match named {
                Some(f) => f,
                None => Self::determine_format_from_extension(ext),
            }
        };
        let second = if animate && !matches!(first, OutputFormat::Webp) && !matches!(
            first,
            OutputFormat::Wgpu
        ) {
            OutputFormat::Gif
        } else {
            first
        };
        if telegram {
            OutputFormat::Webp
        } else {
            second
        }
    }
}

} // verus!
