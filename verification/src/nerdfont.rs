//! The font families that can be fetched, and where a system keeps a
//! monospace font.

use vstd::prelude::*;
use crate::text::{equals_str, to_chars};

verus! {

/// Supported Nerd Font families.
#[derive(Debug, Clone, Copy, PartialEq, Eq, Structural)]
pub enum NerdFont {
    Iosevka,
    FiraCodeNerdFontMono,
    JetBrainsMono,
    CascaydiaCove,
    Hack,
}

/// `std::path::PathBuf`, as an opaque type.
#[verifier::external_type_specification]
#[verifier::external_body]
pub struct ExPathBuf(std::path::PathBuf);

/// Errors that may occur while loading fonts.
#[derive(Debug)]
pub enum FontLoadError {
    /// An override from the environment is not valid UTF-8.
    InvalidUtf8(&'static str),
    /// A font file could not be read.
    Io(std::path::PathBuf, std::io::Error),
}

/// The family that a name asks for; a name that is not known asks for
/// `FiraCodeNerdFontMono`.
pub open spec fn font_of_name(name: Seq<char>) -> NerdFont {
    if name == "Iosevka"@ {
        NerdFont::Iosevka
    } else if name == "FiraCode"@ || name == "FiraCode Nerd Font Mono"@ {
        NerdFont::FiraCodeNerdFontMono
    } else if name == "JetBrains"@ || name == "JetBrainsMono"@ {
        NerdFont::JetBrainsMono
    } else if name == "Cascadia"@ || name == "CascaydiaCove"@ {
        NerdFont::CascaydiaCove
    } else if name == "SF"@ || name == "Hack"@ {
        NerdFont::Hack
    } else {
        NerdFont::FiraCodeNerdFontMono
    }
}

impl NerdFont {
    /// The name under which the family is published.
    pub open spec fn spec_github_name(self) -> Seq<char> {
        match self {
            NerdFont::Iosevka => "Iosevka"@,
            NerdFont::FiraCodeNerdFontMono => "FiraCode"@,
            NerdFont::JetBrainsMono => "JetBrainsMono"@,
            NerdFont::CascaydiaCove => "CascaydiaCove"@,
            NerdFont::Hack => "Hack"@,
        }
    }

    /// Get the GitHub download name for this font.
    pub fn github_name(&self) -> (r: &'static str)
        ensures
            r@ == self.spec_github_name(),
    {
        match self {
            Self::Iosevka => "Iosevka",
            Self::FiraCodeNerdFontMono => "FiraCode",
            Self::JetBrainsMono => "JetBrainsMono",
            Self::CascaydiaCove => "CascaydiaCove",
            Self::Hack => "Hack",
        }
    }

    /// The family that `name` asks for.
    pub fn from_name(name: &str) -> (r: Self)
        ensures
            r == font_of_name(name@),
    {
        let t = to_chars(name);
        let t = t.as_slice();
        if equals_str(t, "Iosevka") {
            Self::Iosevka
        } else if equals_str(t, "FiraCode") || equals_str(t, "FiraCode Nerd Font Mono") {
            Self::FiraCodeNerdFontMono
        } else if equals_str(t, "JetBrains") || equals_str(t, "JetBrainsMono") {
            Self::JetBrainsMono
        } else if equals_str(t, "Cascadia") || equals_str(t, "CascaydiaCove") {
            Self::CascaydiaCove
        } else if equals_str(t, "SF") || equals_str(t, "Hack") {
            Self::Hack
        } else {
            Self::FiraCodeNerdFontMono
        }
    }
}

impl From<&str> for NerdFont {
    fn from(name: &str) -> (r: Self) {
        Self::from_name(name)
    }
}

impl vstd::std_specs::convert::FromSpecImpl<&str> for NerdFont {
    open spec fn obeys_from_spec() -> bool {
        true
    }

    open spec fn from_spec(name: &str) -> Self {
        font_of_name(name@)
    }
}

/// The systems that are known to keep a monospace font at a fixed place.
#[derive(Debug, Clone, Copy, PartialEq, Eq, Structural)]
pub enum Platform {
    MacOs,
    Windows,
    Linux,
    Other,
}

/// The two places where `platform` keeps a monospace font, the preferred
/// one first; none on a system that is not known.
pub open spec fn monospace_candidates(platform: Platform) -> Seq<Seq<char>> {
    match platform {
        Platform::MacOs => seq![
            "/System/Library/Fonts/Monaco.ttf"@,
            "/System/Library/Fonts/Menlo.ttc"@,
        ],
        Platform::Windows => seq!["C:/Windows/Fonts/consola.ttf"@, "C:/Windows/Fonts/lucon.ttf"@],
        Platform::Linux => seq![
            "/usr/share/fonts/truetype/dejavu/DejaVuSansMono.ttf"@,
            "/usr/share/fonts/TTF/DejaVuSansMono.ttf"@,
        ],
        Platform::Other => seq![],
    }
}

/// The first candidate that is present, if any.
pub open spec fn first_present(
    candidates: Seq<Seq<char>>,
    first: bool,
    second: bool,
) -> Option<Seq<char>> {
    if candidates.len() >= 1 && first {
        Some(candidates[0])
    } else if candidates.len() >= 2 && second {
        Some(candidates[1])
    } else {
        None
    }
}

/// The places where `platform` keeps a monospace font, the preferred one
/// first.
pub fn system_monospace_candidates(platform: Platform) -> (r: Vec<&'static str>)
    ensures
        r@.len() == monospace_candidates(platform).len(),
        forall|i: int| 0 <= i < r@.len() ==> (#[trigger] r@[i])@ == monospace_candidates(platform)[i],
{
    let mut out: Vec<&'static str> = Vec::new();
    match platform {
        Platform::MacOs => {
            out.push("/System/Library/Fonts/Monaco.ttf");
            out.push("/System/Library/Fonts/Menlo.ttc");
        },
        Platform::Windows => {
            out.push("C:/Windows/Fonts/consola.ttf");
            out.push("C:/Windows/Fonts/lucon.ttf");
        },
        Platform::Linux => {
            out.push("/usr/share/fonts/truetype/dejavu/DejaVuSansMono.ttf");
            out.push("/usr/share/fonts/TTF/DejaVuSansMono.ttf");
        },
        Platform::Other => {},
    }
    out
}

/// The monospace font of the system: the first of the platform's two
/// candidates that is present, where `first_present` and `second_present`
/// say which of them are.
pub fn suggest_system_monospace(platform: Platform, first: bool, second: bool) -> (r: Option<
    &'static str,
>)
    ensures
        match r {
            Some(p) => first_present(monospace_candidates(platform), first, second) == Some(p@),
            None => first_present(monospace_candidates(platform), first, second) is None,
        },
{
    let candidates = system_monospace_candidates(platform);
    if candidates.len() >= 1 && first {
        Some(candidates[0])
    } else if candidates.len() >= 2 && second {
        Some(candidates[1])
    } else {
        None
    }
}

} // verus!
