//! Shader preprocessing and pipeline planning for a renderer that draws
//! source code with GPU compute shaders, with the plain data types of the
//! renderer's configuration.

pub mod cli;
pub mod comments;
pub mod compile;
pub mod config;
pub mod defines;
pub mod error;
pub mod highlight;
pub mod layout;
pub mod literal;
pub mod nerdfont;
pub mod number;
pub mod pp;
pub mod pp_lemmas;
pub mod readback;
pub mod shader_data;
pub mod source_map;
pub mod split;
pub mod text;
pub mod toyrs;
pub mod user_data;

pub use cli::OutputFormat;
pub use comments::strip_comments;
pub use compile::{CompilePlan, EntryPoint, WgpuToyRenderer};
pub use config::GradientColors;
pub use defines::DefinitionTable;
pub use error::{CodeSkewError, WGSLError};
pub use highlight::{SpanStyle, StyledLine, StyledSpan};
pub use layout::{CharColor, StyledChar};
pub use nerdfont::{FontLoadError, NerdFont};
pub use pp::{Preprocessor, Step, Suspended};
pub use shader_data::ShaderTextData;
pub use source_map::SourceMap;
pub use user_data::UserData;
