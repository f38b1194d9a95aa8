mod ascii;
pub mod case;
pub mod context;
pub mod convert;
pub mod error;
pub mod finder;
pub mod help;
pub mod meta;
pub mod parse;
pub mod render;
pub mod spell;
mod strings;
pub mod style;
pub mod utility;

pub use crate::case::Case;
pub use crate::meta::Options;
pub use crate::utility::short_type_name;
