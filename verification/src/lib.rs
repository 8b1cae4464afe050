//! Parsers and writers for the two text formats of paradox mods: scripts
//! and localization files.
//!
//! - [`script`]: a script is read into a tree of units by
//!   [`parse_script`], and written back by [`script::Units::render`].
//! - [`localization`]: a localization file is read into a language and a
//!   list of entries by [`parse_localization`], and written back by
//!   [`localization::LocList::render`].
//!
//! Both pairs round-trip: what is written for a well-formed value is read
//! back as that value.

pub mod localization;
pub mod result;
pub mod script;
pub mod text;

pub use localization::parse_localization;
pub use result::Error;
pub use script::{parse_script, parse_script_with_depth};
