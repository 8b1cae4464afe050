//! The types of a script ([`Key`], [`Unit`], [`Units`], [`Value`],
//! [`Entry`]) under one path, for convenience.

pub use super::{Entry, Key, Unit, Units, Value};
