//! The types of a localization file ([`LocList`], [`Loc`], [`Entry`])
//! under one path, for convenience.

pub use super::{Entry, Loc, LocList};
