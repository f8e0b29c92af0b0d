//! Deterministic emoji for hashable values.
//!
//! The library has three parts. `source` reads emoji metadata text into a
//! classified `Collection`, and `policy` narrows it to the ordered glyphs that a
//! `SelectionPolicy` keeps. `select` maps the bytes of a value, through a fixed
//! seed 64-bit xxHash, onto glyphs of a non-empty `Catalog`.
pub mod text;
pub mod source;
pub mod policy;
pub mod select;

pub use policy::{filter, filterable, PolicyError, SelectionPolicy};
pub use select::{fixed, iter, length_in, one, variable, Catalog, SelectError};
pub use source::{identifier_of_lowered, to_feature_name, Collection, Emoji, SourceError};

