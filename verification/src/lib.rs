//! Cologne phonetics: a digit-string encoding of how a German word sounds,
//! in the manner of Soundex but with rules fitted to German.
//!
//! The one entry point is [`calculate`], a pure function from text to a
//! string over `'0'`..`'8'` and `' '`.  Its behaviour is pinned down by the
//! specification functions in [`model`], and the properties the encoding
//! keeps are stated and proved in [`laws`].

pub mod encode;
pub mod laws;
pub mod model;

pub use encode::calculate;
