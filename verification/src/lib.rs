//! A structured-text reference library: it parses a line-oriented scripture
//! corpus into an immutable book/chapter/verse table, resolves user-supplied
//! address expressions (chapter, verse, and range syntax) against it, and
//! renders word-wrapped, verse-tagged text.

pub mod address;
pub mod corpus;
pub mod document;
pub mod render;
pub mod text;
