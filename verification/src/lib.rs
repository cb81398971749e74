//! Building Alfred script-filter items and rendering them as Alfred's XML
//! feedback format.
//!
//! `item` holds the data model of an `<item>`, `builder` the fluent
//! builder for it, `escape` the entity encoding of text, `xml` the rendering
//! of items and whole documents, and `writer` the error discipline of a
//! writer that streams items to an output that may fail.

pub mod escape;
pub mod item;
pub mod builder;
pub mod xml;
pub mod writer;
