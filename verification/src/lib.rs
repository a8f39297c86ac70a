//! Resolve a source-code identifier, given as a `file:line:column`
//! coordinate, to the set of places where it is referenced.
//!
//! The crate owns the lexical front end — scanning a line for word runs,
//! locating the run under a requested column, decoding the coordinate
//! argument, and rendering reference spans back into 1-indexed text —
//! and drives the external analysis store through a thin trusted layer.

pub mod lines;
pub mod locator;
pub mod query;
pub mod render;
pub mod scanner;
pub mod store;
