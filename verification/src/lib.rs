//! A structural editor for Scheme S-expressions: the reader, the tree
//! model and the editing engine.

pub mod text;
pub mod reader;
pub mod node;
pub mod pattern;
pub mod app;
