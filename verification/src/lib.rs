//! Language-intelligence core for Typst markup: per-document syntax-tree
//! synchronization, editor-position/byte-offset translation, and
//! cursor-to-node path resolution, together with the text scanners behind
//! code actions and the plain data behind completions.
//!
//! The document store owns the authoritative text and version per open uri;
//! the tree cache derives a syntax tree from the current text, never mixing
//! versions; the position mapper converts between UTF-16 editor columns and
//! byte offsets; the resolver walks a tree to the node chain enclosing an
//! offset. The Typst parser is an external collaborator reached through a
//! small trusted boundary; everything built on what it returns is verified.

pub mod actions;
pub mod backend;
pub mod completion;
pub mod error;
pub mod mapper;
pub mod parser;
pub mod store;
pub mod tree;
