//! Bidirectional structural mapping between a filesystem directory tree and a
//! tree-structured document value.
//!
//! The library works on plain in-memory models: [`fs_model::FsTree`] stands for
//! the shape of a directory tree (names and nesting only), and
//! [`value::TreeValue`] is the generic document value (scalar / sequence /
//! mapping). The capture engine turns a probed tree into a document value; the
//! materialization engine turns a document value into the creation of a tree.
//! All file and process I/O lives outside the library and exchanges these
//! plain values with it.

pub mod error;
pub mod fs_model;
pub mod value;
pub mod capture;
pub mod materialize;
pub mod laws;
