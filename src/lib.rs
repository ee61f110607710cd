//! Gathers the files of a directory tree that carry one extension into a
//! single text, and picks a destination path that never overwrites an
//! earlier result.

pub mod text;
pub mod collect;
pub mod path;
pub mod output;
