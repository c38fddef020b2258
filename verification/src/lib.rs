//! An index of the files that a directory tree offers under a glob pattern,
//! and the lookup that maps an untrusted request path to an indexed file.
//!
//! The base directory is kept in its canonical form. The tree is read once:
//! [`scan::survey`] expands the pattern level by level and lists what it
//! matched, and [`index::FileServer::absorb`] keeps the canonical paths of the
//! regular files among the matches, those that lie below the base directory
//! and no others. [`path::pattern_in`] says how the pattern is set into a
//! directory, and [`path::confined`] which patterns are expanded at all. A
//! request is answered by canonicalizing the requested path and looking the
//! result up as it stands; a path outside the base directory is never found.

pub mod path;
pub mod scan;
pub mod index;
pub mod laws;
