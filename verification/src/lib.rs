//! Verified core of a dependency-directory inspector.
//!
//! The library models a package directory as an in-memory tree of files and
//! directories, computes per-package disk usage, file counts and a
//! file-extension histogram, extracts manifest metadata, sorts the resulting
//! records, and drives the keyboard navigation state machine of the
//! interactive table view. All of that logic is verified; reading the real
//! filesystem and painting the terminal live outside the library.

pub mod filetype;
pub mod fstree;
pub mod manifest;
pub mod nav;
pub mod scan;
pub mod textfmt;
