//! Marker-delimited configuration customization lifecycle.
//!
//! A live configuration file may carry, below a fixed sentinel line (the
//! customization marker), edits made by its owner.  This library holds the
//! verified logic of two cooperating components built around that sentinel:
//!
//! * the marker guard, which decides whether a target file may receive
//!   freshly generated base content (never when the file is already marked,
//!   unless forced) and builds the exact bytes such an install appends;
//! * the backup merge engine, which resolves a backed-up file to its live
//!   counterpart, extracts the customization block that follows the marker
//!   in the backup copy, and builds the decorated block that a restore
//!   appends onto the live file.
//!
//! All file text is modelled as byte sequences.  Every operation that grows
//! a file is append-only: the bytes already present are preserved exactly.
//! The surrounding binary performs the file reads, writes, prompts and
//! directory walks, and hands this library plain values.

pub mod bytes;
pub mod catalog;
pub mod colorize;
pub mod extract;
pub mod folders;
pub mod lines;
pub mod marker;
pub mod merge;
pub mod packages;
pub mod zshrc;
