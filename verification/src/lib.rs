//! Core of a scan-classify-assemble pipeline over filesystem snapshots.
//!
//! The library works on plain in-memory values: a snapshot of the scanned
//! part of the filesystem (`fs_model`), a classifier that decides which
//! entries are eligible text files (`classify`), tree builders for the
//! persisted eager tree and the interactive shallow view (`tree`), the
//! concatenated-document assembler (`assemble`), the session
//! orchestration with its progress protocol and metadata (`session`),
//! the layout of a session's artifacts (`paths`), and the error type of
//! the command boundary (`error`). Reading directories, sampling file
//! contents and writing the artifacts to disk are left to the
//! surrounding program, which hands the library plain values and takes
//! plain values back.
use vstd::prelude::*;

pub mod assemble;
pub mod classify;
pub mod error;
pub mod fs_model;
pub mod paths;
pub mod session;
pub mod strutil;
pub mod tree;

verus! {

} // verus!
