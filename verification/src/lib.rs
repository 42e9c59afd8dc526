//! Core of a resumable, chunk-parallel file-upload service.
//!
//! A client registers a file (name, total byte count, expected MD5 digest);
//! the engine partitions the file into fixed-size byte ranges, tracks
//! per-range progress, accepts independent streams for each range, and, once
//! every range is complete, assembles the ranges, verifies the whole-file
//! digest and publishes the result.

use vstd::prelude::*;

pub mod assembler;
pub mod digest;
pub mod engine;
pub mod errors;
pub mod fsmodel;
pub mod laws;
pub mod naming;
pub mod parse;
pub mod planner;
pub mod reporter;
pub mod response;
pub mod schema;
pub mod store;
pub mod strutil;
pub mod writer;

verus! {

/// Upper bound for byte counts and timestamps held in signed store columns.
pub const MAX_STORE_INT: u64 = 0x7fff_ffff_ffff_ffff;

/// Chunk length used when the store holds no valid `chunk_size` entry.
pub const DEFAULT_CHUNK_SIZE: u64 = 1048576;

} // verus!
