//! Block-oriented data transfer: the rules of a `dd`-style copy, with proofs.
//!
//! A copy moves blocks of a fixed size from an input to an output, from
//! given offsets on, until a given number of blocks is reached or the input
//! ends. This crate holds everything about such a copy that is not input or
//! output itself:
//!
//! - [`size`] reads block sizes such as `512k` or `2G`;
//! - [`config`] validates the arguments of a job;
//! - [`engine`] is the copy as a state machine that a driver runs on files,
//!   and [`session`] is an engine together with the digest of what it wrote;
//! - [`shard`] cuts a job into ranges for several threads;
//! - [`digest`] folds what was written into a SHA-256 or BLAKE3 digest;
//! - [`result`] is what a job reports, and how the reports of shards merge;
//! - [`memory`], [`sharded`] and [`extent`] run jobs between endpoints in
//!   memory, and prove of them that one engine or many, in any order of
//!   writing, leave the same file;
//! - [`error`] is the failure taxonomy.

pub mod config;
pub mod digest;
pub mod engine;
pub mod error;
pub mod extent;
pub mod memory;
pub mod result;
pub mod session;
pub mod shard;
pub mod sharded;
pub mod size;
