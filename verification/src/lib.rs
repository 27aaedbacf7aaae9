//! The command engine of a source-control server.
//!
//! A client speaks the wire protocol of a version-control system; the
//! server answers from a repository of content-addressed blobs. This
//! library holds what the server decides and computes on the way: which
//! capabilities it advertises, which ancestors `between` names, which trees
//! a tree-fetch sends, which parts a bundle has, and in which order file
//! contents go out. It reads no repository and writes to no socket: it is
//! told what the repository holds and says what is to be sent.
//!
//! The commands:
//! - `hello`: [`caps`]
//! - `heads`, `known`: [`queries`]
//! - `lookup`: [`lookup`]
//! - `between`: [`ancestors`]
//! - `getbundle`, `listkeys`: [`bundle`]
//! - `gettreepack`: [`treepack`] and [`treefetch`], over [`manifest`],
//!   [`pruner`], [`treewalk`] and [`stepwalk`]
//! - `getfiles`: [`getfiles`]
//!
//! Around them: what is recorded of each call ([`telemetry`], with
//! [`sorting`]), hashes ([`hash`]), response buffers ([`buffer`]), failures
//! ([`errors`]), and
//! what the tools around the server compute ([`admin`], [`app_args`],
//! [`blobimport`], [`filenodes`], [`generation`], [`hooks`], [`paths`],
//! [`streaming`]).

pub mod admin;
pub mod ancestors;
pub mod app_args;
pub mod blobimport;
pub mod buffer;
pub mod bundle;
pub mod caps;
pub mod errors;
pub mod filenodes;
pub mod generation;
pub mod getfiles;
pub mod hash;
pub mod hooks;
pub mod lookup;
pub mod manifest;
pub mod paths;
pub mod pruner;
pub mod queries;
pub mod sorting;
pub mod stepwalk;
pub mod streaming;
pub mod telemetry;
pub mod treefetch;
pub mod treepack;
pub mod treewalk;
