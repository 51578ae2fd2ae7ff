//! Git tooling logic with verified contracts: drafting changelogs from
//! tags, rewriting commit messages and timestamps at the object layer,
//! linting messages and ranking the blobs of an object database.
//!
//! Repository access, processes, files and network calls are left to the
//! caller; the functions here take and return plain values.

pub mod text;
pub mod json;
pub mod wrappers;
pub mod oid;
pub mod identity;
pub mod calendar;
pub mod gitmoji;
pub mod author;
pub mod git_cmd;
pub mod render;
pub mod map;
pub mod rewrite;
pub mod retime;
pub mod lint;
pub mod report;
pub mod template;
pub mod blob;
pub mod blob_order;
