//! Re-partitioning of a chunked array along its leading dimension.
//!
//! An array is stored as a descriptor (shape, chunk geometry and a few
//! attributes that are carried along untouched) plus a set of chunk payloads.
//! The payloads, concatenated, form one buffer of `shape[0] * chunks[1]`
//! row-stride units. Rechunking cuts that buffer again, every
//! `rows * chunks[1]` units, and records the new leading chunk size in the
//! descriptor. Nothing here touches the file system: callers hand in texts
//! and byte vectors and get texts and byte vectors back.

pub mod assemble;
pub mod descriptor;
pub mod engine;
pub mod error;
pub mod geometry;
pub mod json;
pub mod partition;
pub mod store;
