//! Version resolution and cascade cleanup for a media library: derives the
//! alternate-version keys (`-C` / `-UC`) of each video file name, decides
//! which variant is redundant against an immutable catalog snapshot, expands
//! each decision into the file's removal plan (the file plus its sidecar
//! metadata set), and walks each plan with per-file failure isolation and an
//! optional dry-run mode.

pub mod cache;
pub mod catalog;
pub mod executor;
pub mod media;
pub mod names;
pub mod resolve;
pub mod sidecar;
