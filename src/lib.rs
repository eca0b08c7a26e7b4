//! Content-addressed ingestion, deduplicated per-task datasets, exports and
//! storage reclamation for processed documents.
//!
//! Everything here works on in-memory values: the file index, the units of
//! work and the dataset rows are handed in by the caller, which owns the
//! database and the disk.
pub mod text;
pub mod status;
pub mod naming;
pub mod hashing;
pub mod index;
pub mod listing;
pub mod dataset;
pub mod table;
pub mod reclaim;
pub mod export;
