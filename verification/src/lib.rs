//! Rules of a local-first media catalog: which files belong to it, how they are
//! indexed, searched, grouped into duplicates and cleaned up, and how answers of
//! the media sidecar are read.

pub mod answers;
pub mod batches;
pub mod caching;
pub mod candidates;
pub mod cleanup;
pub mod collections;
pub mod conditions;
pub mod discovery;
pub mod duplicates;
pub mod embeddings;
pub mod exact;
pub mod faces;
pub mod hashing;
pub mod ignored;
pub mod indexing;
pub mod intake;
pub mod json;
pub mod keeping;
pub mod likeness;
pub mod order;
pub mod paths;
pub mod photo;
pub mod planning;
pub mod pool;
pub mod progress;
pub mod rescan;
pub mod scan;
pub mod selection;
pub mod semantic;
pub mod sidecar;
pub mod sql;
pub mod sweep;
pub mod text;
pub mod tuning;
pub mod vectors;
pub mod visual;
pub mod walk;
