//! Crash-safe relocation of old files into per-owner quarantine buckets.
//!
//! The library holds the verified core: the path codec that renders
//! arbitrary byte paths as shell-safe text, the age-selection predicate,
//! the per-owner sequence bookkeeping that maps each relocated file to a
//! unique destination, and the export of the provenance records. The
//! surrounding binary performs the filesystem traversal and the moves.

pub mod age;
pub mod clock;
pub mod codec;
pub mod engine;
pub mod errors;
pub mod exclude;
pub mod jsonout;
pub mod ledger;
pub mod num;
pub mod seqno;
pub mod store;
pub mod text;

pub use codec::escape_bytes;
pub use codec::escape_path;
