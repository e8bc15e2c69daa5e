//! Provenance primitives for a verifiable-execution pipeline.
//!
//! * [`codec`] converts between tagged-hex digest strings and raw digests.
//! * [`merkle`] folds an ordered list of per-tick digests into one
//!   domain-separated Merkle root.
//! * [`ingestion`] cross-checks the digests claimed by an attestation bundle
//!   and turns an accepted bundle into a trusted agent context.

pub mod codec;
pub mod ingestion;
pub mod merkle;

pub use codec::{bytes_to_sha_tag, sha_tag_to_bytes};
pub use ingestion::{
    ingest_plug, AgentContext, CapsuleRef, CieV2PlugV1, IngestError, IntegrityMismatch,
    InvariantSetV1, KernelTokenV1,
};
pub use merkle::{psp_merkle_root_from_tick_hashes, swap_changes_root};
