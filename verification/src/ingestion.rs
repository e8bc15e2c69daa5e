//! Attestation bundles and the cross-checks that admit them.
//!
//! A bundle carries three independently supplied claims about the baseline
//! Merkle root and two about the capsule digest. It is accepted only when its
//! schema is the pinned one and the claims agree; the accepted root becomes
//! the context's `psp`. Nothing is recomputed here.

use vstd::prelude::*;
use vstd::string::*;
use vstd::utf8::*;

verus! {

/// `serde_json::Value`: any JSON document. Carried through unread.
#[verifier::external_type_specification]
#[verifier::external_body]
pub struct ExJsonValue(serde_json::Value);

/// The kernel's statement about a capsule run.
#[derive(Debug)]
pub struct KernelTokenV1 {
    pub schema_version: String,
    pub world_id: String,
    pub capsule_digest: String,
    pub merkle_root: String,
    pub tick_count: u64,
}

/// The invariants attested for a capsule run. `invariants` and `attestation`
/// are opaque payloads.
#[derive(Debug)]
pub struct InvariantSetV1 {
    pub schema_version: String,
    pub world_id: String,
    pub capsule_digest: String,
    pub merkle_root: String,
    pub tick_count: u64,
    pub invariants: serde_json::Value,
    pub attestation: serde_json::Value,
}

/// A pointer to a stored capsule. Never dereferenced here.
#[derive(Debug)]
pub struct CapsuleRef {
    pub kind: String,
    pub uri: String,
}

/// An attestation bundle as received, before any check.
#[derive(Debug)]
pub struct CieV2PlugV1 {
    pub schema_version: String,
    pub world_id: String,
    pub capsule_digest: String,
    pub engine_hash: String,
    pub baseline_merkle_root: String,
    pub kernel_token: KernelTokenV1,
    pub invariant_set: InvariantSetV1,
    pub extractor_version: String,
    pub capsule_ref: Option<CapsuleRef>,
}

/// What an accepted bundle hands to the agent. `psp` is the validated
/// baseline Merkle root.
#[derive(Debug)]
pub struct AgentContext {
    pub world_id: String,
    pub capsule_digest: String,
    pub engine_hash: String,
    pub psp: String,
    pub kernel_token: KernelTokenV1,
    pub invariants: InvariantSetV1,
    pub capsule_ref: Option<CapsuleRef>,
}

/// Which pair of claims disagreed.
#[derive(Clone, Copy, Debug, PartialEq, Eq, Structural)]
pub enum IntegrityMismatch {
    /// `kernel_token.capsule_digest` differs from `capsule_digest`.
    CapsuleDigest,
    /// `kernel_token.merkle_root` differs from `baseline_merkle_root`.
    KernelTokenRoot,
    /// `invariant_set.merkle_root` differs from `baseline_merkle_root`.
    InvariantSetRoot,
}

/// Why a bundle was rejected.
#[derive(Clone, Copy, Debug, PartialEq, Eq, Structural)]
pub enum IngestError {
    /// `schema_version` is not the pinned literal.
    SchemaMismatch,
    /// Two claims that must agree do not.
    IntegrityMismatch(IntegrityMismatch),
}

/// The only schema version that is accepted.
pub open spec fn pinned_schema() -> Seq<char> {
    "cie_v2_plug.v1"@
}

/// The first check a bundle fails, in the order schema, capsule digest,
/// kernel-token root, invariant-set root; `None` for a bundle that passes.
pub open spec fn plug_defect(plug: CieV2PlugV1) -> Option<IngestError> {
    if plug.schema_version@ != pinned_schema() {
        Some(IngestError::SchemaMismatch)
    } else if plug.kernel_token.capsule_digest@ != plug.capsule_digest@ {
        Some(IngestError::IntegrityMismatch(IntegrityMismatch::CapsuleDigest))
    } else if plug.kernel_token.merkle_root@ != plug.baseline_merkle_root@ {
        Some(IngestError::IntegrityMismatch(IntegrityMismatch::KernelTokenRoot))
    } else if plug.invariant_set.merkle_root@ != plug.baseline_merkle_root@ {
        Some(IngestError::IntegrityMismatch(IntegrityMismatch::InvariantSetRoot))
    } else {
        None
    }
}

/// The context built from a bundle: its fields moved over unchanged, with the
/// baseline root as `psp`.
pub open spec fn context_of(plug: CieV2PlugV1) -> AgentContext {
    AgentContext {
        world_id: plug.world_id,
        capsule_digest: plug.capsule_digest,
        engine_hash: plug.engine_hash,
        psp: plug.baseline_merkle_root,
        kernel_token: plug.kernel_token,
        invariants: plug.invariant_set,
        capsule_ref: plug.capsule_ref,
    }
}

/// A bundle with any other schema version is rejected for its schema,
/// whatever its digests say.
pub proof fn lemma_schema_is_pinned(plug: CieV2PlugV1)
    requires
        plug.schema_version@ != pinned_schema(),
    ensures
        plug_defect(plug) == Some(IngestError::SchemaMismatch),
{
}

/// A bundle of the pinned schema whose kernel token names another capsule is
/// rejected for that, whether or not its roots agree.
pub proof fn lemma_capsule_digest_checked_first(plug: CieV2PlugV1)
    requires
        plug.schema_version@ == pinned_schema(),
        plug.kernel_token.capsule_digest@ != plug.capsule_digest@,
    ensures
        plug_defect(plug) == Some(IngestError::IntegrityMismatch(IntegrityMismatch::CapsuleDigest)),
{
}

/// In an accepted bundle both inner roots equal the baseline root, and so
/// each other.
pub proof fn lemma_accepted_roots_agree(plug: CieV2PlugV1)
    requires
        plug_defect(plug) is None,
    ensures
        plug.schema_version@ == pinned_schema(),
        plug.kernel_token.capsule_digest@ == plug.capsule_digest@,
        plug.kernel_token.merkle_root@ == context_of(plug).psp@,
        plug.invariant_set.merkle_root@ == context_of(plug).psp@,
        plug.kernel_token.merkle_root@ == plug.invariant_set.merkle_root@,
{
}

/// Whether two texts are the same, character by character.
fn same_text(a: &str, b: &str) -> (same: bool)
    ensures
        same == (a@ == b@),
{
    let x = a.as_bytes();
    let y = b.as_bytes();
    proof {
        encode_utf8_decode_utf8(a@);
        encode_utf8_decode_utf8(b@);
    }
    if x.len() != y.len() {
        return false;
    }
    let mut i: usize = 0;
    while i < x.len()
        invariant
            i <= x@.len(),
            x@.len() == y@.len(),
            x@ == encode_utf8(a@),
            y@ == encode_utf8(b@),
            forall|k: int| 0 <= k < i ==> x@[k] == y@[k],
        decreases x@.len() - i,
    {
        if x[i] != y[i] {
            return false;
        }
        i += 1;
    }
    proof {
        assert(x@ =~= y@);
    }
    true
}

impl IngestError {
    /// The rejection in words.
    pub fn message(&self) -> (text: String)
        ensures
            text@ == match *self {
                IngestError::SchemaMismatch => "unsupported schema_version"@,
                IngestError::IntegrityMismatch(IntegrityMismatch::CapsuleDigest) =>
                    "kernel_token.capsule_digest mismatch"@,
                IngestError::IntegrityMismatch(IntegrityMismatch::KernelTokenRoot) =>
                    "kernel_token.merkle_root != baseline_merkle_root"@,
                IngestError::IntegrityMismatch(IntegrityMismatch::InvariantSetRoot) =>
                    "invariant_set.merkle_root != baseline_merkle_root"@,
            },
    {
        match self {
            IngestError::SchemaMismatch => String::from_str("unsupported schema_version"),
            IngestError::IntegrityMismatch(IntegrityMismatch::CapsuleDigest) => String::from_str(
                "kernel_token.capsule_digest mismatch",
            ),
            IngestError::IntegrityMismatch(IntegrityMismatch::KernelTokenRoot) => String::from_str(
                "kernel_token.merkle_root != baseline_merkle_root",
            ),
            IngestError::IntegrityMismatch(IntegrityMismatch::InvariantSetRoot) => String::from_str(
                "invariant_set.merkle_root != baseline_merkle_root",
            ),
        }
    }
}

/// Validates a bundle and, if it passes, turns it into a trusted context.
///
/// The checks run in a fixed order and stop at the first failure: schema
/// version, capsule digest, kernel-token root, invariant-set root. On success
/// every field is moved into the context unchanged and the baseline root
/// becomes `psp`. A rejected bundle is dropped.
pub fn ingest_plug(plug: CieV2PlugV1) -> (res: Result<AgentContext, IngestError>)
    ensures
        match res {
            Ok(ctx) => plug_defect(plug) is None && ctx == context_of(plug),
            Err(e) => plug_defect(plug) == Some(e),
        },
{
    if !same_text(plug.schema_version.as_str(), "cie_v2_plug.v1") {
        return Err(IngestError::SchemaMismatch);
    }
    if plug.kernel_token.capsule_digest != plug.capsule_digest {
        return Err(IngestError::IntegrityMismatch(IntegrityMismatch::CapsuleDigest));
    }
    if plug.kernel_token.merkle_root != plug.baseline_merkle_root {
        return Err(IngestError::IntegrityMismatch(IntegrityMismatch::KernelTokenRoot));
    }
    if plug.invariant_set.merkle_root != plug.baseline_merkle_root {
        return Err(IngestError::IntegrityMismatch(IntegrityMismatch::InvariantSetRoot));
    }
    Ok(
        AgentContext {
            world_id: plug.world_id,
            capsule_digest: plug.capsule_digest,
            engine_hash: plug.engine_hash,
            psp: plug.baseline_merkle_root,
            kernel_token: plug.kernel_token,
            invariants: plug.invariant_set,
            capsule_ref: plug.capsule_ref,
        },
    )
}

} // verus!
