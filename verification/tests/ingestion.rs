use psp_core::ingestion::{
    ingest_plug, AgentContext, CapsuleRef, CieV2PlugV1, IngestError, IntegrityMismatch,
    InvariantSetV1, KernelTokenV1,
};
use psp_core::merkle::psp_merkle_root_from_tick_hashes;

const CAPSULE: &str = "sha256:aaaaaaaaaaaaaaaaaaaaaaaaaaaaaaaaaaaaaaaaaaaaaaaaaaaaaaaaaaaaaaaa";
const ROOT: &str = "sha256:ecff6d220045604c18e156e37127b13ed6b19c2f7d032d4f14a7e6bc957334dc";
const OTHER: &str = "sha256:5f9080daafaa63796c4b2388b954a6d507e2c61d1468fb643a4d5f7cdeae58e4";

fn payload(text: &str) -> serde_json::Value {
    serde_json::from_str(text).unwrap()
}

fn consistent_plug(root: &str) -> CieV2PlugV1 {
    CieV2PlugV1 {
        schema_version: String::from("cie_v2_plug.v1"),
        world_id: String::from("world-7"),
        capsule_digest: String::from(CAPSULE),
        engine_hash: String::from("engine-abc"),
        baseline_merkle_root: String::from(root),
        kernel_token: KernelTokenV1 {
            schema_version: String::from("kernel_token.v1"),
            world_id: String::from("world-7"),
            capsule_digest: String::from(CAPSULE),
            merkle_root: String::from(root),
            tick_count: 2,
        },
        invariant_set: InvariantSetV1 {
            schema_version: String::from("invariant_set.v1"),
            world_id: String::from("world-7"),
            capsule_digest: String::from(CAPSULE),
            merkle_root: String::from(root),
            tick_count: 2,
            invariants: payload(r#"{"energy":{"conserved":true,"tolerance":0.001},"ids":[1,2,3]}"#),
            attestation: payload(r#"{"signer":"k1","sig":"00ff"}"#),
        },
        extractor_version: String::from("extractor-1.2.3"),
        capsule_ref: Some(CapsuleRef {
            kind: String::from("s3"),
            uri: String::from("s3://bucket/capsule"),
        }),
    }
}

fn rejection(res: Result<AgentContext, IngestError>) -> IngestError {
    match res {
        Ok(_) => panic!("bundle was accepted"),
        Err(e) => e,
    }
}

fn accepted(res: Result<AgentContext, IngestError>) -> AgentContext {
    match res {
        Ok(ctx) => ctx,
        Err(e) => panic!("bundle was rejected: {}", e.message()),
    }
}

#[test]
fn consistent_bundle_is_accepted() {
    let ctx = accepted(ingest_plug(consistent_plug(ROOT)));
    assert_eq!(ctx.psp, ROOT);
}

#[test]
fn context_carries_the_bundle_fields_unchanged() {
    let ctx = accepted(ingest_plug(consistent_plug(ROOT)));
    assert_eq!(ctx.world_id, "world-7");
    assert_eq!(ctx.capsule_digest, CAPSULE);
    assert_eq!(ctx.engine_hash, "engine-abc");
    assert_eq!(ctx.psp, ROOT);
    assert_eq!(ctx.kernel_token.schema_version, "kernel_token.v1");
    assert_eq!(ctx.kernel_token.world_id, "world-7");
    assert_eq!(ctx.kernel_token.capsule_digest, CAPSULE);
    assert_eq!(ctx.kernel_token.merkle_root, ROOT);
    assert_eq!(ctx.kernel_token.tick_count, 2);
    assert_eq!(ctx.invariants.schema_version, "invariant_set.v1");
    assert_eq!(ctx.invariants.world_id, "world-7");
    assert_eq!(ctx.invariants.capsule_digest, CAPSULE);
    assert_eq!(ctx.invariants.merkle_root, ROOT);
    assert_eq!(ctx.invariants.tick_count, 2);
    let capsule_ref = ctx.capsule_ref.unwrap();
    assert_eq!(capsule_ref.kind, "s3");
    assert_eq!(capsule_ref.uri, "s3://bucket/capsule");
}

#[test]
fn opaque_payloads_pass_through_unmodified() {
    let ctx = accepted(ingest_plug(consistent_plug(ROOT)));
    assert_eq!(
        ctx.invariants.invariants,
        payload(r#"{"energy":{"conserved":true,"tolerance":0.001},"ids":[1,2,3]}"#)
    );
    assert_eq!(ctx.invariants.attestation, payload(r#"{"signer":"k1","sig":"00ff"}"#));
}

#[test]
fn missing_capsule_ref_stays_missing() {
    let mut plug = consistent_plug(ROOT);
    plug.capsule_ref = None;
    let ctx = accepted(ingest_plug(plug));
    assert!(ctx.capsule_ref.is_none());
}

#[test]
fn inner_schema_versions_and_world_ids_are_not_checked() {
    let mut plug = consistent_plug(ROOT);
    plug.kernel_token.schema_version = String::from("anything");
    plug.kernel_token.world_id = String::from("elsewhere");
    plug.invariant_set.capsule_digest = String::from("sha256:unrelated");
    plug.invariant_set.tick_count = 99;
    let ctx = accepted(ingest_plug(plug));
    assert_eq!(ctx.kernel_token.world_id, "elsewhere");
    assert_eq!(ctx.invariants.capsule_digest, "sha256:unrelated");
    assert_eq!(ctx.invariants.tick_count, 99);
}

#[test]
fn digests_are_compared_as_text_not_decoded() {
    // Not a well-formed tag, but the three claims agree.
    let ctx = accepted(ingest_plug(consistent_plug("not-a-digest")));
    assert_eq!(ctx.psp, "not-a-digest");
}

#[test]
fn schema_v2_is_rejected_even_when_all_else_is_consistent() {
    let mut plug = consistent_plug(ROOT);
    plug.schema_version = String::from("cie_v2_plug.v2");
    assert_eq!(rejection(ingest_plug(plug)), IngestError::SchemaMismatch);
}

#[test]
fn schema_must_match_exactly() {
    for version in ["", "cie_v2_plug.v1 ", "cie_v2_plug.v10", "CIE_V2_PLUG.V1", "cie_v2_plug.v"] {
        let mut plug = consistent_plug(ROOT);
        plug.schema_version = String::from(version);
        assert_eq!(rejection(ingest_plug(plug)), IngestError::SchemaMismatch);
    }
}

#[test]
fn capsule_digest_mismatch_is_rejected_when_roots_agree() {
    let mut plug = consistent_plug(ROOT);
    plug.kernel_token.capsule_digest = String::from(OTHER);
    assert_eq!(
        rejection(ingest_plug(plug)),
        IngestError::IntegrityMismatch(IntegrityMismatch::CapsuleDigest)
    );
}

#[test]
fn capsule_digest_mismatch_is_rejected_when_roots_disagree() {
    let mut plug = consistent_plug(ROOT);
    plug.kernel_token.capsule_digest = String::from(OTHER);
    plug.kernel_token.merkle_root = String::from(OTHER);
    plug.invariant_set.merkle_root = String::from(CAPSULE);
    assert_eq!(
        rejection(ingest_plug(plug)),
        IngestError::IntegrityMismatch(IntegrityMismatch::CapsuleDigest)
    );
}

#[test]
fn kernel_token_root_mismatch_is_rejected() {
    let mut plug = consistent_plug(ROOT);
    plug.kernel_token.merkle_root = String::from(OTHER);
    assert_eq!(
        rejection(ingest_plug(plug)),
        IngestError::IntegrityMismatch(IntegrityMismatch::KernelTokenRoot)
    );
}

#[test]
fn invariant_set_root_mismatch_is_rejected() {
    let mut plug = consistent_plug(ROOT);
    plug.invariant_set.merkle_root = String::from(OTHER);
    assert_eq!(
        rejection(ingest_plug(plug)),
        IngestError::IntegrityMismatch(IntegrityMismatch::InvariantSetRoot)
    );
}

#[test]
fn kernel_token_root_is_checked_before_invariant_set_root() {
    let mut plug = consistent_plug(ROOT);
    plug.kernel_token.merkle_root = String::from(OTHER);
    plug.invariant_set.merkle_root = String::from(CAPSULE);
    assert_eq!(
        rejection(ingest_plug(plug)),
        IngestError::IntegrityMismatch(IntegrityMismatch::KernelTokenRoot)
    );
}

#[test]
fn inner_roots_that_agree_with_each_other_but_not_the_baseline_are_rejected() {
    let mut plug = consistent_plug(ROOT);
    plug.kernel_token.merkle_root = String::from(OTHER);
    plug.invariant_set.merkle_root = String::from(OTHER);
    assert_eq!(
        rejection(ingest_plug(plug)),
        IngestError::IntegrityMismatch(IntegrityMismatch::KernelTokenRoot)
    );
}

#[test]
fn schema_is_checked_before_any_digest() {
    let mut plug = consistent_plug(ROOT);
    plug.schema_version = String::from("cie_v2_plug.v2");
    plug.kernel_token.capsule_digest = String::from(OTHER);
    plug.kernel_token.merkle_root = String::from(OTHER);
    assert_eq!(rejection(ingest_plug(plug)), IngestError::SchemaMismatch);
}

#[test]
fn each_rejection_has_its_own_message() {
    assert_eq!(IngestError::SchemaMismatch.message(), "unsupported schema_version");
    assert_eq!(
        IngestError::IntegrityMismatch(IntegrityMismatch::CapsuleDigest).message(),
        "kernel_token.capsule_digest mismatch"
    );
    assert_eq!(
        IngestError::IntegrityMismatch(IntegrityMismatch::KernelTokenRoot).message(),
        "kernel_token.merkle_root != baseline_merkle_root"
    );
    assert_eq!(
        IngestError::IntegrityMismatch(IntegrityMismatch::InvariantSetRoot).message(),
        "invariant_set.merkle_root != baseline_merkle_root"
    );
}

#[test]
fn recomputed_root_is_accepted_end_to_end() {
    let ticks = vec![
        format!("sha256:{}", "11".repeat(32)),
        format!("sha256:{}", "22".repeat(32)),
    ];
    let root = psp_merkle_root_from_tick_hashes(&ticks).unwrap();
    assert_eq!(root, ROOT);
    let ctx = accepted(ingest_plug(consistent_plug(&root)));
    assert_eq!(ctx.psp, root);
}

#[test]
fn root_of_reordered_ticks_does_not_match_the_claim() {
    let ticks = vec![
        format!("sha256:{}", "22".repeat(32)),
        format!("sha256:{}", "11".repeat(32)),
    ];
    let recomputed = psp_merkle_root_from_tick_hashes(&ticks).unwrap();
    let mut plug = consistent_plug(ROOT);
    plug.baseline_merkle_root = recomputed;
    assert_eq!(
        rejection(ingest_plug(plug)),
        IngestError::IntegrityMismatch(IntegrityMismatch::KernelTokenRoot)
    );
}
