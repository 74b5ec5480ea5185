use opentrustprotocol::{
    conflict_aware_weighted_average, conflict_aware_weighted_average_at, optimistic_fusion,
    optimistic_fusion_at, pessimistic_fusion, pessimistic_fusion_at, NeutrosophicJudgment,
    MetadataValue, OpenTrustError,
};

fn create_test_judgment(t: u32, i: u32, f: u32) -> NeutrosophicJudgment {
    NeutrosophicJudgment::new(t, i, f, vec![("test".to_string(), "2023-01-01T00:00:00Z".to_string())])
        .unwrap()
}

fn create_test_judgment_with_timestamp(t: u32, i: u32, f: u32, timestamp: &str) -> NeutrosophicJudgment {
    NeutrosophicJudgment::new(t, i, f, vec![("test".to_string(), timestamp.to_string())]).unwrap()
}

fn is_hex_id(id: &str) -> bool {
    id.len() == 64 && id.chars().all(|c| c.is_ascii_hexdigit())
}

#[test]
fn test_conflict_aware_weighted_average() {
    let judgment1 = create_test_judgment(800_000, 200_000, 0);
    let judgment2 = create_test_judgment(600_000, 300_000, 100_000);
    let fused = conflict_aware_weighted_average(&[&judgment1, &judgment2], &[600_000, 400_000]).unwrap();
    assert!(fused.is_valid());
    assert!(fused.total() <= 1_000_000);
    assert_eq!(fused.provenance_chain.len(), 3);
}

#[test]
fn cawa_degrees_are_the_conflict_discounted_means() {
    let judgment1 = create_test_judgment(800_000, 200_000, 0);
    let judgment2 = create_test_judgment(600_000, 300_000, 100_000);
    let fused = conflict_aware_weighted_average(&[&judgment1, &judgment2], &[600_000, 400_000]).unwrap();
    assert_eq!((fused.t, fused.i, fused.f), (722_950, 238_524, 38_524));
}

#[test]
fn cawa_is_deterministic_for_a_fixed_time() {
    let judgment1 = create_test_judgment(800_000, 200_000, 0);
    let judgment2 = create_test_judgment(600_000, 300_000, 100_000);
    let ts = "2024-05-05T00:00:00Z";
    let a = conflict_aware_weighted_average_at(&[&judgment1, &judgment2], &[600_000, 400_000], ts).unwrap();
    let b = conflict_aware_weighted_average_at(&[&judgment1, &judgment2], &[600_000, 400_000], ts).unwrap();
    assert_eq!((a.t, a.i, a.f), (b.t, b.i, b.f));
    assert_eq!(a.provenance_chain.len(), 3);
    assert_eq!(a.judgment_id, b.judgment_id);
    assert!(a.equals(&b, 1));
}

#[test]
fn test_optimistic_fusion() {
    let judgment1 = create_test_judgment(800_000, 200_000, 0);
    let judgment2 = create_test_judgment(600_000, 300_000, 100_000);
    let fused = optimistic_fusion(&[&judgment1, &judgment2]).unwrap();
    assert!(fused.is_valid());
    assert!(fused.total() <= 1_000_000);
    assert!(fused.t <= 800_000);
    assert_eq!(fused.f, 0);
}

#[test]
fn optimistic_rescales_when_over_budget() {
    let judgment1 = create_test_judgment(800_000, 200_000, 0);
    let judgment2 = create_test_judgment(600_000, 300_000, 100_000);
    let fused = optimistic_fusion(&[&judgment1, &judgment2]).unwrap();
    assert_eq!((fused.t, fused.i, fused.f), (761_904, 238_095, 0));
}

#[test]
fn test_pessimistic_fusion() {
    let judgment1 = create_test_judgment(800_000, 200_000, 0);
    let judgment2 = create_test_judgment(600_000, 300_000, 100_000);
    let fused = pessimistic_fusion(&[&judgment1, &judgment2]).unwrap();
    assert!(fused.is_valid());
    assert!(fused.total() <= 1_000_000);
    assert!(fused.t <= 600_000);
    assert!(fused.f <= 100_000);
    assert!(fused.f >= 100_000);
    assert_eq!((fused.t, fused.i, fused.f), (600_000, 250_000, 100_000));
}

#[test]
fn test_empty_judgments_error() {
    let result = conflict_aware_weighted_average(&[], &[]);
    assert!(result.is_err());
    assert!(matches!(optimistic_fusion(&[]), Err(OpenTrustError::InvalidFusionInput { .. })));
    assert!(matches!(pessimistic_fusion(&[]), Err(OpenTrustError::InvalidFusionInput { .. })));
}

#[test]
fn test_weights_length_mismatch() {
    let judgment = create_test_judgment(800_000, 200_000, 0);
    let result = conflict_aware_weighted_average(&[&judgment], &[500_000, 500_000]);
    match result {
        Err(OpenTrustError::WeightsLengthMismatch { judgments_len, weights_len }) => {
            assert_eq!(judgments_len, 1);
            assert_eq!(weights_len, 2);
        }
        other => panic!("unexpected {:?}", other),
    }
}

#[test]
fn all_zero_weights_are_rejected() {
    let judgment = create_test_judgment(800_000, 200_000, 0);
    let result = conflict_aware_weighted_average(&[&judgment, &judgment], &[0, 0]);
    assert!(matches!(result, Err(OpenTrustError::AllWeightsZero)));
}

#[test]
fn blank_fusion_time_is_reported_at_the_fusion_entry() {
    let judgment = create_test_judgment(800_000, 200_000, 0);
    match optimistic_fusion_at(&[&judgment, &judgment], " ") {
        Err(OpenTrustError::InvalidProvenanceEntry { index, .. }) => assert_eq!(index, 2),
        other => panic!("unexpected {:?}", other),
    }
    assert!(pessimistic_fusion_at(&[&judgment], "").is_err());
}

#[test]
fn test_conflict_aware_weighted_average_generates_judgment_id() {
    let judgment1 = create_test_judgment(800_000, 200_000, 0);
    let judgment2 = create_test_judgment(600_000, 300_000, 100_000);
    let fused = conflict_aware_weighted_average(&[&judgment1, &judgment2], &[600_000, 400_000]).unwrap();
    assert!(fused.judgment_id.is_some());
    let judgment_id = fused.judgment_id.unwrap();
    assert_eq!(judgment_id.len(), 64);
    assert!(judgment_id.chars().all(|c| c.is_ascii_hexdigit()));
}

#[test]
fn test_optimistic_fusion_generates_judgment_id() {
    let judgment1 = create_test_judgment(800_000, 200_000, 0);
    let judgment2 = create_test_judgment(600_000, 300_000, 100_000);
    let fused = optimistic_fusion(&[&judgment1, &judgment2]).unwrap();
    assert!(fused.judgment_id.is_some());
    let judgment_id = fused.judgment_id.unwrap();
    assert_eq!(judgment_id.len(), 64);
    assert!(judgment_id.chars().all(|c| c.is_ascii_hexdigit()));
}

#[test]
fn test_pessimistic_fusion_generates_judgment_id() {
    let judgment1 = create_test_judgment(800_000, 200_000, 0);
    let judgment2 = create_test_judgment(600_000, 300_000, 100_000);
    let fused = pessimistic_fusion(&[&judgment1, &judgment2]).unwrap();
    assert!(fused.judgment_id.is_some());
    let judgment_id = fused.judgment_id.unwrap();
    assert_eq!(judgment_id.len(), 64);
    assert!(judgment_id.chars().all(|c| c.is_ascii_hexdigit()));
}

#[test]
fn test_judgment_ids_are_deterministic() {
    let judgment1 = create_test_judgment_with_timestamp(800_000, 200_000, 0, "2023-01-01T00:00:00Z");
    let judgment2 = create_test_judgment_with_timestamp(600_000, 300_000, 100_000, "2023-01-01T00:00:01Z");

    let fused1 = conflict_aware_weighted_average(&[&judgment1, &judgment2], &[600_000, 400_000]).unwrap();
    let fused2 = conflict_aware_weighted_average(&[&judgment1, &judgment2], &[600_000, 400_000]).unwrap();
    assert!(fused1.judgment_id.is_some());
    assert!(fused2.judgment_id.is_some());
    assert_eq!(fused1.judgment_id.as_ref().unwrap().len(), 64);
    assert_eq!(fused2.judgment_id.as_ref().unwrap().len(), 64);

    let fused3 = optimistic_fusion(&[&judgment1, &judgment2]).unwrap();
    let fused4 = optimistic_fusion(&[&judgment1, &judgment2]).unwrap();
    assert!(fused3.judgment_id.is_some());
    assert!(fused4.judgment_id.is_some());
    assert_eq!(fused3.judgment_id.as_ref().unwrap().len(), 64);
    assert_eq!(fused4.judgment_id.as_ref().unwrap().len(), 64);

    let fused5 = pessimistic_fusion(&[&judgment1, &judgment2]).unwrap();
    let fused6 = pessimistic_fusion(&[&judgment1, &judgment2]).unwrap();
    assert!(fused5.judgment_id.is_some());
    assert!(fused6.judgment_id.is_some());
    assert_eq!(fused5.judgment_id.as_ref().unwrap().len(), 64);
    assert_eq!(fused6.judgment_id.as_ref().unwrap().len(), 64);
}

#[test]
fn test_different_judgments_generate_different_ids() {
    let judgment1 = create_test_judgment(800_000, 200_000, 0);
    let judgment2 = create_test_judgment(600_000, 300_000, 100_000);
    let judgment3 = create_test_judgment(700_000, 200_000, 100_000);
    let ts = "2023-01-01T00:00:00Z";
    let fused1 = conflict_aware_weighted_average_at(&[&judgment1, &judgment2], &[600_000, 400_000], ts).unwrap();
    let fused2 = conflict_aware_weighted_average_at(&[&judgment1, &judgment3], &[600_000, 400_000], ts).unwrap();
    assert_ne!(fused1.judgment_id, fused2.judgment_id);
    assert!(is_hex_id(fused1.judgment_id.as_ref().unwrap()));
}

#[test]
fn fusion_entry_carries_seal_and_metadata() {
    let judgment1 = create_test_judgment(800_000, 200_000, 0);
    let judgment2 = create_test_judgment(600_000, 300_000, 100_000);
    let fused = pessimistic_fusion(&[&judgment1, &judgment2]).unwrap();
    let last = fused.provenance_chain.last().unwrap();
    assert_eq!(last.source_id, "otp-pessimistic-v1.1");
    assert!(is_hex_id(last.conformance_seal.as_ref().unwrap()));
    assert!(!last.timestamp.trim().is_empty());
    let metadata = last.metadata.as_ref().unwrap();
    assert_eq!(metadata.len(), 4);
    assert_eq!(metadata[2].0, "weights");
    assert!(matches!(metadata[2].1, MetadataValue::Null));
    assert_eq!(judgment1.provenance_chain.len(), 1);
}

#[test]
fn weighted_fusion_records_its_weights() {
    let judgment1 = create_test_judgment(800_000, 200_000, 0);
    let judgment2 = create_test_judgment(600_000, 300_000, 100_000);
    let fused = conflict_aware_weighted_average(&[&judgment1, &judgment2], &[600_000, 400_000]).unwrap();
    let metadata = fused.provenance_chain[2].metadata.as_ref().unwrap();
    assert_eq!(metadata[2].0, "weights");
    match &metadata[2].1 {
        MetadataValue::IntegerList(ws) => assert_eq!(ws, &vec![600_000u64, 400_000]),
        other => panic!("unexpected {:?}", other),
    }
}
