use opentrustprotocol::{
    conflict_aware_weighted_average_at, create_fusion_provenance_entry, generate_conformance_seal,
    sha256_hex, verify_conformance_seal, verify_conformance_seal_with_inputs, NeutrosophicJudgment,
    OpenTrustError,
};

fn sensor(t: u32, i: u32, f: u32, source: &str) -> NeutrosophicJudgment {
    NeutrosophicJudgment::new(t, i, f, vec![(source.to_string(), "2023-01-01T00:00:00Z".to_string())])
        .unwrap()
}

#[test]
fn test_generate_conformance_seal_basic() {
    let judgment1 = sensor(800_000, 200_000, 0, "sensor1");
    let judgment2 = sensor(600_000, 300_000, 100_000, "sensor2");
    let seal = generate_conformance_seal(&[&judgment1, &judgment2], &[600_000, 400_000], "otp-cawa-v1.1").unwrap();
    assert_eq!(seal.len(), 64);
    assert!(seal.chars().all(|c| c.is_ascii_hexdigit()));
}

#[test]
fn test_generate_conformance_seal_deterministic() {
    let judgment1 = sensor(800_000, 200_000, 0, "sensor1");
    let judgment2 = sensor(600_000, 300_000, 100_000, "sensor2");
    let seal1 = generate_conformance_seal(&[&judgment1, &judgment2], &[600_000, 400_000], "otp-cawa-v1.1").unwrap();
    let seal2 = generate_conformance_seal(&[&judgment1, &judgment2], &[600_000, 400_000], "otp-cawa-v1.1").unwrap();
    assert_eq!(seal1, seal2);
}

#[test]
fn test_generate_conformance_seal_ordering_matters() {
    let judgment1 = sensor(800_000, 200_000, 0, "sensor1");
    let judgment2 = sensor(600_000, 300_000, 100_000, "sensor2");
    let seal1 = generate_conformance_seal(&[&judgment1, &judgment2], &[600_000, 400_000], "otp-cawa-v1.1").unwrap();
    let seal2 = generate_conformance_seal(&[&judgment2, &judgment1], &[400_000, 600_000], "otp-cawa-v1.1").unwrap();
    assert_eq!(seal1, seal2);
}

#[test]
fn seal_is_order_invariant_for_three_inputs() {
    let a = sensor(800_000, 200_000, 0, "alpha");
    let b = sensor(600_000, 300_000, 100_000, "beta");
    let c = sensor(100_000, 100_000, 100_000, "gamma");
    let s1 = generate_conformance_seal(&[&a, &b, &c], &[1, 2, 3], "op").unwrap();
    let s2 = generate_conformance_seal(&[&c, &a, &b], &[3, 1, 2], "op").unwrap();
    assert_eq!(s1, s2);
}

#[test]
fn test_generate_conformance_seal_different_operators() {
    let judgment1 = sensor(800_000, 200_000, 0, "sensor1");
    let judgment2 = sensor(600_000, 300_000, 100_000, "sensor2");
    let seal1 = generate_conformance_seal(&[&judgment1, &judgment2], &[600_000, 400_000], "otp-cawa-v1.1").unwrap();
    let seal2 = generate_conformance_seal(&[&judgment1, &judgment2], &[600_000, 400_000], "otp-optimistic-v1.1").unwrap();
    assert_ne!(seal1, seal2);
}

#[test]
fn seal_changes_with_an_input_degree_or_weight() {
    let judgment1 = sensor(800_000, 200_000, 0, "sensor1");
    let judgment2 = sensor(600_000, 300_000, 100_000, "sensor2");
    let changed = sensor(700_000, 300_000, 0, "sensor1");
    let base = generate_conformance_seal(&[&judgment1, &judgment2], &[600_000, 400_000], "op").unwrap();
    let other = generate_conformance_seal(&[&changed, &judgment2], &[600_000, 400_000], "op").unwrap();
    let reweighted = generate_conformance_seal(&[&judgment1, &judgment2], &[600_000, 400_001], "op").unwrap();
    assert_ne!(base, other);
    assert_ne!(base, reweighted);
}

#[test]
fn seal_rejects_bad_inputs() {
    let judgment1 = sensor(800_000, 200_000, 0, "sensor1");
    assert!(matches!(
        generate_conformance_seal(&[&judgment1], &[1, 2], "op"),
        Err(OpenTrustError::InvalidFusionInput { .. })
    ));
    assert!(matches!(
        generate_conformance_seal(&[], &[], "op"),
        Err(OpenTrustError::InvalidFusionInput { .. })
    ));
    assert!(matches!(
        generate_conformance_seal(&[&judgment1], &[1], ""),
        Err(OpenTrustError::InvalidFusionInput { .. })
    ));
}

#[test]
fn test_verify_conformance_seal_with_inputs() {
    let judgment1 = sensor(800_000, 200_000, 0, "sensor1");
    let judgment2 = sensor(600_000, 300_000, 100_000, "sensor2");
    let seal = generate_conformance_seal(&[&judgment1, &judgment2], &[600_000, 400_000], "otp-cawa-v1.1").unwrap();
    let provenance_entry = create_fusion_provenance_entry(
        "otp-cawa-v1.1",
        "2023-01-01T00:00:00Z",
        &seal,
        Some("Test fusion operation".to_string()),
        None,
    );
    let fused_judgment = NeutrosophicJudgment::new_with_entries(740_000, 240_000, 20_000, vec![provenance_entry]).unwrap();
    let is_valid = verify_conformance_seal_with_inputs(&fused_judgment, &[&judgment1, &judgment2], &[600_000, 400_000]).unwrap();
    assert!(is_valid);
}

#[test]
fn verification_fails_for_other_inputs_or_weights() {
    let judgment1 = sensor(800_000, 200_000, 0, "sensor1");
    let judgment2 = sensor(600_000, 300_000, 100_000, "sensor2");
    let tampered = sensor(799_999, 200_000, 0, "sensor1");
    let fused = conflict_aware_weighted_average_at(&[&judgment1, &judgment2], &[600_000, 400_000], "2024-01-01T00:00:00Z").unwrap();
    assert!(verify_conformance_seal_with_inputs(&fused, &[&judgment1, &judgment2], &[600_000, 400_000]).unwrap());
    assert!(verify_conformance_seal_with_inputs(&fused, &[&judgment2, &judgment1], &[400_000, 600_000]).unwrap());
    assert!(!verify_conformance_seal_with_inputs(&fused, &[&tampered, &judgment2], &[600_000, 400_000]).unwrap());
    assert!(!verify_conformance_seal_with_inputs(&fused, &[&judgment1, &judgment2], &[600_000, 400_001]).unwrap());
}

#[test]
fn verification_without_inputs_reports_missing_data() {
    let judgment1 = sensor(800_000, 200_000, 0, "sensor1");
    assert!(matches!(verify_conformance_seal(&judgment1), Err(OpenTrustError::InvalidFusionInput { .. })));
    let fused = conflict_aware_weighted_average_at(&[&judgment1], &[1], "2024-01-01T00:00:00Z").unwrap();
    assert!(matches!(verify_conformance_seal(&fused), Err(OpenTrustError::InvalidFusionInput { .. })));
    assert!(matches!(
        verify_conformance_seal_with_inputs(&judgment1, &[&judgment1], &[1]),
        Err(OpenTrustError::InvalidFusionInput { .. })
    ));
}

#[test]
fn digest_matches_the_sha256_test_vector() {
    let text: Vec<char> = "abc".chars().collect();
    assert_eq!(
        sha256_hex(&text),
        "ba7816bf8f01cfea414140de5dae2223b00361a396177a9cb410ff61f20015ad"
    );
}

#[test]
fn seal_is_order_invariant_when_source_ids_tie() {
    let a = sensor(800_000, 200_000, 0, "shared");
    let b = sensor(600_000, 300_000, 100_000, "shared");
    let s1 = generate_conformance_seal(&[&a, &b], &[600_000, 400_000], "op").unwrap();
    let s2 = generate_conformance_seal(&[&b, &a], &[400_000, 600_000], "op").unwrap();
    assert_eq!(s1, s2);
    let c = sensor(100_000, 100_000, 100_000, "shared");
    let s3 = generate_conformance_seal(&[&a, &b, &c], &[1, 2, 3], "op").unwrap();
    let s4 = generate_conformance_seal(&[&c, &b, &a], &[3, 2, 1], "op").unwrap();
    assert_eq!(s3, s4);
}
