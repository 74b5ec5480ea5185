use opentrustprotocol::{
    conflict_aware_weighted_average, optimistic_fusion, pessimistic_fusion, NeutrosophicJudgment,
    OpenTrustError,
};

fn create_test_judgment(t: u32, i: u32, f: u32, source_id: &str) -> NeutrosophicJudgment {
    NeutrosophicJudgment::new(t, i, f, vec![(source_id.to_string(), "2023-01-01T00:00:00Z".to_string())])
        .unwrap()
}

#[test]
fn test_basic_judgment_creation() {
    let judgment = create_test_judgment(800_000, 200_000, 0, "test");
    assert_eq!(judgment.t, 800_000);
    assert_eq!(judgment.i, 200_000);
    assert_eq!(judgment.f, 0);
    assert!(judgment.is_valid());
    assert_eq!(judgment.total(), 1_000_000);
}

#[test]
fn test_conservation_constraint_validation() {
    let valid = create_test_judgment(800_000, 200_000, 0, "valid");
    assert!(valid.is_valid());
    let result = NeutrosophicJudgment::new(
        500_000,
        500_000,
        300_000,
        vec![("test".to_string(), "2023-01-01T00:00:00Z".to_string())],
    );
    assert!(result.is_err());
    match result.unwrap_err() {
        OpenTrustError::ConservationViolation { t, i, f, sum } => {
            assert_eq!(t, 500_000);
            assert_eq!(i, 500_000);
            assert_eq!(f, 300_000);
            assert_eq!(sum, 1_300_000);
        }
        _ => panic!("Expected ConservationViolation error"),
    }
}

#[test]
fn test_fusion_operations() {
    let judgment1 = create_test_judgment(800_000, 200_000, 0, "source1");
    let judgment2 = create_test_judgment(600_000, 300_000, 100_000, "source2");
    let judgment3 = create_test_judgment(700_000, 100_000, 200_000, "source3");

    let cawa_result = conflict_aware_weighted_average(
        &[&judgment1, &judgment2, &judgment3],
        &[500_000, 300_000, 200_000],
    )
    .unwrap();
    assert!(cawa_result.is_valid());
    assert!(cawa_result.total() <= 1_000_000);
    assert_eq!(cawa_result.provenance_chain.len(), 4);
    assert_eq!((cawa_result.t, cawa_result.i, cawa_result.f), (722_851, 211_530, 65_618));

    let optimistic_result = optimistic_fusion(&[&judgment1, &judgment2, &judgment3]).unwrap();
    assert!(optimistic_result.is_valid());
    assert_eq!(optimistic_result.t, 800_000);
    assert_eq!(optimistic_result.f, 0);

    let pessimistic_result = pessimistic_fusion(&[&judgment1, &judgment2, &judgment3]).unwrap();
    assert!(pessimistic_result.is_valid());
    assert_eq!(pessimistic_result.t, 600_000);
    assert_eq!(pessimistic_result.f, 200_000);
}

#[test]
fn test_error_handling() {
    let result = conflict_aware_weighted_average(&[], &[]);
    assert!(result.is_err());

    let judgment = create_test_judgment(800_000, 200_000, 0, "test");
    let result = conflict_aware_weighted_average(&[&judgment], &[500_000, 500_000]);
    assert!(result.is_err());

    let result = NeutrosophicJudgment::new(
        1_500_000,
        0,
        0,
        vec![("test".to_string(), "2023-01-01T00:00:00Z".to_string())],
    );
    assert!(result.is_err());

    let result = NeutrosophicJudgment::new(800_000, 200_000, 0, vec![]);
    assert!(result.is_err());
}

#[test]
fn integration_tests_test_provenance_chain_integrity() {
    let judgment1 = create_test_judgment(800_000, 200_000, 0, "source1");
    let judgment2 = create_test_judgment(600_000, 300_000, 100_000, "source2");
    let fused = conflict_aware_weighted_average(&[&judgment1, &judgment2], &[600_000, 400_000]).unwrap();
    assert_eq!(fused.provenance_chain.len(), 3);
    assert_eq!(fused.provenance_chain[0].source_id, "source1");
    assert_eq!(fused.provenance_chain[1].source_id, "source2");
    assert_eq!(fused.provenance_chain[2].source_id, "otp-cawa-v1.1");
}

#[test]
fn test_edge_cases() {
    let judgment = create_test_judgment(1_000_000, 0, 0, "boundary");
    assert!(judgment.is_valid());
    let judgment = create_test_judgment(0, 0, 0, "zeros");
    assert!(judgment.is_valid());
    let judgment = create_test_judgment(500_000, 300_000, 200_000, "max_conservation");
    assert!(judgment.is_valid());
    assert_eq!(judgment.total(), 1_000_000);
}

#[test]
fn test_performance_with_many_judgments() {
    let judgments: Vec<NeutrosophicJudgment> = (0..100u32)
        .map(|i| create_test_judgment(500_000 + i * 1_000, 300_000 - i * 1_000, 200_000, &format!("source_{}", i)))
        .collect();
    let judgment_refs: Vec<&NeutrosophicJudgment> = judgments.iter().collect();
    let weights: Vec<u32> = (0..100u32).map(|i| 1_000_000 + i * 10_000).collect();
    let fused = conflict_aware_weighted_average(&judgment_refs, &weights).unwrap();
    assert!(fused.is_valid());
    assert!(fused.provenance_chain.len() > 100);
}
