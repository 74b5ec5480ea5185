use opentrustprotocol::{NeutrosophicJudgment, OpenTrustError, ProvenanceEntry, SCALE};

fn entry(source: &str) -> Vec<(String, String)> {
    vec![(source.to_string(), "2023-01-01T00:00:00Z".to_string())]
}

#[test]
fn test_judgment_creation() {
    let judgment = NeutrosophicJudgment::new(800_000, 200_000, 0, entry("test")).unwrap();
    assert_eq!(judgment.t, 800_000);
    assert_eq!(judgment.i, 200_000);
    assert_eq!(judgment.f, 0);
    assert_eq!(judgment.provenance_chain.len(), 1);
}

#[test]
fn judgment_test_conservation_constraint() {
    let result = NeutrosophicJudgment::new(500_000, 500_000, 300_000, entry("test"));
    assert!(result.is_err());
    match result.unwrap_err() {
        OpenTrustError::ConservationViolation { t, i, f, sum } => {
            assert_eq!(t, 500_000);
            assert_eq!(i, 500_000);
            assert_eq!(f, 300_000);
            assert_eq!(sum, 1_300_000);
        }
        _ => panic!("Expected ConservationViolation error"),
    }
}

#[test]
fn test_empty_provenance() {
    let result = NeutrosophicJudgment::new(800_000, 200_000, 0, vec![]);
    assert!(result.is_err());
    match result.unwrap_err() {
        OpenTrustError::EmptyProvenanceChain => {}
        _ => panic!("Expected EmptyProvenanceChain error"),
    }
}

#[test]
fn out_of_range_degree_names_its_field() {
    match NeutrosophicJudgment::new(100, SCALE + 1, 0, entry("test")).unwrap_err() {
        OpenTrustError::InvalidValue { field, value, .. } => {
            assert_eq!(field, "I");
            assert_eq!(value, SCALE + 1);
        }
        other => panic!("unexpected {:?}", other),
    }
    match NeutrosophicJudgment::new(SCALE + 5, 0, 0, entry("test")).unwrap_err() {
        OpenTrustError::InvalidValue { field, .. } => assert_eq!(field, "T"),
        other => panic!("unexpected {:?}", other),
    }
    match NeutrosophicJudgment::new(0, 0, SCALE + 5, entry("test")).unwrap_err() {
        OpenTrustError::InvalidValue { field, .. } => assert_eq!(field, "F"),
        other => panic!("unexpected {:?}", other),
    }
}

#[test]
fn blank_provenance_entry_is_reported_with_its_index() {
    let chain = vec![
        ("ok".to_string(), "2023-01-01T00:00:00Z".to_string()),
        ("  \t".to_string(), "2023-01-01T00:00:00Z".to_string()),
    ];
    match NeutrosophicJudgment::new(100, 100, 100, chain).unwrap_err() {
        OpenTrustError::InvalidProvenanceEntry { index, .. } => assert_eq!(index, 1),
        other => panic!("unexpected {:?}", other),
    }
    let chain = vec![ProvenanceEntry::new("src".to_string(), " ".to_string())];
    match NeutrosophicJudgment::new_with_entries(100, 100, 100, chain).unwrap_err() {
        OpenTrustError::InvalidProvenanceEntry { index, .. } => assert_eq!(index, 0),
        other => panic!("unexpected {:?}", other),
    }
}

#[test]
fn boundary_sum_is_accepted_and_valid() {
    let j = NeutrosophicJudgment::new(500_000, 300_000, 200_000, entry("edge")).unwrap();
    assert!(j.is_valid());
    assert_eq!(j.total(), SCALE as u64);
    assert!(NeutrosophicJudgment::new(500_000, 300_001, 200_000, entry("edge")).is_err());
}

#[test]
fn equals_uses_epsilon_and_chain_content() {
    let a = NeutrosophicJudgment::new(800_000, 200_000, 0, entry("x")).unwrap();
    let b = NeutrosophicJudgment::new(799_995, 199_998, 0, entry("x")).unwrap();
    let c = NeutrosophicJudgment::new(800_000, 200_000, 0, entry("y")).unwrap();
    assert!(a.equals(&b, 10));
    assert!(!a.equals(&b, 5));
    assert!(!a.equals(&c, 10));
    assert!(a.equals(&a.clone(), 1));
}

#[test]
fn entry_with_description_keeps_it() {
    let e = ProvenanceEntry::with_description("s".to_string(), "t".to_string(), "d".to_string());
    assert_eq!(e.description, Some("d".to_string()));
    assert!(e.metadata.is_none());
    assert!(e.conformance_seal.is_none());
}
