use opentrustprotocol::{
    ensure_judgment_id, generate_judgment_id, NeutrosophicJudgment, OpenTrustError, OutcomeJudgment,
    OutcomeType, ProvenanceEntry,
};

fn sensor(t: u32, i: u32, f: u32) -> NeutrosophicJudgment {
    NeutrosophicJudgment::new(t, i, f, vec![("sensor1".to_string(), "2023-01-01T00:00:00Z".to_string())])
        .unwrap()
}

#[test]
fn test_generate_judgment_id_basic() {
    let judgment = sensor(800_000, 200_000, 0);
    let judgment_id = generate_judgment_id(&judgment).unwrap();
    assert_eq!(judgment_id.len(), 64);
    assert!(judgment_id.chars().all(|c| c.is_ascii_hexdigit()));
}

#[test]
fn test_generate_judgment_id_deterministic() {
    let judgment1 = sensor(800_000, 200_000, 0);
    let judgment2 = sensor(800_000, 200_000, 0);
    assert_eq!(generate_judgment_id(&judgment1).unwrap(), generate_judgment_id(&judgment2).unwrap());
}

#[test]
fn test_generate_judgment_id_different_judgments() {
    let judgment1 = sensor(800_000, 200_000, 0);
    let judgment2 = sensor(700_000, 300_000, 0);
    assert_ne!(generate_judgment_id(&judgment1).unwrap(), generate_judgment_id(&judgment2).unwrap());
}

#[test]
fn identity_ignores_seals_but_not_provenance() {
    let base = sensor(800_000, 200_000, 0);
    let mut sealed = base.clone();
    sealed.provenance_chain[0].conformance_seal = Some("abc".to_string());
    assert_eq!(generate_judgment_id(&base).unwrap(), generate_judgment_id(&sealed).unwrap());
    let other = NeutrosophicJudgment::new(800_000, 200_000, 0, vec![("sensor2".to_string(), "2023-01-01T00:00:00Z".to_string())]).unwrap();
    assert_ne!(generate_judgment_id(&base).unwrap(), generate_judgment_id(&other).unwrap());
}

#[test]
fn test_ensure_judgment_id_new() {
    let judgment = sensor(800_000, 200_000, 0);
    assert!(judgment.judgment_id.is_none());
    let expected = generate_judgment_id(&judgment).unwrap();
    let judgment_with_id = ensure_judgment_id(judgment).unwrap();
    assert!(judgment_with_id.judgment_id.is_some());
    assert_eq!(judgment_with_id.judgment_id.as_ref().unwrap().len(), 64);
    assert_eq!(judgment_with_id.judgment_id, Some(expected));
}

#[test]
fn test_ensure_judgment_id_existing() {
    let mut judgment = sensor(800_000, 200_000, 0);
    judgment.judgment_id = Some("existing_id".to_string());
    let judgment_with_id = ensure_judgment_id(judgment.clone()).unwrap();
    assert_eq!(judgment_with_id.judgment_id, Some("existing_id".to_string()));
}

#[test]
fn test_outcome_judgment_creation() {
    let outcome = OutcomeJudgment::new(
        "decision_judgment_id".to_string(),
        1_000_000,
        0,
        0,
        OutcomeType::Success,
        "test-oracle".to_string(),
        vec![ProvenanceEntry::new("test-oracle".to_string(), "2023-01-01T00:00:00Z".to_string())],
    )
    .unwrap();
    assert_eq!(outcome.links_to_judgment_id, "decision_judgment_id");
    assert_eq!(outcome.t, 1_000_000);
    assert_eq!(outcome.i, 0);
    assert_eq!(outcome.f, 0);
    assert_eq!(outcome.outcome_type, OutcomeType::Success);
    assert_eq!(outcome.oracle_source, "test-oracle");
    assert!(!outcome.judgment_id.is_empty());
    let view = outcome.to_neutrosophic_judgment();
    assert_eq!(view.judgment_id.as_deref(), Some(outcome.judgment_id.as_str()));
    let mut plain = view.clone();
    plain.judgment_id = None;
    assert_eq!(generate_judgment_id(&plain).unwrap(), outcome.judgment_id);
}

#[test]
fn test_outcome_judgment_validation() {
    let result = OutcomeJudgment::new(
        "decision_judgment_id".to_string(),
        1_500_000,
        0,
        0,
        OutcomeType::Success,
        "test-oracle".to_string(),
        vec![],
    );
    assert!(matches!(result, Err(OpenTrustError::InvalidValue { .. })));
}

#[test]
fn outcome_names_are_lowercase() {
    assert_eq!(OutcomeType::Success.name(), "success");
    assert_eq!(OutcomeType::Failure.name(), "failure");
    assert_eq!(OutcomeType::Partial.name(), "partial");
}
