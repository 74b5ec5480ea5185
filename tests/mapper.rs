use opentrustprotocol::{
    create_timestamp, normalize_boolean_input, BooleanInput, InputError, MapperType,
};

#[test]
fn boolean_flags_pass_through() {
    assert!(normalize_boolean_input(&BooleanInput::Flag(true)).unwrap());
    assert!(!normalize_boolean_input(&BooleanInput::Flag(false)).unwrap());
}

#[test]
fn boolean_integers_accept_one_and_zero() {
    assert!(normalize_boolean_input(&BooleanInput::Integer(1)).unwrap());
    assert!(!normalize_boolean_input(&BooleanInput::Integer(0)).unwrap());
    assert!(matches!(
        normalize_boolean_input(&BooleanInput::Integer(2)),
        Err(InputError::InvalidFormat { .. })
    ));
}

#[test]
fn boolean_words_are_lowercased_and_trimmed() {
    for word in ["true", "  TRUE ", "Yes", "1", "on", "ENABLED"] {
        assert!(normalize_boolean_input(&BooleanInput::Text(word.to_string())).unwrap(), "{}", word);
    }
    for word in ["false", "No", " 0", "OFF\t", "disabled"] {
        assert!(!normalize_boolean_input(&BooleanInput::Text(word.to_string())).unwrap(), "{}", word);
    }
    assert!(matches!(
        normalize_boolean_input(&BooleanInput::Text("invalid".to_string())),
        Err(InputError::InvalidFormat { .. })
    ));
}

#[test]
fn timestamp_is_iso_8601() {
    let ts = create_timestamp();
    assert!(ts.len() >= 20);
    assert!(ts[..4].chars().all(|c| c.is_ascii_digit()));
    assert_eq!(&ts[4..5], "-");
    assert_eq!(&ts[10..11], "T");
}

#[test]
fn mapper_types_compare() {
    assert_eq!(MapperType::Boolean, MapperType::Boolean);
    assert_ne!(MapperType::Numerical, MapperType::Categorical);
}
