use oopsie_macros::size::{
    bound_phrase, cap_source_line, exit_code_value, lower_bound, parse_max_size, upper_bound,
    SizeConstraint,
};

#[test]
fn parse_max_size_classifies_values() {
    assert_eq!(parse_max_size(""), Ok(None));
    assert_eq!(parse_max_size("   "), Ok(None));
    assert_eq!(parse_max_size("16"), Ok(Some(16)));
    assert_eq!(parse_max_size("  128  "), Ok(Some(128)));
    assert!(parse_max_size("0").is_err());
    assert!(parse_max_size("abc").is_err());
    assert!(parse_max_size("-5").is_err());
    assert!(parse_max_size("99999999999999999999999999999").is_err());
}

#[test]
fn parse_max_size_messages() {
    assert_eq!(
        parse_max_size("abc"),
        Err("OOPSIE_MAX_ERROR_SIZE is set to a non-numeric value: \"abc\"".to_string())
    );
}

#[test]
fn cap_source_line_names_the_section() {
    assert_eq!(
        cap_source_line("[package.metadata.oopsie] max-size"),
        "\nset by `[package.metadata.oopsie] max-size` in Cargo.toml"
    );
}

#[test]
fn exit_codes_are_nonzero_bytes() {
    assert_eq!(exit_code_value(0), None);
    assert_eq!(exit_code_value(1), Some(1));
    assert_eq!(exit_code_value(255), Some(255));
    assert_eq!(exit_code_value(256), None);
}

#[test]
fn range_constraints_have_bounds() {
    assert!(SizeConstraint::from_range(Some(8), Some(64), false).is_none());
    let c = SizeConstraint::from_range(Some(8), Some(64), true).unwrap();
    assert_eq!(lower_bound(&c), Some(8));
    assert_eq!(upper_bound(&c), Some((64, true)));
    assert!(!bound_phrase(&c).is_empty());
}
