use oopsie_macros::display::{
    format_str_has_placeholder, unescape_format_braces, unmatched_close_brace, DisplayArg,
    DisplayAttr, DisplayScope,
};

fn attr(fmt: &str, args: &[Option<&str>]) -> DisplayAttr {
    DisplayAttr {
        format_str: fmt.to_string(),
        args: args
            .iter()
            .map(|a| DisplayArg { bare_ident: a.map(|s| s.to_string()) })
            .collect(),
    }
}

#[test]
fn placeholder_detection_matches_rustc_escapes() {
    assert!(!format_str_has_placeholder("plain text"));
    assert!(!format_str_has_placeholder("escaped {{ and }}"));
    assert!(!format_str_has_placeholder("a }} lone } close"));
    assert!(format_str_has_placeholder("{field}"));
    assert!(format_str_has_placeholder("positional {}"));
    assert!(format_str_has_placeholder("a {{b}} then {c}"));
    assert!(format_str_has_placeholder("trailing {"));
}

#[test]
fn unescape_collapses_double_braces_in_place() {
    let mut s = "wrap {{names}} and {{{{nested}}}}".to_owned();
    unescape_format_braces(&mut s);
    assert_eq!(s, "wrap {names} and {{nested}}");

    let mut plain = "no braces here".to_owned();
    unescape_format_braces(&mut plain);
    assert_eq!(plain, "no braces here");
}

#[test]
fn unmatched_close_brace_reports_byte_position() {
    assert_eq!(unmatched_close_brace("ok }} then } here"), Some(11));
    assert_eq!(unmatched_close_brace("fine {{ }}"), None);
}

#[test]
fn reject_keyword_args_flags_non_field_keyword() {
    let d = attr("wrapped", &[Some("transparent")]);
    let fields = vec!["source".to_string()];
    assert_eq!(
        d.reject_keyword_args(&fields, DisplayScope::Variant),
        Err("transparent".to_string())
    );
}

#[test]
fn reject_keyword_args_allows_keyword_named_field() {
    let d = attr("{}", &[Some("code")]);
    let fields = vec!["code".to_string()];
    assert_eq!(d.reject_keyword_args(&fields, DisplayScope::Variant), Ok(()));
}

#[test]
fn reject_keyword_args_struct_scope_flags_container_keyword() {
    let d = attr("x", &[Some("size")]);
    let fields = vec!["msg".to_string()];
    assert_eq!(d.reject_keyword_args(&fields, DisplayScope::Variant), Ok(()));
    assert_eq!(
        d.reject_keyword_args(&fields, DisplayScope::Struct),
        Err("size".to_string())
    );
}

#[test]
fn static_display_is_a_literal_without_placeholders() {
    assert!(attr("plain", &[]).is_static());
    assert!(attr("braces {{ok}}", &[]).is_static());
    assert!(!attr("value {x}", &[]).is_static());
    assert!(!attr("plain", &[None]).is_static());
    assert_eq!(attr("a {{b}}", &[]).static_lit(), Ok("a {b}".to_string()));
    assert_eq!(attr("a } b", &[]).static_lit(), Err(2));
}

#[test]
fn keyword_sets_by_scope() {
    assert!(DisplayScope::Variant.is_keyword("display"));
    assert!(!DisplayScope::Variant.is_keyword("module"));
    assert!(DisplayScope::Struct.is_keyword("module"));
    assert!(!DisplayScope::Struct.is_keyword("message"));
}

#[test]
fn unescaping_undoes_brace_doubling() {
    for t in ["a{b}}c", "{}", "}{", "plain", "", "{{x}}", "é{ü}"] {
        let mut s = t.replace('{', "{{").replace('}', "}}");
        unescape_format_braces(&mut s);
        assert_eq!(s, t);
    }
}
