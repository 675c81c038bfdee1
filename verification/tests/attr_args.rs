use oopsie_macros::attr_args::{
    check_top_args, display_string_message, effective_traced, is_container_key, is_nested_only, nested_only_message,
    split_container_keys, AttrArgsError,
    TopArg, TracedFrom,
};

fn meta(name: &str) -> TopArg {
    TopArg::Meta(Some(name.to_string()))
}

fn nested_error(args: Vec<TopArg>, suggestion: &str) -> String {
    match check_top_args(&args) {
        Err(AttrArgsError::NestedOnly(k)) => {
            let TopArg::Meta(Some(ident)) = &args[k] else { panic!("not a keyword argument") };
            nested_only_message(ident, suggestion)
        }
        other => panic!("expected a nested-only refusal, got {other:?}"),
    }
}

#[test]
fn top_level_trace_arg_points_at_nested_form() {
    let err = nested_error(vec![meta("backtrace")], "backtrace");
    assert!(err.contains("traced(backtrace)"), "{err}");
}

#[test]
fn top_level_packed_points_at_nested_form() {
    let err = nested_error(vec![meta("traced"), meta("packed")], "packed = false");
    assert!(err.contains("traced(packed = false)"), "{err}");
}

#[test]
fn top_level_code_points_at_nested_form() {
    let err = nested_error(vec![meta("code")], "code = false");
    assert!(err.contains("traced(code = false)"), "{err}");
}

#[test]
fn top_level_location_points_at_nested_form() {
    let err = nested_error(vec![meta("location")], "location");
    assert!(err.contains("traced(location)"), "{err}");
    assert_eq!(err, "`location` must be nested inside `traced(...)`, e.g. `#[oopsie::oopsie(traced(location))]`");
}

#[test]
fn display_string_in_macro_args_gets_targeted_error() {
    assert_eq!(check_top_args(&vec![TopArg::StrLit]), Err(AttrArgsError::DisplayString(0)));
    assert!(display_string_message().contains("separate"));
}

#[test]
fn display_string_in_non_first_position_gets_targeted_error() {
    assert_eq!(check_top_args(&vec![meta("traced"), TopArg::StrLit]), Err(AttrArgsError::DisplayString(1)));
}

#[test]
fn display_string_is_reported_before_a_misplaced_option() {
    assert_eq!(check_top_args(&vec![meta("backtrace"), TopArg::StrLit]), Err(AttrArgsError::DisplayString(1)));
}

#[test]
fn ordinary_arguments_pass() {
    assert_eq!(check_top_args(&vec![meta("traced"), meta("debug"), meta("path"), TopArg::Other]), Ok(()));
    assert_eq!(check_top_args(&vec![TopArg::Meta(None)]), Ok(()));
    assert!(is_nested_only("spantrace") && is_nested_only("boxed") && is_nested_only("timestamp"));
    assert!(!is_nested_only("traced"));
}

#[test]
fn traced_false_disables_injection() {
    assert_eq!(effective_traced(Some(false), Some(true)), None);
}

#[test]
fn attribute_traced_wins_over_the_project_default() {
    assert_eq!(effective_traced(Some(true), Some(false)), Some(TracedFrom::Attr));
    assert_eq!(effective_traced(None, Some(true)), Some(TracedFrom::Default));
    assert_eq!(effective_traced(None, Some(false)), None);
    assert_eq!(effective_traced(None, None), None);
}

#[test]
fn container_keys_are_told_apart_by_name() {
    let keys: Vec<String> = ["module", "display", "vis", "transparent", "size", "path", "suffix", "code"]
        .iter()
        .map(|k| k.to_string())
        .collect();
    let (container, rest) = split_container_keys(&keys);
    assert_eq!(container, vec![0, 2, 4, 5, 6]);
    assert_eq!(rest, vec![1, 3, 7]);
    assert!(is_container_key("vis") && !is_container_key("help"));
}
