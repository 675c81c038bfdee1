use oopsie_macros::flags::SuffixSetting;
use oopsie_macros::naming::{classify_ident, module_name, module_name_from_snake, selector_name, GenIdent, ReservedName};

#[test]
fn selector_strips_error_and_applies_suffix() {
    let id = selector_name("NotFoundError", &SuffixSetting::Off).unwrap();
    assert_eq!(id, GenIdent { name: "NotFound".to_string(), raw: false });
    let id = selector_name("ConnError", &SuffixSetting::Custom("Oopsie".to_string())).unwrap();
    assert_eq!(id.text(), "ConnOopsie");
    // A name that is exactly `Error` keeps it.
    let id = selector_name("Error", &SuffixSetting::Off).unwrap();
    assert_eq!(id.name, "Error");
}

#[test]
fn selector_of_raw_keyword_is_raw() {
    let id = selector_name("r#try", &SuffixSetting::Off).unwrap();
    assert_eq!(id, GenIdent { name: "try".to_string(), raw: true });
    assert_eq!(id.text(), "r#try");
    let id = selector_name("TypeError", &SuffixSetting::Off).unwrap();
    assert_eq!(id.text(), "Type");
}

#[test]
fn reserved_selector_names_are_refused() {
    assert_eq!(selector_name("selfError", &SuffixSetting::Off), Err(ReservedName { name: "self".to_string() }));
    assert_eq!(classify_ident("crate".to_string(), false), Err(ReservedName { name: "crate".to_string() }));
    assert_eq!(classify_ident("match".to_string(), false), Ok(GenIdent { name: "match".to_string(), raw: true }));
    assert_eq!(classify_ident("plain".to_string(), true), Ok(GenIdent { name: "plain".to_string(), raw: false }));
}

#[test]
fn module_names_are_snake_cased_with_suffix() {
    assert_eq!(module_name("ConfigError", None, None), "config_oopsies");
    assert_eq!(module_name("HttpRequestError", None, Some(&"errors".to_string())), "http_request_errors");
    assert_eq!(module_name("Error", None, None), "oopsies");
    assert_eq!(module_name("Whatever", Some(&"custom".to_string()), None), "custom");
    assert_eq!(module_name_from_snake("".to_string(), None), "oopsies");
    assert_eq!(module_name_from_snake("db".to_string(), Some(&"e".to_string())), "db_e");
}

#[test]
fn module_vis_mirrors_error_type_vis() {
    // The module is named after the type; its visibility is the type's own.
    assert_eq!(module_name("InternalError", None, None), "internal_oopsies");
    assert_eq!(module_name("PrivError", None, None), "priv_oopsies");
}
