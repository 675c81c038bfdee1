use oopsie_macros::derives::{derive_paths_kept, fix_derives, require_derive_oopsie, FixedAttr, ItemAttr};

fn names(v: &[&str]) -> Vec<String> {
    v.iter().map(|s| s.to_string()).collect()
}

#[test]
fn strips_oopsie_derive_if_present() {
    // `#[derive(Clone, Oopsie)]`
    let attrs = vec![ItemAttr::Derive(names(&["Clone", "Oopsie"]))];
    let (fixed, add_debug) = fix_derives(&attrs, true);
    assert_eq!(fixed, vec![FixedAttr::Rebuild(0)]);
    assert_eq!(derive_paths_kept(&names(&["Clone", "Oopsie"])), vec![0]);
    assert!(add_debug);
}

#[test]
fn debug_false_skips_injected_debug() {
    let (fixed, add_debug) = fix_derives(&vec![], false);
    assert!(fixed.is_empty());
    assert!(!add_debug);
}

#[test]
fn existing_debug_not_duplicated() {
    // `#[derive(Debug, Clone)]`
    let (fixed, add_debug) = fix_derives(&vec![ItemAttr::Derive(names(&["Debug", "Clone"]))], true);
    assert_eq!(fixed, vec![FixedAttr::Rebuild(0)]);
    assert!(!add_debug);
}

#[test]
fn qualified_debug_not_duplicated() {
    // `#[derive(::core::fmt::Debug, Clone)]`: paths are read by their last segment.
    let (_, add_debug) = fix_derives(&vec![ItemAttr::Derive(names(&["Debug", "Clone"]))], true);
    assert!(!add_debug);
}

#[test]
fn qualified_oopsie_stripped() {
    // `#[derive(oopsie::Oopsie)]`: the derive list empties and goes.
    let attrs = vec![ItemAttr::Derive(names(&["Oopsie"])), ItemAttr::Other(vec![])];
    let (fixed, add_debug) = fix_derives(&attrs, true);
    assert_eq!(fixed, vec![FixedAttr::Keep(1)]);
    assert!(add_debug);
}

#[test]
fn cfg_attr_debug_counts_as_present() {
    // `#[cfg_attr(test, derive(Debug))]` and an unparsable derive kept as is.
    let attrs = vec![ItemAttr::Other(vec![names(&["Debug"])]), ItemAttr::UnparsedDerive];
    let (fixed, add_debug) = fix_derives(&attrs, true);
    assert_eq!(fixed, vec![FixedAttr::Keep(0), FixedAttr::Keep(1)]);
    assert!(!add_debug);
}

#[test]
fn traced_requires_derive_oopsie() {
    assert!(require_derive_oopsie(&vec![names(&["Debug", "Oopsie"])]).is_ok());
    let err = require_derive_oopsie(&vec![names(&["Debug"])]).unwrap_err();
    assert!(err.starts_with("`#[traced]` requires `#[derive(Oopsie)]` below it"));
    assert!(err.ends_with("pub enum MyError { ... }"));
}

use oopsie_macros::derives::{read_marker, Marker, MarkerMeta};

fn id(s: &str) -> Option<String> {
    Some(s.to_string())
}

#[test]
fn marker_reads_its_keys() {
    let metas = vec![
        MarkerMeta::Path(id("tracing_active")),
        MarkerMeta::List(id("path")),
        MarkerMeta::List(id("attr_keywords")),
        MarkerMeta::List(id("traced_keywords")),
    ];
    assert_eq!(
        read_marker(&metas),
        Ok(Marker { tracing_active: true, path: Some(1), attr_keywords: Some(2), traced_keywords: Some(3) })
    );
    assert_eq!(
        read_marker(&vec![]),
        Ok(Marker { tracing_active: false, path: None, attr_keywords: None, traced_keywords: None })
    );
}

#[test]
fn marker_refuses_unknown_keys() {
    assert_eq!(read_marker(&vec![MarkerMeta::List(id("attr_keywords")), MarkerMeta::NameValue]), Err(1));
    assert_eq!(read_marker(&vec![MarkerMeta::Path(id("path"))]), Err(0));
    assert_eq!(read_marker(&vec![MarkerMeta::List(None)]), Err(0));
}

#[test]
fn expand_without_derive_oopsie_errors() {
    // `#[traced] #[derive(Debug)] pub struct MyError { .. }`
    let err = require_derive_oopsie(&vec![names(&["Debug"])]).unwrap_err();
    assert_eq!(
        err,
        "`#[traced]` requires `#[derive(Oopsie)]` below it\n\nUsage:\n  #[traced]\n  #[derive(Debug, Oopsie)]\n  pub enum MyError { ... }"
    );
}
