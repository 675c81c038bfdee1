use oopsie_macros::cfg_exist::{existence_text, ExistMeta};

fn cfg(p: &str) -> ExistMeta {
    ExistMeta::Cfg(p.to_string())
}

fn cfg_attr(q: &str, inner: Vec<ExistMeta>) -> ExistMeta {
    ExistMeta::CfgAttr(q.to_string(), inner)
}

#[test]
fn ungated_field_has_no_existence_predicate() {
    assert_eq!(existence_text(&vec![]), None);
    assert_eq!(existence_text(&vec![ExistMeta::Other]), None);
}

#[test]
fn cfg_gives_its_predicate() {
    assert_eq!(existence_text(&vec![cfg("feature = \"x\"")]), Some("feature = \"x\"".to_string()));
}

#[test]
fn nested_cfg_applies_only_when_the_outer_predicate_holds() {
    let attrs = vec![cfg_attr("unix", vec![cfg("feature = \"x\"")])];
    assert_eq!(existence_text(&attrs), Some("any(not(unix), feature = \"x\")".to_string()));
}

#[test]
fn cfg_attr_gating_no_cfg_contributes_nothing() {
    let attrs = vec![cfg_attr("unix", vec![ExistMeta::Other]), ExistMeta::Other];
    assert_eq!(existence_text(&attrs), None);
}

#[test]
fn several_predicates_are_all_required() {
    let attrs = vec![cfg("a"), ExistMeta::Other, cfg_attr("q", vec![cfg("b"), cfg("c")])];
    assert_eq!(existence_text(&attrs), Some("all(a, any(not(q), all(b, c)))".to_string()));
}

#[test]
fn deeply_nested_cfg_attr_is_unwound() {
    let attrs = vec![cfg_attr("q", vec![cfg_attr("r", vec![cfg("p")])])];
    assert_eq!(existence_text(&attrs), Some("any(not(q), any(not(r), p))".to_string()));
}
