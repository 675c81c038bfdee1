use oopsie_macros::display::{extract_short_display, merge_short_display, AttrBody, DisplayArg, DisplayAttr, DisplayScope, ShortDisplayError};
use oopsie_macros::fields::{ProvideAttr, SourceKind};
use oopsie_macros::flags::{BetterFlag, FieldSetting, ForwardArgs, ResolvedForward, Settings};
use oopsie_macros::size::{exit_code_value, SizeBound, SizeConstraint, SizeExpr, SizeParseError};
use oopsie_macros::types::{PathArgs, PathSegment, TypePath, TypeTree};

// Each test below states the attribute as the attribute reader hands it
// over: `size(..=128)` is a closed range without a start, `#[oopsie("fmt
// {}", arg)]` a short display with one bare argument, and so on.

fn display(fmt: &str, args: &[Option<&str>]) -> DisplayAttr {
    DisplayAttr {
        format_str: fmt.to_string(),
        args: args.iter().map(|a| DisplayArg { bare_ident: a.map(|s| s.to_string()) }).collect(),
    }
}

// ─── SizeConstraint ──────────────────────────────────────────────────

#[test]
fn size_constraint_exact() {
    assert_eq!(SizeConstraint::from_expr(&SizeExpr::Int(64)).unwrap(), SizeConstraint::Exact(64));
}

#[test]
fn size_constraint_at_most() {
    let e = SizeExpr::Range(None, Some(SizeBound::Int(128)), true);
    assert_eq!(SizeConstraint::from_expr(&e).unwrap(), SizeConstraint::AtMost(128));
}

#[test]
fn size_constraint_at_least() {
    let e = SizeExpr::Range(Some(SizeBound::Int(32)), None, false);
    assert_eq!(SizeConstraint::from_expr(&e).unwrap(), SizeConstraint::AtLeast(32));
}

#[test]
fn size_constraint_range() {
    let e = SizeExpr::Range(Some(SizeBound::Int(32)), Some(SizeBound::Int(64)), true);
    assert_eq!(SizeConstraint::from_expr(&e).unwrap(), SizeConstraint::Range(32, 64));
}

#[test]
fn size_constraint_refuses_other_shapes() {
    let half_open = SizeExpr::Range(Some(SizeBound::Int(1)), Some(SizeBound::Int(4)), false);
    assert_eq!(SizeConstraint::from_expr(&half_open), Err(SizeParseError::UnsupportedRange));
    assert_eq!(
        SizeParseError::UnsupportedRange.message(),
        "unsupported range shape (use `..=N`, `N..`, or `N..=M`)"
    );
    let named = SizeExpr::Range(Some(SizeBound::NotInt), Some(SizeBound::Int(4)), true);
    assert_eq!(SizeConstraint::from_expr(&named), Err(SizeParseError::NotIntegerLiteral));
    assert_eq!(SizeConstraint::from_expr(&SizeExpr::Other), Err(SizeParseError::NotIntegerOrRange));
    assert_eq!(
        SizeParseError::NotIntegerOrRange.message(),
        "expected integer or range (e.g. `64`, `..=128`, `32..`, `32..=64`)"
    );
}

// ─── exit_code ───────────────────────────────────────────────────────

#[test]
fn exit_code_accepts_in_range() {
    assert_eq!(exit_code_value(78), Some(78));
    assert_eq!(exit_code_value(1), Some(1));
    assert_eq!(exit_code_value(255), Some(255));
}

#[test]
fn exit_code_rejects_zero() {
    assert_eq!(exit_code_value(0), None);
}

#[test]
fn exit_code_rejects_out_of_range() {
    assert_eq!(exit_code_value(300), None);
}

// ─── static display ──────────────────────────────────────────────────

#[test]
fn is_static_distinguishes_literal_from_interpolated() {
    let plain = display("plain", &[]);
    assert!(plain.is_static());

    let escaped = display("use {{x}}", &[]);
    assert!(escaped.is_static());
    assert_eq!(escaped.static_lit().unwrap(), "use {x}");

    let inline = display("fix {path}", &[]);
    assert!(!inline.is_static());

    let positional = display("hi {}", &[Some("name")]);
    assert!(!positional.is_static());
}

#[test]
fn static_lit_rejects_unmatched_close_brace() {
    display("oops }", &[]).static_lit().unwrap_err();
    assert_eq!(display("ok }}", &[]).static_lit().unwrap(), "ok }");
}

#[test]
fn reject_keyword_args_allows_non_keyword_and_rich_exprs() {
    let d = display("{} {}", &[Some("extra"), None]);
    d.reject_keyword_args(&vec!["whatever".to_string()], DisplayScope::Variant).unwrap();
}

// ─── SourceKind / ProvideAttr ────────────────────────────────────────

#[test]
fn source_kind_from_none_is_no() {
    assert!(matches!(SourceKind::from_none().unwrap(), SourceKind::No));
}

#[test]
fn source_kind_from_false_is_disabled() {
    assert!(matches!(SourceKind::from_bool(false), SourceKind::Disabled));
}

#[test]
fn source_kind_from_true_is_yes() {
    assert!(matches!(SourceKind::from_bool(true), SourceKind::Yes));
}

fn my_type() -> TypeTree {
    TypeTree::Path(TypePath {
        qself: None,
        leading_colon: false,
        segments: vec![PathSegment { ident: "MyType".to_string(), args: PathArgs::Plain }],
    })
}

#[test]
fn provide_attr_value_form() {
    let p = ProvideAttr { ref_kw: false, provided_type: my_type(), expr: "self.value".to_string() };
    assert!(!p.is_ref());
}

#[test]
fn provide_attr_ref_form() {
    let p = ProvideAttr { ref_kw: true, provided_type: my_type(), expr: "self.value.as_ref()".to_string() };
    assert!(p.is_ref());
}

// ─── short display ───────────────────────────────────────────────────

#[test]
fn short_display_extracts_simple_string() {
    let (d, kept) = extract_short_display(vec![AttrBody::Short(display("simple message", &[]))]).unwrap();
    let d = d.expect("expected a display attr");
    assert_eq!(d.format_str, "simple message");
    assert!(d.args.is_empty());
    assert!(kept.is_empty());
}

#[test]
fn short_display_extracts_with_args() {
    let (d, _) = extract_short_display(vec![AttrBody::Short(display("fmt {}", &[Some("arg")]))]).unwrap();
    let d = d.expect("expected a display attr");
    assert_eq!(d.format_str, "fmt {}");
    assert_eq!(d.args.len(), 1);
}

#[test]
fn short_display_allows_non_keyword_call_arg() {
    let (d, _) = extract_short_display(vec![AttrBody::Short(display("fmt {}", &[None]))]).unwrap();
    assert_eq!(d.expect("expected a display attr").args.len(), 1);
}

#[test]
fn short_display_keeps_long_form_attrs() {
    // `#[oopsie(display("fmt"), help = "X")]`
    let (d, kept) = extract_short_display(vec![AttrBody::Other]).unwrap();
    assert!(d.is_none());
    assert_eq!(kept.len(), 1);
}

#[test]
fn short_display_rejects_two() {
    let err = extract_short_display(vec![
        AttrBody::Short(display("first", &[])),
        AttrBody::Short(display("second", &[])),
    ])
    .unwrap_err();
    assert_eq!(err, ShortDisplayError::Second(1));
    assert_eq!(err.message(), "at most one short-display form per item; use `display(...)` if combining");
}

#[test]
fn short_display_passes_through_non_oopsie_attrs() {
    let (d, kept) = extract_short_display(vec![
        AttrBody::NotOopsie,
        AttrBody::Short(display("display me", &[])),
        AttrBody::NotOopsie,
    ])
    .unwrap();
    assert!(d.is_some());
    assert_eq!(kept, vec![0, 2]);
}

#[test]
fn short_display_allows_bare_arg_named_like_keyword() {
    let (d, _) = extract_short_display(vec![AttrBody::Short(display("trace: {}", &[Some("backtrace")]))]).unwrap();
    assert_eq!(d.unwrap().args.len(), 1);
}

#[test]
fn short_display_beside_display_key_is_a_duplicate() {
    let err = merge_short_display(Some(display("long", &[])), display("short", &[])).unwrap_err();
    assert_eq!(err, ShortDisplayError::Duplicate);
    assert_eq!(err.message(), "duplicate display: short form and `display(...)` cannot both be specified");
    assert_eq!(merge_short_display(None, display("short", &[])).unwrap().format_str, "short");
}

// ─── forward ─────────────────────────────────────────────────────────

fn forward_block(backtrace: BetterFlag<true>, spantrace: BetterFlag<true>, location: BetterFlag<false>) -> FieldSetting<false, ForwardArgs> {
    FieldSetting::Settings(Settings { enabled: None, settings: ForwardArgs { backtrace, spantrace, location } })
}

fn nothing() -> ResolvedForward {
    ResolvedForward { backtrace: false, spantrace: false, location: false }
}

#[test]
fn bare_forward_forwards_backtrace_and_spantrace_not_location() {
    let rf = ResolvedForward::resolve(&FieldSetting::Flag(true));
    assert_eq!(rf, ResolvedForward { backtrace: true, spantrace: true, location: false });
}

#[test]
fn forward_disables_backtrace_and_enables_location() {
    let rf = ResolvedForward::resolve(&forward_block(BetterFlag::Disabled, BetterFlag::Default, BetterFlag::Enabled));
    assert_eq!(rf, ResolvedForward { backtrace: false, spantrace: true, location: true });
}

#[test]
fn forward_accepts_paren_flag_spelling() {
    // `forward(location(true))`
    let rf = ResolvedForward::resolve(&forward_block(BetterFlag::Default, BetterFlag::Default, BetterFlag::Enabled));
    assert!(rf.location);
}

#[test]
fn absent_forward_resolves_to_nothing() {
    let rf = ResolvedForward::resolve(&FieldSetting::Flag(false));
    assert_eq!(rf, nothing());
}

#[test]
fn explicit_forward_false_resolves_to_nothing() {
    let rf = ResolvedForward::resolve(&FieldSetting::Flag(false));
    assert_eq!(rf, nothing());
}
