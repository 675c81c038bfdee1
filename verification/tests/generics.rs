use oopsie_macros::fields::ProvideAttr;
use oopsie_macros::generics::{DeclaredParams, GenericParamName};
use oopsie_macros::meta::{provide_emit, MetaSet, MetaType, ProvideEmit};
use oopsie_macros::types::{PathArgs, PathSegment, TypePath, TypeTree};

fn ty(path: &[&str]) -> TypeTree {
    TypeTree::Path(TypePath {
        qself: None,
        leading_colon: false,
        segments: path.iter().map(|s| PathSegment { ident: s.to_string(), args: PathArgs::Plain }).collect(),
    })
}

fn provide(ref_kw: bool, path: &[&str]) -> ProvideAttr {
    ProvideAttr { ref_kw, provided_type: ty(path), expr: "x".to_string() }
}

#[test]
fn declared_params_by_kind() {
    let d = DeclaredParams::from_params(vec![
        GenericParamName::Lifetime("a".to_string()),
        GenericParamName::Type("T".to_string()),
        GenericParamName::Const("N".to_string()),
    ]);
    assert_eq!(d.types, vec!["T".to_string()]);
    assert_eq!(d.consts, vec!["N".to_string()]);
    assert_eq!(d.lifetimes, vec!["a".to_string()]);
    assert!(d.contains("T") && d.contains("N"));
    // A lifetime's name does not block a synthetic type parameter.
    assert!(!d.contains("a"));
    assert!(!d.contains("__T0"));
}

#[test]
fn meta_types_are_named_by_their_last_segment() {
    assert_eq!(MetaType::named_by(&provide(true, &["oopsie", "ErrorCode"])), Some(MetaType::ErrorCode));
    assert_eq!(MetaType::named_by(&provide(true, &["HelpText"])), Some(MetaType::HelpText));
    assert_eq!(MetaType::named_by(&provide(true, &["String"])), None);
    assert_eq!(MetaType::ErrorCode.ident(), "ErrorCode");
    assert_eq!(MetaType::HelpText.ident(), "HelpText");
}

#[test]
fn provide_emission_by_kind() {
    let mut probes = MetaSet::empty();
    assert_eq!(provide_emit(&provide(false, &["ErrorCode"]), MetaSet::empty(), &mut probes), ProvideEmit::Value);
    assert_eq!(probes, MetaSet::empty());
    assert_eq!(provide_emit(&provide(true, &["String"]), MetaSet::empty(), &mut probes), ProvideEmit::Ref);
    assert_eq!(probes, MetaSet::empty());
    let own = MetaSet { code: true, help: false };
    assert_eq!(
        provide_emit(&provide(true, &["ErrorCode"]), own, &mut probes),
        ProvideEmit::RefUnlessOwn(MetaType::ErrorCode)
    );
    assert_eq!(
        provide_emit(&provide(true, &["HelpText"]), own, &mut probes),
        ProvideEmit::RefAndValue(MetaType::HelpText)
    );
    assert!(probes.contains(MetaType::ErrorCode) && probes.contains(MetaType::HelpText));
}
