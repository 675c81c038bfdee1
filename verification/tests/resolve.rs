use oopsie_macros::categorize::{Field, Fields};
use oopsie_macros::display::{DisplayArg, DisplayAttr};
use oopsie_macros::fields::{FieldAttrs, SourceKind};
use oopsie_macros::flags::{BetterFlag, EnumContainerAttrsInner, FieldSetting, MaybeAloneOopsieValue};
use oopsie_macros::resolve::{
    type_is_self, HasHelp, ResolveError, ResolvedEnum, ResolvedStruct, StructAttrs, VariantAttrs,
    VariantInput,
};
use oopsie_macros::messages::selector_collision_message;
use oopsie_macros::naming::selector_name;
use oopsie_macros::types::{AngleArgs, GenericArg, PathArgs, PathSegment, TypePath, TypeTree};

fn ty(name: &str) -> TypeTree {
    TypeTree::Path(TypePath {
        qself: None,
        leading_colon: false,
        segments: vec![PathSegment { ident: name.to_string(), args: PathArgs::Plain }],
    })
}

fn boxed(inner: TypeTree) -> TypeTree {
    TypeTree::Path(TypePath {
        qself: None,
        leading_colon: false,
        segments: vec![PathSegment {
            ident: "Box".to_string(),
            args: PathArgs::Angle(AngleArgs { colon2: false, args: vec![GenericArg::Type(inner)], trailing: false }),
        }],
    })
}

fn fattrs() -> FieldAttrs {
    FieldAttrs {
        from: SourceKind::No,
        capture: BetterFlag::Default,
        provide: vec![],
        backtrace: false,
        spantrace: false,
        traces: false,
        location: false,
        help: false,
        forward: FieldSetting::Flag(false),
    }
}

fn field(name: &str, t: TypeTree) -> Field {
    Field { ident: Some(name.to_string()), ty: t, attrs: fattrs(), has_cfg: false }
}

fn vattrs() -> VariantAttrs {
    VariantAttrs { display: None, transparent: false, help: None, code: None, exit_code: None, provides: vec![], vis: None }
}

fn container() -> EnumContainerAttrsInner<String, String> {
    EnumContainerAttrsInner { module: None, suffix: None, size: None, path: None, exit_code: None }
}

fn variant(name: &str, fields: Vec<Field>, attrs: VariantAttrs) -> VariantInput {
    let names = fields.iter().filter_map(|f| f.ident.clone()).collect();
    VariantInput { ident: name.to_string(), fields: Fields::Named(fields), field_names: names, attrs: Ok(attrs), has_cfg: false }
}

fn display(fmt: &str, bare: &[&str]) -> DisplayAttr {
    DisplayAttr {
        format_str: fmt.to_string(),
        args: bare.iter().map(|b| DisplayArg { bare_ident: Some(b.to_string()) }).collect(),
    }
}

#[test]
fn resolves_selectors_for_plain_variants() {
    let vs = vec![
        variant("NotFound", vec![field("path", ty("String"))], vattrs()),
        variant("IoError", vec![field("source", ty("io::Error"))], vattrs()),
    ];
    let r = ResolvedEnum::resolve("MyError", &container(), vs).ok().unwrap();
    assert_eq!(r.variants.len(), 2);
    assert_eq!(r.variants[0].selector_ident.as_ref().unwrap().text(), "NotFound");
    assert_eq!(r.variants[1].selector_ident.as_ref().unwrap().text(), "Io");
    assert!(r.variants[1].fields.source.is_some());
    assert!(!r.any_variant_cfg);
}

#[test]
fn selector_collisions_are_refused() {
    let vs = vec![variant("Io", vec![], vattrs()), variant("IoError", vec![], vattrs())];
    assert_eq!(ResolvedEnum::resolve("E", &container(), vs).err(), Some(ResolveError::SelectorCollision(0, 1)));
    let vs = vec![variant("MyError", vec![], vattrs())];
    assert_eq!(ResolvedEnum::resolve("My", &container(), vs).err(), Some(ResolveError::SelectorMatchesEnum(0)));
}

#[test]
fn cfg_gated_variants_may_share_selectors() {
    let mut a = variant("Io", vec![], vattrs());
    a.has_cfg = true;
    let mut b = variant("IoError", vec![], vattrs());
    b.has_cfg = true;
    let r = ResolvedEnum::resolve("E", &container(), vec![a, b]).ok().unwrap();
    assert!(r.any_variant_cfg);
}

#[test]
fn transparent_variants_need_a_source_and_no_user_fields() {
    let t = VariantAttrs { transparent: true, ..vattrs() };
    let vs = vec![variant("Wrapped", vec![field("msg", ty("String"))], t)];
    assert_eq!(ResolvedEnum::resolve("E", &container(), vs).err(), Some(ResolveError::TransparentNoSource(0)));
    let t = VariantAttrs { transparent: true, ..vattrs() };
    let vs = vec![variant("Wrapped", vec![field("source", ty("io::Error")), field("msg", ty("String"))], t)];
    assert_eq!(ResolvedEnum::resolve("E", &container(), vs).err(), Some(ResolveError::TransparentUserField(0, 1)));
    let t = VariantAttrs { transparent: true, vis: Some("pub".to_string()), ..vattrs() };
    let vs = vec![variant("Wrapped", vec![field("source", ty("io::Error"))], t)];
    assert_eq!(ResolvedEnum::resolve("E", &container(), vs).err(), Some(ResolveError::TransparentVis(0)));
}

#[test]
fn transparent_sources_must_differ() {
    let t1 = VariantAttrs { transparent: true, ..vattrs() };
    let t2 = VariantAttrs { transparent: true, ..vattrs() };
    let vs = vec![
        variant("A", vec![field("source", ty("io::Error"))], t1),
        variant("B", vec![field("source", boxed(ty("io::Error")))], t2),
    ];
    assert_eq!(ResolvedEnum::resolve("E", &container(), vs).err(), Some(ResolveError::TransparentCollision(0, 1)));
}

#[test]
fn boxed_self_transparent_source_is_refused() {
    let t = VariantAttrs { transparent: true, ..vattrs() };
    let vs = vec![variant("Nested", vec![field("source", boxed(ty("E")))], t)];
    assert_eq!(ResolvedEnum::resolve("E", &container(), vs).err(), Some(ResolveError::TransparentBoxedSelf(0)));
    assert!(type_is_self(&ty("Self"), "E"));
    assert!(!type_is_self(&ty("Other"), "E"));
}

#[test]
fn phases_report_in_order() {
    // A categorize error in a later variant beats an attribute error in an earlier one.
    let bad_attrs = VariantInput { attrs: Err("bad key".to_string()), ..variant("A", vec![], vattrs()) };
    let tuple = VariantInput { fields: Fields::Unnamed, ..variant("B", vec![], vattrs()) };
    let r = ResolvedEnum::resolve("E", &container(), vec![bad_attrs, tuple]).err();
    assert!(matches!(r, Some(ResolveError::Categorize(1, _))));
    let bad_attrs = VariantInput { attrs: Err("bad key".to_string()), ..variant("A", vec![], vattrs()) };
    assert_eq!(
        ResolvedEnum::resolve("E", &container(), vec![bad_attrs]).err(),
        Some(ResolveError::Attrs(0, "bad key".to_string()))
    );
}

#[test]
fn display_keywords_and_help_conflicts() {
    let with_kw = VariantAttrs { display: Some(display("wrapped", &["transparent"])), ..vattrs() };
    let vs = vec![variant("A", vec![field("source", ty("io::Error"))], with_kw)];
    assert_eq!(
        ResolvedEnum::resolve("E", &container(), vs).err(),
        Some(ResolveError::DisplayKeyword(0, "transparent".to_string()))
    );
    let mut help_field = field("hint", ty("String"));
    help_field.attrs.help = true;
    let with_help = VariantAttrs { help: Some(display("static help", &[])), ..vattrs() };
    assert!(with_help.help_attr().is_some());
    let vs = vec![variant("A", vec![help_field], with_help)];
    assert_eq!(ResolvedEnum::resolve("E", &container(), vs).err(), Some(ResolveError::HelpConflict(0)));
}

fn sattrs() -> StructAttrs {
    StructAttrs { container: container(), vis: None, display: None, transparent: false, help: None, code: None, provides: vec![] }
}

#[test]
fn struct_selector_defaults_to_oopsie_suffix() {
    let r = ResolvedStruct::resolve("ConnError", Fields::Named(vec![field("addr", ty("String"))]), &vec!["addr".to_string()], &sattrs());
    assert!(r.is_ok());
    let off = StructAttrs {
        container: EnumContainerAttrsInner { suffix: Some(MaybeAloneOopsieValue::Bool(false)), ..container() },
        ..sattrs()
    };
    assert_eq!(
        ResolvedStruct::resolve("Conn", Fields::Unit, &vec![], &off).err(),
        Some(ResolveError::SelectorMatchesStruct)
    );
    let off_with_module = StructAttrs {
        container: EnumContainerAttrsInner {
            suffix: Some(MaybeAloneOopsieValue::Bool(false)),
            module: Some(MaybeAloneOopsieValue::Alone),
            ..container()
        },
        ..sattrs()
    };
    assert!(ResolvedStruct::resolve("Conn", Fields::Unit, &vec![], &off_with_module).is_ok());
}

#[test]
fn transparent_struct_refuses_naming_keys() {
    let t = StructAttrs {
        transparent: true,
        container: EnumContainerAttrsInner { suffix: Some(MaybeAloneOopsieValue::Alone), ..container() },
        ..sattrs()
    };
    assert_eq!(
        ResolvedStruct::resolve("W", Fields::Named(vec![field("source", ty("io::Error"))]), &vec!["source".to_string()], &t).err(),
        Some(ResolveError::TransparentSuffix)
    );
    let t = StructAttrs { transparent: true, ..sattrs() };
    assert!(ResolvedStruct::resolve("W", Fields::Named(vec![field("source", ty("io::Error"))]), &vec!["source".to_string()], &t).is_ok());
    let m = StructAttrs {
        transparent: true,
        container: EnumContainerAttrsInner { module: Some(MaybeAloneOopsieValue::Bool(true)), ..container() },
        ..sattrs()
    };
    assert_eq!(
        ResolvedStruct::resolve("W", Fields::Named(vec![field("source", ty("io::Error"))]), &vec!["source".to_string()], &m).err(),
        Some(ResolveError::TransparentModule)
    );
}

#[test]
fn selector_collision_after_error_stripping_errors() {
    let vs = vec![variant("Read", vec![], vattrs()), variant("ReadError", vec![], vattrs())];
    let err = ResolvedEnum::resolve("AppError", &container(), vs).err();
    assert_eq!(err, Some(ResolveError::SelectorCollision(0, 1)));
    let selector = selector_name("ReadError", &container().effective_suffix(true)).unwrap().text();
    let (msg, _) = selector_collision_message("Read", "ReadError", &selector);
    assert!(msg.contains("both generate a selector named"), "{msg}");
}
