use oopsie_macros::categorize::{CategorizeError, CategorizedFields, Field, Fields};
use oopsie_macros::pretty::Pretty;
use oopsie_macros::fields::{FieldAttrs, FieldAttrsError, ProvideAttr, SourceKind, TraceRole};
use oopsie_macros::flags::{BetterFlag, FieldSetting, ForwardArgs, Settings};
use oopsie_macros::types::{AngleArgs, GenericArg, PathArgs, PathSegment, PunctStrs, TypePath, TypeTree};

fn ty(name: &str) -> TypeTree {
    TypeTree::Path(TypePath {
        qself: None,
        leading_colon: false,
        segments: vec![PathSegment { ident: name.to_string(), args: PathArgs::Plain }],
    })
}

fn generic(name: &str, args: Vec<TypeTree>) -> TypeTree {
    TypeTree::Path(TypePath {
        qself: None,
        leading_colon: false,
        segments: vec![PathSegment {
            ident: name.to_string(),
            args: PathArgs::Angle(AngleArgs {
                colon2: false,
                args: args.into_iter().map(GenericArg::Type).collect(),
                trailing: false,
            }),
        }],
    })
}

fn traces_ty() -> TypeTree {
    TypeTree::Tuple(vec![ty("Backtrace"), ty("SpanTrace")], false)
}

fn location_ty() -> TypeTree {
    TypeTree::Reference(Some("'static".to_string()), false, Box::new(generic("Location", vec![])))
}

fn attrs() -> FieldAttrs {
    FieldAttrs {
        from: SourceKind::No,
        capture: BetterFlag::Default,
        provide: vec![],
        backtrace: false,
        spantrace: false,
        traces: false,
        location: false,
        help: false,
        forward: FieldSetting::Flag(false),
    }
}

fn field(name: &str, t: TypeTree, a: FieldAttrs) -> Field {
    Field { ident: Some(name.to_string()), ty: t, attrs: a, has_cfg: false }
}

fn names_auto(c: &CategorizedFields) -> Vec<String> {
    c.auto_fields.iter().map(|f| f.ident.clone()).collect()
}

fn names_user(c: &CategorizedFields) -> Vec<String> {
    c.user_fields.iter().map(|f| f.ident.clone()).collect()
}

#[test]
fn type_shapes_are_detected_by_last_segment() {
    assert!(ty("Backtrace").is_backtrace_type());
    assert!(generic("Box", vec![ty("Backtrace")]).is_backtrace_type());
    assert!(!ty("String").is_backtrace_type());
    assert!(ty("SpanTrace").is_spantrace_type());
    assert!(traces_ty().is_traces_type());
    assert!(generic("Box", vec![traces_ty()]).is_traces_type());
    assert!(!TypeTree::Tuple(vec![ty("SpanTrace"), ty("Backtrace")], false).is_traces_type());
    assert!(location_ty().is_location_type());
    assert!(TypeTree::Paren(Box::new(location_ty())).is_location_type());
    assert!(ty("SystemTime").is_timestamp_type());
    assert!(ty("DateTime").is_timestamp_type());
}

#[test]
fn extract_boxed_inner_finds_the_first_type_argument() {
    let boxed = generic("Box", vec![ty("String")]);
    assert_eq!(boxed.extract_boxed_inner().map(|t| t.pretty_text_for_test()), Some("String".to_string()));
    assert!(ty("String").extract_boxed_inner().is_none());
    assert!(generic("Vec", vec![ty("String")]).extract_boxed_inner().is_none());
}

trait PrettyForTest {
    fn pretty_text_for_test(&self) -> String;
}

impl PrettyForTest for TypeTree {
    fn pretty_text_for_test(&self) -> String {
        Pretty::pretty(self)
    }
}

#[test]
fn peel_groups_removes_parens_and_groups() {
    let t = TypeTree::Paren(Box::new(TypeTree::Group(Box::new(ty("T")))));
    assert_eq!(t.peel_groups().pretty_text_for_test(), "T");
}

#[test]
fn trace_roles_by_type_and_key() {
    let ts = ty("Stamp");
    let r = TraceRole::of_type(&ty("Stamp"), &ts);
    assert!(r.timestamp && !r.backtrace);
    assert!(r.any());
    let r = TraceRole::of_type(&ty("Other"), &ts);
    assert!(!r.any());
    let mut a = attrs();
    a.location = true;
    let r = TraceRole::of_field(&ty("u8"), &a, &ts);
    assert!(r.location && !r.timestamp);
    assert!(TraceRole::of_type(&ty("Backtrace"), &ts).backtrace);
}

#[test]
fn field_named_source_becomes_the_source() {
    let a = attrs().from_field(&Some("source".to_string()), &ty("io::Error")).unwrap();
    assert!(matches!(a.from, SourceKind::Yes));
    assert!(a.is_source());
    let a = attrs().from_field(&Some("other".to_string()), &ty("io::Error")).unwrap();
    assert!(!a.is_source());
    let mut disabled = attrs();
    disabled.from = SourceKind::Disabled;
    let a = disabled.from_field(&Some("source".to_string()), &ty("io::Error")).unwrap();
    assert!(!a.is_source());
}

#[test]
fn boxed_sources_are_auto_boxed_unless_trait_objects() {
    let a = attrs().from_field(&Some("source".to_string()), &generic("Box", vec![ty("io::Error")])).unwrap();
    assert!(matches!(a.from, SourceKind::AutoBoxed));
    let dyn_err = TypeTree::TraitObject(PunctStrs { items: vec!["Error".to_string()], trailing: false });
    let a = attrs().from_field(&Some("source".to_string()), &generic("Box", vec![TypeTree::Paren(Box::new(dyn_err))])).unwrap();
    assert!(matches!(a.from, SourceKind::Yes));
}

#[test]
fn trace_keys_imply_capture_and_conflict_with_opt_out() {
    let mut a = attrs();
    a.backtrace = true;
    a.capture = BetterFlag::Disabled;
    assert_eq!(a.from_field(&Some("bt".to_string()), &ty("Backtrace")).err(), Some(FieldAttrsError::CaptureConflict));
    let mut a = attrs();
    a.location = true;
    let done = a.from_field(&Some("loc".to_string()), &location_ty()).unwrap();
    assert!(matches!(done.capture, BetterFlag::Enabled));
    let typed = attrs().from_field(&Some("bt".to_string()), &ty("Backtrace")).unwrap();
    assert!(matches!(typed.capture, BetterFlag::Enabled));
}

#[test]
fn capture_false_keeps_trace_typed_field_on_selector() {
    let mut a = attrs();
    a.capture = BetterFlag::Disabled;
    let fields = Fields::Named(vec![field("bt", ty("Backtrace"), a), field("msg", ty("String"), attrs())]);
    let c = CategorizedFields::from_fields(fields).ok().unwrap();
    assert!(names_user(&c).contains(&"bt".to_string()));
    assert!(!names_auto(&c).contains(&"bt".to_string()));
    assert_eq!(c.backtrace_field.as_ref().map(|f| f.ident.clone()), Some("bt".to_string()));
}

#[test]
fn capture_false_with_backtrace_flag_errors() {
    let mut a = attrs();
    a.backtrace = true;
    a.capture = BetterFlag::Disabled;
    let fields = Fields::Named(vec![field("bt", ty("Backtrace"), a)]);
    assert_eq!(CategorizedFields::from_fields(fields).err(), Some(CategorizeError::CaptureConflict(0)));
}

#[test]
fn categorize_detects_packed_traces_field_by_attr() {
    let mut a = attrs();
    a.traces = true;
    let fields = Fields::Named(vec![field("t", generic("Box", vec![traces_ty()]), a), field("msg", ty("String"), attrs())]);
    let c = CategorizedFields::from_fields(fields).ok().unwrap();
    assert_eq!(c.traces_field.as_ref().map(|f| f.ident.clone()), Some("t".to_string()));
    assert!(names_auto(&c).contains(&"t".to_string()));
    assert!(c.backtrace_field.is_none());
    assert!(c.spantrace_field.is_none());
}

#[test]
fn categorize_detects_packed_traces_field_by_type() {
    let fields = Fields::Named(vec![field("t", traces_ty(), attrs())]);
    let c = CategorizedFields::from_fields(fields).ok().unwrap();
    assert!(c.traces_field.is_some());
    assert!(names_auto(&c).contains(&"t".to_string()));
}

#[test]
fn categorize_ignores_wrongly_typed_trace_named_fields() {
    let fields = Fields::Named(vec![
        field("backtrace", ty("String"), attrs()),
        field("spantrace", ty("u32"), attrs()),
        field("traces", generic("Vec", vec![ty("String")]), attrs()),
    ]);
    let c = CategorizedFields::from_fields(fields).ok().unwrap();
    assert!(c.backtrace_field.is_none());
    assert!(c.spantrace_field.is_none());
    assert!(c.traces_field.is_none());
    assert_eq!(names_user(&c), vec!["backtrace".to_string(), "spantrace".to_string(), "traces".to_string()]);
    assert!(names_auto(&c).is_empty());
}

#[test]
fn categorize_classifies_trace_fields_by_type_regardless_of_name() {
    let fields = Fields::Named(vec![field("bt", ty("Backtrace"), attrs()), field("st", ty("SpanTrace"), attrs())]);
    let c = CategorizedFields::from_fields(fields).ok().unwrap();
    assert_eq!(c.backtrace_field.as_ref().map(|f| f.ident.clone()), Some("bt".to_string()));
    assert_eq!(c.spantrace_field.as_ref().map(|f| f.ident.clone()), Some("st".to_string()));
}

#[test]
fn categorize_rejects_explicit_backtrace_attr_on_wrong_type() {
    let mut a = attrs();
    a.backtrace = true;
    let fields = Fields::Named(vec![field("b", ty("String"), a)]);
    assert_eq!(CategorizedFields::from_fields(fields).err(), Some(CategorizeError::NotBacktraceType(0)));
}

#[test]
fn categorize_rejects_packed_traces_alongside_standalone_backtrace() {
    let fields = Fields::Named(vec![field("traces", traces_ty(), attrs()), field("bt", ty("Backtrace"), attrs())]);
    assert_eq!(CategorizedFields::from_fields(fields).err(), Some(CategorizeError::TracesWithBacktrace(1)));
}

#[test]
fn categorize_splits_source_auto_and_user_fields() {
    let mut p = attrs();
    p.provide = vec![ProvideAttr { ref_kw: true, provided_type: ty("Code"), expr: "self.code".to_string() }];
    let fields = Fields::Named(vec![
        field("source", ty("io::Error"), attrs()),
        field("bt", ty("Backtrace"), attrs()),
        field("path", ty("String"), p),
    ]);
    let c = CategorizedFields::from_fields(fields).ok().unwrap();
    let src = c.source.as_ref().unwrap();
    assert_eq!(src.ident, "source");
    assert_eq!(src.index, 0);
    assert_eq!(names_auto(&c), vec!["bt".to_string()]);
    assert_eq!(names_user(&c), vec!["path".to_string()]);
    assert_eq!(c.provides.len(), 1);
    assert_eq!(c.provides[0].0, "path");
    assert!(c.provides[0].1.is_ref());
}

#[test]
fn categorize_refuses_duplicates_and_stray_forward() {
    let fields = Fields::Named(vec![field("source", ty("A"), attrs()), field("cause", ty("B"), FieldAttrs { from: SourceKind::Yes, ..attrs() })]);
    assert_eq!(CategorizedFields::from_fields(fields).err(), Some(CategorizeError::DuplicateSource(1)));
    let fields = Fields::Named(vec![field("a", ty("Backtrace"), attrs()), field("b", ty("Backtrace"), attrs())]);
    assert_eq!(CategorizedFields::from_fields(fields).err(), Some(CategorizeError::DuplicateBacktrace(1)));
    let mut h = attrs();
    h.help = true;
    let mut h2 = attrs();
    h2.help = true;
    let fields = Fields::Named(vec![field("a", ty("String"), h), field("b", ty("String"), h2)]);
    assert_eq!(CategorizedFields::from_fields(fields).err(), Some(CategorizeError::DuplicateHelp(1)));
    let fw = FieldAttrs { forward: FieldSetting::Flag(true), ..attrs() };
    let fields = Fields::Named(vec![field("not_source", ty("A"), fw)]);
    assert_eq!(CategorizedFields::from_fields(fields).err(), Some(CategorizeError::ForwardWithoutSource(0)));
}

#[test]
fn forwarded_traces_conflict_with_own_trace_fields() {
    let fw = FieldAttrs { forward: FieldSetting::Flag(true), ..attrs() };
    let fields = Fields::Named(vec![field("source", ty("A"), fw), field("bt", ty("Backtrace"), attrs())]);
    assert_eq!(CategorizedFields::from_fields(fields).err(), Some(CategorizeError::ForwardedBacktraceConflict(0)));
    let only_location = FieldAttrs {
        forward: FieldSetting::Settings(Settings {
            enabled: None,
            settings: ForwardArgs { backtrace: BetterFlag::Disabled, spantrace: BetterFlag::Disabled, location: BetterFlag::Enabled },
        }),
        ..attrs()
    };
    let fields = Fields::Named(vec![field("source", ty("A"), only_location), field("bt", ty("Backtrace"), attrs()), field("at", location_ty(), attrs())]);
    assert_eq!(CategorizedFields::from_fields(fields).err(), Some(CategorizeError::ForwardedLocationConflict(0)));
}

#[test]
fn unit_and_tuple_field_lists() {
    let c = CategorizedFields::from_fields(Fields::Unit).ok().unwrap();
    assert!(c.source.is_none() && c.auto_fields.is_empty() && c.user_fields.is_empty());
    assert_eq!(CategorizedFields::from_fields(Fields::Unnamed).err(), Some(CategorizeError::TupleFields));
    assert_eq!(CategorizeError::TupleFields.message(), "#[derive(Oopsie)] does not support tuple variants/structs");
}
