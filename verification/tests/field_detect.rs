use oopsie_macros::categorize::Field;
use oopsie_macros::fields::{FieldAttrs, SourceKind};
use oopsie_macros::flags::{BetterFlag, FieldSetting};
use oopsie_macros::flags::{TracedArgs, TracedDefaults, Tristate};
use oopsie_macros::inject::{auto_code_name, check_existing_fields, decide, wants_auto_code, Decision, InjectError, ItemFacts, MangledName};
use oopsie_macros::pretty::Pretty;
use oopsie_macros::types::{AngleArgs, GenericArg, PathArgs, PathSegment, PunctStrs, TypePath, TypeTree};

/// A small reader for the type shapes these tests use: paths with angle
/// arguments, references, tuples, parentheses and `dyn` bounds.
struct Reader<'a> {
    s: &'a [u8],
    i: usize,
}

impl<'a> Reader<'a> {
    fn ws(&mut self) {
        while self.i < self.s.len() && self.s[self.i] == b' ' {
            self.i += 1;
        }
    }

    fn eat(&mut self, t: &str) -> bool {
        self.ws();
        if self.s[self.i..].starts_with(t.as_bytes()) {
            self.i += t.len();
            true
        } else {
            false
        }
    }

    fn word(&mut self) -> String {
        self.ws();
        let start = self.i;
        while self.i < self.s.len() && (self.s[self.i].is_ascii_alphanumeric() || self.s[self.i] == b'_') {
            self.i += 1;
        }
        String::from_utf8(self.s[start..self.i].to_vec()).unwrap()
    }

    fn lifetime(&mut self) -> String {
        self.eat("'");
        format!("'{}", self.word())
    }

    fn bounds(&mut self) -> TypeTree {
        let mut items = vec![];
        loop {
            let b = self.word();
            items.push(b);
            if !self.eat("+") {
                break;
            }
        }
        TypeTree::TraitObject(PunctStrs { items, trailing: false })
    }

    fn ty(&mut self) -> TypeTree {
        if self.eat("&") {
            self.ws();
            let lt = if self.s[self.i] == b'\'' { Some(self.lifetime()) } else { None };
            let m = self.eat("mut ");
            let elem = self.ty();
            return TypeTree::Reference(lt, m, Box::new(elem));
        }
        if self.eat("(") {
            if self.eat(")") {
                return TypeTree::Tuple(vec![], false);
            }
            let mut elems = vec![];
            let mut trailing = false;
            loop {
                elems.push(self.ty());
                if self.eat(",") {
                    if self.eat(")") {
                        trailing = true;
                        break;
                    }
                } else {
                    assert!(self.eat(")"));
                    break;
                }
            }
            if elems.len() == 1 && !trailing {
                return TypeTree::Paren(Box::new(elems.pop().unwrap()));
            }
            return TypeTree::Tuple(elems, trailing);
        }
        if self.eat("dyn ") {
            return self.bounds();
        }
        let leading_colon = self.eat("::");
        let mut segments = vec![];
        loop {
            let ident = self.word();
            let args = if self.eat("<") {
                let mut args = vec![];
                loop {
                    self.ws();
                    if self.s[self.i] == b'\'' {
                        args.push(GenericArg::Lifetime(self.lifetime()));
                    } else {
                        args.push(GenericArg::Type(self.ty()));
                    }
                    if !self.eat(",") {
                        break;
                    }
                }
                assert!(self.eat(">"));
                PathArgs::Angle(AngleArgs { colon2: false, args, trailing: false })
            } else {
                PathArgs::Plain
            };
            segments.push(PathSegment { ident, args });
            if !self.eat("::") {
                break;
            }
        }
        TypeTree::Path(TypePath { qself: None, leading_colon, segments })
    }
}

fn t(s: &str) -> TypeTree {
    let mut r = Reader { s: s.as_bytes(), i: 0 };
    let ty = r.ty();
    r.ws();
    assert_eq!(r.i, s.len(), "unread input in {s}");
    ty
}

fn attrs() -> FieldAttrs {
    FieldAttrs {
        from: SourceKind::No,
        capture: BetterFlag::Default,
        provide: vec![],
        backtrace: false,
        spantrace: false,
        traces: false,
        location: false,
        help: false,
        forward: FieldSetting::Flag(false),
    }
}

fn field(name: &str, ty: &str) -> Field {
    Field { ident: Some(name.to_string()), ty: t(ty), attrs: attrs(), has_cfg: false }
}

// ─── extract_boxed_inner ─────────────────────────────────────────────

#[test]
fn extract_boxed_inner_simple() {
    let ty = t("Box<io::Error>");
    assert_eq!(ty.extract_boxed_inner().unwrap().pretty(), t("io::Error").pretty());
}

#[test]
fn extract_boxed_inner_plain_type() {
    assert!(t("io::Error").extract_boxed_inner().is_none());
}

#[test]
fn extract_boxed_inner_not_box() {
    assert!(t("Vec<io::Error>").extract_boxed_inner().is_none());
}

#[test]
fn extract_boxed_inner_reference() {
    assert!(t("&str").extract_boxed_inner().is_none());
}

#[test]
fn extract_boxed_inner_simple_type() {
    assert_eq!(t("Box<String>").extract_boxed_inner().unwrap().pretty(), "String");
}

// ─── is_backtrace_type / is_spantrace_type ───────────────────────────

#[test]
fn field_detect_backtrace_type_direct() {
    assert!(t("Backtrace").is_backtrace_type());
}

#[test]
fn field_detect_backtrace_type_boxed() {
    assert!(t("Box<Backtrace>").is_backtrace_type());
}

#[test]
fn field_detect_backtrace_type_qualified() {
    assert!(t("oopsie_core::Backtrace").is_backtrace_type());
}

#[test]
fn field_detect_backtrace_type_negative() {
    assert!(!t("String").is_backtrace_type());
}

#[test]
fn field_detect_spantrace_type_direct() {
    assert!(t("SpanTrace").is_spantrace_type());
}

#[test]
fn field_detect_spantrace_type_boxed() {
    assert!(t("Box<SpanTrace>").is_spantrace_type());
}

#[test]
fn field_detect_spantrace_type_qualified() {
    assert!(t("tracing_error::SpanTrace").is_spantrace_type());
}

#[test]
fn field_detect_spantrace_type_negative() {
    assert!(!t("String").is_spantrace_type());
}

// ─── is_ident_type / is_boxed_ident_type ─────────────────────────────

#[test]
fn field_detect_ident_type_matching() {
    assert!(t("Backtrace").is_ident_type("Backtrace"));
}

#[test]
fn field_detect_ident_type_not_matching() {
    assert!(!t("String").is_ident_type("Backtrace"));
}

#[test]
fn field_detect_ident_type_non_path() {
    assert!(!t("&str").is_ident_type("str"));
}

#[test]
fn field_detect_ident_type_tuple() {
    assert!(!t("()").is_ident_type("anything"));
}

#[test]
fn field_detect_boxed_ident_type_matching() {
    assert!(t("Box<Backtrace>").is_boxed_ident_type("Backtrace"));
}

#[test]
fn field_detect_boxed_ident_type_wrong_inner() {
    assert!(!t("Box<String>").is_boxed_ident_type("Backtrace"));
}

#[test]
fn field_detect_boxed_ident_type_not_box() {
    assert!(!t("Vec<Backtrace>").is_boxed_ident_type("Backtrace"));
}

#[test]
fn field_detect_boxed_ident_type_plain_type() {
    assert!(!t("Backtrace").is_boxed_ident_type("Backtrace"));
}

#[test]
fn field_detect_boxed_ident_type_non_path() {
    assert!(!t("&str").is_boxed_ident_type("str"));
}

#[test]
fn field_detect_boxed_ident_type_tuple() {
    assert!(!t("()").is_boxed_ident_type("anything"));
}

// ─── is_traces_type ──────────────────────────────────────────────────

#[test]
fn traces_type_inline_tuple() {
    assert!(t("(Backtrace, SpanTrace)").is_traces_type());
}

#[test]
fn traces_type_boxed_tuple() {
    assert!(t("Box<(Backtrace, SpanTrace)>").is_traces_type());
}

#[test]
fn traces_type_qualified_elements() {
    assert!(t("(oopsie::Backtrace, tracing_error::SpanTrace)").is_traces_type());
}

#[test]
fn traces_type_wrong_arity() {
    assert!(!t("(Backtrace, SpanTrace, u32)").is_traces_type());
}

#[test]
fn traces_type_wrong_elements() {
    assert!(!t("(String, SpanTrace)").is_traces_type());
}

#[test]
fn traces_type_not_tuple() {
    assert!(!t("Backtrace").is_traces_type());
}

// ─── is_location_type ────────────────────────────────────────────────

#[test]
fn location_type_static_ref() {
    assert!(t("&'static Location<'static>").is_location_type());
}

#[test]
fn location_type_qualified() {
    assert!(t("&'static ::core::panic::Location<'static>").is_location_type());
}

#[test]
fn location_type_plain_ref() {
    assert!(t("&Location").is_location_type());
}

#[test]
fn location_type_not_reference() {
    assert!(!t("Location").is_location_type());
}

#[test]
fn location_type_wrong_referent() {
    assert!(!t("&'static str").is_location_type());
}

// ─── peel_groups ─────────────────────────────────────────────────────

#[test]
fn peel_groups_unwraps_parenthesized_trait_object() {
    let ty = t("(dyn Error + Send)");
    assert!(matches!(ty.peel_groups(), TypeTree::TraitObject(_)));
}

#[test]
fn peel_groups_passes_through_plain_type() {
    let ty = t("io::Error");
    assert!(matches!(ty.peel_groups(), TypeTree::Path(_)));
}

// ─── check_existing_fields ───────────────────────────────────────────

#[test]
fn inject_check_existing_fields_detects_backtrace() {
    let fields = vec![field("backtrace", "Backtrace"), field("message", "String")];
    let e = check_existing_fields(&fields, &t("std::time::Instant")).unwrap();
    assert!(e.has_backtrace);
    assert!(!e.has_spantrace);
    assert!(!e.has_timestamp);
}

#[test]
fn inject_check_existing_fields_detects_spantrace() {
    let fields = vec![field("trace", "SpanTrace"), field("message", "String")];
    let e = check_existing_fields(&fields, &t("std::time::Instant")).unwrap();
    assert!(!e.has_backtrace);
    assert!(e.has_spantrace);
    assert!(!e.has_timestamp);
}

#[test]
fn wrongly_typed_timestamp_name_does_not_suppress_injection() {
    let fields = vec![field("timestamp", "u64"), field("msg", "String")];
    assert!(!check_existing_fields(&fields, &t("::std::time::SystemTime")).unwrap().has_timestamp);
}

#[test]
fn timestamp_typed_field_suppresses_regardless_of_name() {
    let fields = vec![field("when", "SystemTime")];
    assert!(check_existing_fields(&fields, &t("::std::time::SystemTime")).unwrap().has_timestamp);
}

#[test]
fn timestamp_typed_field_records_conflict_span() {
    let fields = vec![field("when", "SystemTime")];
    assert_eq!(check_existing_fields(&fields, &t("::std::time::SystemTime")).unwrap().timestamp_conflict, Some(0));
}

#[test]
fn reexpanded_injected_timestamp_field_does_not_record_conflict() {
    let fields = vec![field("__oopsie_timestamp", "SystemTime")];
    let e = check_existing_fields(&fields, &t("::std::time::SystemTime")).unwrap();
    assert!(e.has_timestamp);
    assert!(e.timestamp_conflict.is_none());
}

#[test]
fn inject_check_existing_fields_detects_none() {
    let fields = vec![field("message", "String")];
    let e = check_existing_fields(&fields, &t("std::time::Instant")).unwrap();
    assert!(!e.has_backtrace);
    assert!(!e.has_spantrace);
    assert!(!e.has_timestamp);
}

#[test]
fn inject_check_existing_fields_unit_returns_default() {
    let e = check_existing_fields(&vec![], &t("std::time::Instant")).unwrap();
    assert!(!e.has_backtrace);
}

#[test]
fn check_existing_detects_packed_traces_by_type() {
    let fields = vec![field("t", "Box<(Backtrace, SpanTrace)>"), field("msg", "String")];
    let e = check_existing_fields(&fields, &t("std::time::Instant")).unwrap();
    assert!(e.has_traces);
    // A packed field stands in for both, suppressing separate injection.
    assert!(e.has_backtrace && e.has_spantrace);
}

#[test]
fn check_existing_fields_rejects_mangled_name_collision() {
    let fields = vec![field("__oopsie_traces", "u8"), field("msg", "String")];
    let err = check_existing_fields(&fields, &t("std::time::Instant")).err().unwrap();
    assert_eq!(err, InjectError::MangledCollision(0, MangledName::Traces));
    assert_eq!(err.message(), "`__oopsie_traces` conflicts with a field injected by `traced`; rename it");
}

#[test]
fn check_existing_fields_allows_correctly_typed_mangled_field() {
    let fields = vec![field("__oopsie_backtrace", "Box<Backtrace>")];
    let e = check_existing_fields(&fields, &t("std::time::Instant")).unwrap();
    assert!(e.has_backtrace);
}

// ─── wants_auto_code (whether the code provide attribute is added) ────

#[test]
fn add_provide_attrs_no_code_when_disabled() {
    assert!(!wants_auto_code(false, false, false));
}

#[test]
fn add_provide_attrs_adds_code_when_enabled() {
    assert!(wants_auto_code(true, false, false));
}

#[test]
fn inject_add_provide_attrs_skips_code_when_user_code_present() {
    assert!(!wants_auto_code(true, true, false));
}

#[test]
fn add_provide_attrs_skips_code_when_transparent() {
    assert!(!wants_auto_code(true, false, true));
}

#[test]
fn timestamp_conflict_message_names_the_fix() {
    let m = InjectError::TimestampConflict(0).message();
    assert!(m.starts_with("this field's type suppresses `traced(timestamp)` injection"));
    assert!(m.contains("has no effect here \u{2014} rename or retype this field"));
}

// ─── decide: a timestamp-typed field under `traced(timestamp)` ───────

fn traced_struct() -> ItemFacts {
    ItemFacts { traced: true, has_user_code: false, transparent: false }
}

#[test]
fn explicit_timestamp_still_rejects_a_timestamp_typed_field() {
    let mut args: TracedArgs<String> = TracedArgs::defaults();
    args.timestamp = Tristate::written(FieldSetting::Flag(true));
    let r = args.resolve(&TracedDefaults::default());
    let requested = args.timestamp.explicit() == Some(true);
    assert!(requested);
    let fields = vec![field("last_seen", "::std::time::SystemTime")];
    let d = decide(&r, requested, Ok(traced_struct()), Ok(fields), &t("::std::time::SystemTime"));
    assert_eq!(d, Err(InjectError::TimestampConflict(0)));
}

#[test]
fn manifest_timestamp_skips_a_timestamp_typed_field_silently() {
    let args: TracedArgs<String> = TracedArgs::defaults();
    let defaults = TracedDefaults { traced: Some(true), timestamp: Some(true), ..TracedDefaults::default() };
    let r = args.resolve(&defaults);
    assert!(r.timestamp);
    let requested = args.timestamp.explicit() == Some(true);
    let fields = vec![field("last_seen", "::std::time::SystemTime")];
    match decide(&r, requested, Ok(traced_struct()), Ok(fields), &t("::std::time::SystemTime")) {
        Ok(Decision::Inject(f, auto_code)) => {
            assert!(!f.timestamp);
            assert!(f.traces && !f.backtrace && !f.spantrace && f.location);
            assert!(auto_code);
        }
        other => panic!("expected an injection, got {other:?}"),
    }
}

#[test]
fn unparsed_attributes_defer_the_decision() {
    let r_args: TracedArgs<String> = TracedArgs::defaults();
    let r = r_args.resolve(&TracedDefaults::default());
    let d = decide(&r, false, Err("bad key".to_string()), Ok(vec![]), &t("::std::time::SystemTime"));
    assert_eq!(d, Ok(Decision::Deferred("bad key".to_string())));
}

#[test]
fn auto_code_names_the_type_and_variant() {
    assert_eq!(auto_code_name("AppError", Some("Connect")), "AppError::Connect");
    assert_eq!(auto_code_name("ConnectionFailed", None), "ConnectionFailed");
}
