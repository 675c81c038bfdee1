//! The split of a variant's (or struct's) fields into the source, the
//! auto-captured fields and the user fields, with the trace, location and
//! help fields picked out, and the rules that make a field list unusable.

use vstd::prelude::*;
use crate::fields::{
    FieldAttrs, ProvideAttr, SourceKind, capture_after, from_after, is_source_kind, trace_keys,
};
use crate::flags::{BetterFlag, ResolvedForward};
use crate::types::{
    TypeTree, spec_is_backtrace, spec_is_location, spec_is_spantrace, spec_is_traces,
};

verus! {

/// A field as written: its name (`None` in a tuple field list), its type,
/// its parsed `#[oopsie(...)]` keys, and whether a `#[cfg]`/`#[cfg_attr]`
/// sits on it.
pub struct Field {
    pub ident: Option<String>,
    pub ty: TypeTree,
    pub attrs: FieldAttrs,
    pub has_cfg: bool,
}

/// A variant's or struct's field list.
pub enum Fields {
    Named(Vec<Field>),
    Unnamed,
    Unit,
}

/// The source field; `index` is its position in the field list.
pub struct SourceField {
    pub index: usize,
    pub ident: String,
    pub ty: TypeTree,
    pub kind: SourceKind,
    pub forward: ResolvedForward,
    pub has_cfg: bool,
}

/// A field filled in by the generated code (a captured trace, location or
/// timestamp) rather than by the caller.
pub struct AutoField {
    pub index: usize,
    pub ident: String,
    pub ty: TypeTree,
    pub has_cfg: bool,
}

/// A field the caller supplies through the context selector.
pub struct UserField {
    pub index: usize,
    pub ident: String,
    pub ty: TypeTree,
    pub has_cfg: bool,
}

/// A field picked out for a role: its position and name.
#[derive(Debug, Clone, PartialEq, Eq)]
pub struct FieldName {
    pub index: usize,
    pub ident: String,
}

/// Categorized fields of a variant or struct.
pub struct CategorizedFields {
    pub source: Option<SourceField>,
    pub auto_fields: Vec<AutoField>,
    pub user_fields: Vec<UserField>,
    /// `provide(...)` keys, with the name of the field carrying each.
    pub provides: Vec<(String, ProvideAttr)>,
    pub backtrace_field: Option<FieldName>,
    pub spantrace_field: Option<FieldName>,
    pub traces_field: Option<FieldName>,
    pub location_field: Option<FieldName>,
    pub help_field: Option<FieldName>,
}

/// Why a field list cannot be categorized; the index names the field the
/// diagnostic points at.
#[derive(Debug, Clone, Copy, PartialEq, Eq)]
pub enum CategorizeError {
    TupleFields,
    CaptureConflict(usize),
    NotBacktraceType(usize),
    NotSpantraceType(usize),
    NotTracesType(usize),
    NotLocationType(usize),
    DuplicateBacktrace(usize),
    DuplicateSpantrace(usize),
    DuplicateTraces(usize),
    DuplicateLocation(usize),
    DuplicateHelp(usize),
    ForwardWithoutSource(usize),
    DuplicateSource(usize),
    TracesWithBacktrace(usize),
    TracesWithSpantrace(usize),
    ForwardedBacktraceConflict(usize),
    ForwardedSpantraceConflict(usize),
    ForwardedLocationConflict(usize),
}

/// The text of each refusal.
pub open spec fn categorize_error_text(e: CategorizeError) -> Seq<char> {
    match e {
        CategorizeError::TupleFields => "#[derive(Oopsie)] does not support tuple variants/structs"@,
        CategorizeError::CaptureConflict(_) => "`capture(false)` cannot be combined with `backtrace`/`spantrace`/`traces`/`location`"@,
        CategorizeError::NotBacktraceType(_) => "`#[oopsie(backtrace)]` requires a field whose type's last path segment is `Backtrace`"@,
        CategorizeError::NotSpantraceType(_) => "`#[oopsie(spantrace)]` requires a field whose type's last path segment is `SpanTrace`"@,
        CategorizeError::NotTracesType(_) => "`#[oopsie(traces)]` requires a field of type `(Backtrace, SpanTrace)`"@,
        CategorizeError::NotLocationType(_) => "`#[oopsie(location)]` requires a field of type `&'static Location<'static>`"@,
        CategorizeError::DuplicateBacktrace(_) => "at most one backtrace field per variant/struct"@,
        CategorizeError::DuplicateSpantrace(_) => "at most one spantrace field per variant/struct"@,
        CategorizeError::DuplicateTraces(_) => "at most one packed `traces` field per variant/struct"@,
        CategorizeError::DuplicateLocation(_) => "at most one location field per variant/struct"@,
        CategorizeError::DuplicateHelp(_) => "at most one `#[oopsie(help)]` field per variant/struct"@,
        CategorizeError::ForwardWithoutSource(_) => "`#[oopsie(forward)]` must be on a source field (named `source` or marked `#[oopsie(from)]`)"@,
        CategorizeError::DuplicateSource(_) => "at most one source field per variant/struct"@,
        CategorizeError::TracesWithBacktrace(_) => "a packed `traces` field cannot coexist with a separate `backtrace` field"@,
        CategorizeError::TracesWithSpantrace(_) => "a packed `traces` field cannot coexist with a separate `spantrace` field"@,
        CategorizeError::ForwardedBacktraceConflict(_) => "`forward(backtrace)` cannot coexist with an own backtrace/traces field"@,
        CategorizeError::ForwardedSpantraceConflict(_) => "`forward(spantrace)` cannot coexist with an own spantrace/traces field"@,
        CategorizeError::ForwardedLocationConflict(_) => "`forward(location)` cannot coexist with an own location field"@,
    }
}

impl CategorizeError {
    /// The diagnostic's text.
    pub fn message(&self) -> (r: &'static str)
        ensures
            r@ == categorize_error_text(*self),
    {
        match self {
            CategorizeError::TupleFields => "#[derive(Oopsie)] does not support tuple variants/structs",
            CategorizeError::CaptureConflict(_) => "`capture(false)` cannot be combined with `backtrace`/`spantrace`/`traces`/`location`",
            CategorizeError::NotBacktraceType(_) => "`#[oopsie(backtrace)]` requires a field whose type's last path segment is `Backtrace`",
            CategorizeError::NotSpantraceType(_) => "`#[oopsie(spantrace)]` requires a field whose type's last path segment is `SpanTrace`",
            CategorizeError::NotTracesType(_) => "`#[oopsie(traces)]` requires a field of type `(Backtrace, SpanTrace)`",
            CategorizeError::NotLocationType(_) => "`#[oopsie(location)]` requires a field of type `&'static Location<'static>`",
            CategorizeError::DuplicateBacktrace(_) => "at most one backtrace field per variant/struct",
            CategorizeError::DuplicateSpantrace(_) => "at most one spantrace field per variant/struct",
            CategorizeError::DuplicateTraces(_) => "at most one packed `traces` field per variant/struct",
            CategorizeError::DuplicateLocation(_) => "at most one location field per variant/struct",
            CategorizeError::DuplicateHelp(_) => "at most one `#[oopsie(help)]` field per variant/struct",
            CategorizeError::ForwardWithoutSource(_) => "`#[oopsie(forward)]` must be on a source field (named `source` or marked `#[oopsie(from)]`)",
            CategorizeError::DuplicateSource(_) => "at most one source field per variant/struct",
            CategorizeError::TracesWithBacktrace(_) => "a packed `traces` field cannot coexist with a separate `backtrace` field",
            CategorizeError::TracesWithSpantrace(_) => "a packed `traces` field cannot coexist with a separate `spantrace` field",
            CategorizeError::ForwardedBacktraceConflict(_) => "`forward(backtrace)` cannot coexist with an own backtrace/traces field",
            CategorizeError::ForwardedSpantraceConflict(_) => "`forward(spantrace)` cannot coexist with an own spantrace/traces field",
            CategorizeError::ForwardedLocationConflict(_) => "`forward(location)` cannot coexist with an own location field",
        }
    }
}

// ─── What each field is ──────────────────────────────────────────────

/// The roles a field can fill.
pub enum Role {
    Backtrace,
    Spantrace,
    Traces,
    Location,
    Help,
    Source,
    Auto,
    User,
}

pub open spec fn is_src(f: Field) -> bool {
    is_source_kind(from_after(f.attrs.from, f.ident, f.ty))
}

pub open spec fn forward_of(f: Field) -> ResolvedForward {
    ResolvedForward::spec_resolve(f.attrs.forward)
}

/// Whether named field `f` fills `role`.
pub open spec fn has_role(f: Field, role: Role) -> bool {
    f.ident is Some && match role {
        Role::Backtrace => f.attrs.backtrace || spec_is_backtrace(f.ty),
        Role::Spantrace => f.attrs.spantrace || spec_is_spantrace(f.ty),
        Role::Traces => f.attrs.traces || spec_is_traces(f.ty),
        Role::Location => f.attrs.location || spec_is_location(f.ty),
        Role::Help => f.attrs.help,
        Role::Source => is_src(f),
        Role::Auto => !is_src(f) && capture_after(f.attrs, f.ty).spec_is_enabled(),
        Role::User => !is_src(f) && !capture_after(f.attrs, f.ty).spec_is_enabled(),
    }
}

/// The first of `fs[..n]` filling `role`.
pub open spec fn first_with(fs: Seq<Field>, n: int, role: Role) -> Option<int>
    decreases n,
{
    if n <= 0 {
        None
    } else {
        match first_with(fs, n - 1, role) {
            Some(k) => Some(k),
            None => if has_role(fs[n - 1], role) {
                Some(n - 1)
            } else {
                None
            },
        }
    }
}

/// What is wrong with field `i`, given the fields before it.
pub open spec fn field_error(fs: Seq<Field>, i: int) -> Option<CategorizeError> {
    let f = fs[i];
    let a = f.attrs;
    let k = i as usize;
    if f.ident is None {
        None
    } else if trace_keys(a) && a.capture is Disabled {
        Some(CategorizeError::CaptureConflict(k))
    } else if a.backtrace && !spec_is_backtrace(f.ty) {
        Some(CategorizeError::NotBacktraceType(k))
    } else if a.spantrace && !spec_is_spantrace(f.ty) {
        Some(CategorizeError::NotSpantraceType(k))
    } else if a.traces && !spec_is_traces(f.ty) {
        Some(CategorizeError::NotTracesType(k))
    } else if a.location && !spec_is_location(f.ty) {
        Some(CategorizeError::NotLocationType(k))
    } else if has_role(f, Role::Backtrace) && first_with(fs, i, Role::Backtrace) is Some {
        Some(CategorizeError::DuplicateBacktrace(k))
    } else if has_role(f, Role::Spantrace) && first_with(fs, i, Role::Spantrace) is Some {
        Some(CategorizeError::DuplicateSpantrace(k))
    } else if has_role(f, Role::Traces) && first_with(fs, i, Role::Traces) is Some {
        Some(CategorizeError::DuplicateTraces(k))
    } else if has_role(f, Role::Location) && first_with(fs, i, Role::Location) is Some {
        Some(CategorizeError::DuplicateLocation(k))
    } else if has_role(f, Role::Help) && first_with(fs, i, Role::Help) is Some {
        Some(CategorizeError::DuplicateHelp(k))
    } else if (forward_of(f).backtrace || forward_of(f).spantrace || forward_of(f).location)
        && !is_src(f) {
        Some(CategorizeError::ForwardWithoutSource(k))
    } else if is_src(f) && first_with(fs, i, Role::Source) is Some {
        Some(CategorizeError::DuplicateSource(k))
    } else {
        None
    }
}

/// The first field error among `fs[i..]`.
pub open spec fn first_field_error(fs: Seq<Field>, i: int) -> Option<CategorizeError>
    decreases fs.len() - i,
{
    if 0 <= i < fs.len() {
        match field_error(fs, i) {
            Some(e) => Some(e),
            None => first_field_error(fs, i + 1),
        }
    } else {
        None
    }
}

/// The rules that span fields: a packed `traces` field beside a standalone
/// backtrace or span trace, and a forwarded trace beside an own one.
pub open spec fn list_error(fs: Seq<Field>) -> Option<CategorizeError> {
    let n = fs.len() as int;
    let tr = first_with(fs, n, Role::Traces);
    let bt = first_with(fs, n, Role::Backtrace);
    let st = first_with(fs, n, Role::Spantrace);
    let loc = first_with(fs, n, Role::Location);
    if tr is Some && bt is Some {
        Some(CategorizeError::TracesWithBacktrace(bt->0 as usize))
    } else if tr is Some && st is Some {
        Some(CategorizeError::TracesWithSpantrace(st->0 as usize))
    } else {
        match first_with(fs, n, Role::Source) {
            Some(k) => {
                let fw = forward_of(fs[k]);
                if fw.backtrace && (bt is Some || tr is Some) {
                    Some(CategorizeError::ForwardedBacktraceConflict(k as usize))
                } else if fw.spantrace && (st is Some || tr is Some) {
                    Some(CategorizeError::ForwardedSpantraceConflict(k as usize))
                } else if fw.location && loc is Some {
                    Some(CategorizeError::ForwardedLocationConflict(k as usize))
                } else {
                    None
                }
            },
            None => None,
        }
    }
}

/// The field of `fs[..n]` picked for `role`, by position and name.
pub open spec fn picked_upto(fs: Seq<Field>, n: int, role: Role) -> Option<FieldName> {
    match first_with(fs, n, role) {
        Some(k) => Some(FieldName { index: k as usize, ident: fs[k].ident->0 }),
        None => None,
    }
}

pub open spec fn picked(fs: Seq<Field>, role: Role) -> Option<FieldName> {
    picked_upto(fs, fs.len() as int, role)
}

pub open spec fn source_upto(fs: Seq<Field>, n: int) -> Option<SourceField> {
    match first_with(fs, n, Role::Source) {
        Some(k) => Some(source_of(fs, k)),
        None => None,
    }
}

pub open spec fn source_of(fs: Seq<Field>, k: int) -> SourceField {
    SourceField {
        index: k as usize,
        ident: fs[k].ident->0,
        ty: fs[k].ty,
        kind: from_after(fs[k].attrs.from, fs[k].ident, fs[k].ty),
        forward: forward_of(fs[k]),
        has_cfg: fs[k].has_cfg,
    }
}

/// The auto-captured fields among `fs[..n]`, in order.
pub open spec fn auto_list(fs: Seq<Field>, n: int) -> Seq<AutoField>
    decreases n,
{
    if n <= 0 {
        Seq::empty()
    } else {
        auto_list(fs, n - 1) + if has_role(fs[n - 1], Role::Auto) {
            seq![AutoField { index: (n - 1) as usize, ident: fs[n - 1].ident->0, ty: fs[n - 1].ty, has_cfg: fs[n - 1].has_cfg }]
        } else {
            Seq::empty()
        }
    }
}

/// The user fields among `fs[..n]`, in order.
pub open spec fn user_list(fs: Seq<Field>, n: int) -> Seq<UserField>
    decreases n,
{
    if n <= 0 {
        Seq::empty()
    } else {
        user_list(fs, n - 1) + if has_role(fs[n - 1], Role::User) {
            seq![UserField { index: (n - 1) as usize, ident: fs[n - 1].ident->0, ty: fs[n - 1].ty, has_cfg: fs[n - 1].has_cfg }]
        } else {
            Seq::empty()
        }
    }
}

/// The `provide(...)` keys of the named fields among `fs[..n]`, in order,
/// each with its field's name.
pub open spec fn provide_list(fs: Seq<Field>, n: int) -> Seq<(String, ProvideAttr)>
    decreases n,
{
    if n <= 0 {
        Seq::empty()
    } else {
        provide_list(fs, n - 1) + match fs[n - 1].ident {
            Some(id) => fs[n - 1].attrs.provide@.map_values(|p: ProvideAttr| (id, p)),
            None => Seq::empty(),
        }
    }
}

/// `c` is the categorization of the (error-free) fields `fs`.
pub open spec fn categorized_as(c: CategorizedFields, fs: Seq<Field>) -> bool {
    let n = fs.len() as int;
    &&& c.source == source_upto(fs, n)
    &&& c.auto_fields@ == auto_list(fs, n)
    &&& c.user_fields@ == user_list(fs, n)
    &&& c.provides@ == provide_list(fs, n)
    &&& c.backtrace_field == picked(fs, Role::Backtrace)
    &&& c.spantrace_field == picked(fs, Role::Spantrace)
    &&& c.traces_field == picked(fs, Role::Traces)
    &&& c.location_field == picked(fs, Role::Location)
    &&& c.help_field == picked(fs, Role::Help)
}

pub open spec fn categorizes(r: Result<CategorizedFields, CategorizeError>, fs: Seq<Field>) -> bool {
    match first_field_error(fs, 0) {
        Some(e) => r == Err::<CategorizedFields, CategorizeError>(e),
        None => match list_error(fs) {
            Some(e) => r == Err::<CategorizedFields, CategorizeError>(e),
            None => match r {
                Ok(c) => categorized_as(c, fs),
                Err(_) => false,
            },
        },
    }
}

impl CategorizedFields {
    /// Categorizes a field list: a unit list has no fields, a tuple list is
    /// refused, and a named list is refused at its first offending field
    /// (in field order, each field's checks in turn), then by the rules that
    /// span fields; otherwise each named field goes to exactly one of source,
    /// auto and user fields, and the trace, location and help fields are
    /// picked out.
    pub fn from_fields(fields: Fields) -> (r: Result<CategorizedFields, CategorizeError>)
        ensures
            match fields {
                Fields::Unit => categorizes(r, Seq::empty()),
                Fields::Unnamed => r == Err::<CategorizedFields, CategorizeError>(
                    CategorizeError::TupleFields,
                ),
                Fields::Named(fs) => categorizes(r, fs@),
            },
    {
        let mut fs = match fields {
            Fields::Named(v) => v,
            Fields::Unnamed => return Err(CategorizeError::TupleFields),
            Fields::Unit => {
                return Ok(
                    CategorizedFields {
                        source: None,
                        auto_fields: Vec::new(),
                        user_fields: Vec::new(),
                        provides: Vec::new(),
                        backtrace_field: None,
                        spantrace_field: None,
                        traces_field: None,
                        location_field: None,
                        help_field: None,
                    },
                );
            },
        };
        let ghost orig = fs@;
        let n = fs.len();
        let mut source: Option<SourceField> = None;
        let mut auto_fields: Vec<AutoField> = Vec::new();
        let mut user_fields: Vec<UserField> = Vec::new();
        let mut provides: Vec<(String, ProvideAttr)> = Vec::new();
        let mut bt: Option<FieldName> = None;
        let mut st: Option<FieldName> = None;
        let mut tr: Option<FieldName> = None;
        let mut loc: Option<FieldName> = None;
        let mut help: Option<FieldName> = None;
        let mut i: usize = 0;
        while i < n
            invariant
                fields is Named,
                fields->Named_0@ == orig,
                n == orig.len(),
                i <= n,
                fs@ == orig.subrange(i as int, n as int),
                first_field_error(orig, 0) == first_field_error(orig, i as int),
                source == source_upto(orig, i as int),
                auto_fields@ == auto_list(orig, i as int),
                user_fields@ == user_list(orig, i as int),
                provides@ == provide_list(orig, i as int),
                bt == picked_upto(orig, i as int, Role::Backtrace),
                st == picked_upto(orig, i as int, Role::Spantrace),
                tr == picked_upto(orig, i as int, Role::Traces),
                loc == picked_upto(orig, i as int, Role::Location),
                help == picked_upto(orig, i as int, Role::Help),
            decreases n - i,
        {
            let f = fs.remove(0);
            assert(f == orig[i as int]);
            let Field { ident, ty, attrs, has_cfg } = f;
            if ident.is_none() {
                assert(provide_list(orig, i + 1) =~= provide_list(orig, i as int));
                assert(auto_list(orig, i + 1) =~= auto_list(orig, i as int));
                assert(user_list(orig, i + 1) =~= user_list(orig, i as int));
                i = i + 1;
                assert(fs@ =~= orig.subrange(i as int, n as int));
                continue;
            }
            let attrs = match attrs.from_field(&ident, &ty) {
                Ok(a) => a,
                Err(_) => {
                    proof {
                        assert(field_error(orig, i as int) == Some(
                            CategorizeError::CaptureConflict(i),
                        ));
                    }
                    return Err(CategorizeError::CaptureConflict(i));
                },
            };
            if attrs.backtrace && !ty.is_backtrace_type() {
                proof {
                    assert(field_error(orig, i as int) == Some(
                        CategorizeError::NotBacktraceType(i),
                    ));
                }
                return Err(CategorizeError::NotBacktraceType(i));
            }
            if attrs.spantrace && !ty.is_spantrace_type() {
                return Err(CategorizeError::NotSpantraceType(i));
            }
            if attrs.traces && !ty.is_traces_type() {
                return Err(CategorizeError::NotTracesType(i));
            }
            if attrs.location && !ty.is_location_type() {
                return Err(CategorizeError::NotLocationType(i));
            }
            let id = ident.unwrap();
            if attrs.backtrace || ty.is_backtrace_type() {
                if bt.is_some() {
                    return Err(CategorizeError::DuplicateBacktrace(i));
                }
                bt = Some(FieldName { index: i, ident: id.clone() });
            }
            if attrs.spantrace || ty.is_spantrace_type() {
                if st.is_some() {
                    return Err(CategorizeError::DuplicateSpantrace(i));
                }
                st = Some(FieldName { index: i, ident: id.clone() });
            }
            if attrs.traces || ty.is_traces_type() {
                if tr.is_some() {
                    return Err(CategorizeError::DuplicateTraces(i));
                }
                tr = Some(FieldName { index: i, ident: id.clone() });
            }
            if attrs.location || ty.is_location_type() {
                if loc.is_some() {
                    return Err(CategorizeError::DuplicateLocation(i));
                }
                loc = Some(FieldName { index: i, ident: id.clone() });
            }
            if attrs.help {
                if help.is_some() {
                    return Err(CategorizeError::DuplicateHelp(i));
                }
                help = Some(FieldName { index: i, ident: id.clone() });
            }
            let forward = ResolvedForward::resolve(&attrs.forward);
            let src = attrs.is_source();
            if forward.any() && !src {
                return Err(CategorizeError::ForwardWithoutSource(i));
            }
            if src && source.is_some() {
                return Err(CategorizeError::DuplicateSource(i));
            }
            let captured = attrs.capture.is_enabled();
            let FieldAttrs { from, provide, .. } = attrs;
            if src {
                source = Some(
                    SourceField { index: i, ident: id.clone(), ty, kind: from, forward, has_cfg },
                );
                assert(auto_list(orig, i + 1) =~= auto_list(orig, i as int));
                assert(user_list(orig, i + 1) =~= user_list(orig, i as int));
            } else if captured {
                auto_fields.push(AutoField { index: i, ident: id.clone(), ty, has_cfg });
                assert(user_list(orig, i + 1) =~= user_list(orig, i as int));
            } else {
                user_fields.push(UserField { index: i, ident: id.clone(), ty, has_cfg });
                assert(auto_list(orig, i + 1) =~= auto_list(orig, i as int));
            }
            let mut provide = provide;
            let ghost pv = provide@;
            assert(pv.len() == provide.len());
            let ghost base = provides@;
            let mut k: usize = 0;
            while provide.len() > 0
                invariant
                    0 <= k <= pv.len(),
                    pv.len() == k + provide.len(),
                    pv.len() <= usize::MAX,
                    provide@ == pv.subrange(k as int, pv.len() as int),
                    provides@ == base + pv.take(k as int).map_values(|p: ProvideAttr| (id, p)),
                decreases provide.len(),
            {
                let p = provide.remove(0);
                assert(p == pv[k as int]);
                provides.push((id.clone(), p));
                k = k + 1;
                assert(provide@ =~= pv.subrange(k as int, pv.len() as int));
                assert(pv.take(k as int).map_values(|p: ProvideAttr| (id, p)) =~= pv.take(
                    k - 1,
                ).map_values(|p: ProvideAttr| (id, p)).push((id, pv[k - 1])));
            }
            assert(k == pv.len());
            assert(pv.take(pv.len() as int) =~= pv);
            i = i + 1;
            assert(fs@ =~= orig.subrange(i as int, n as int));
        }
        if tr.is_some() {
            if let Some(b) = &bt {
                return Err(CategorizeError::TracesWithBacktrace(b.index));
            }
            if let Some(s) = &st {
                return Err(CategorizeError::TracesWithSpantrace(s.index));
            }
        }
        if let Some(src) = &source {
            if src.forward.backtrace && (bt.is_some() || tr.is_some()) {
                return Err(CategorizeError::ForwardedBacktraceConflict(src.index));
            }
            if src.forward.spantrace && (st.is_some() || tr.is_some()) {
                return Err(CategorizeError::ForwardedSpantraceConflict(src.index));
            }
            if src.forward.location && loc.is_some() {
                return Err(CategorizeError::ForwardedLocationConflict(src.index));
            }
        }
        Ok(
            CategorizedFields {
                source,
                auto_fields,
                user_fields,
                provides,
                backtrace_field: bt,
                spantrace_field: st,
                traces_field: tr,
                location_field: loc,
                help_field: help,
            },
        )
    }
}

} // verus!
