//! Field attributes and the split of a variant's (or struct's) fields into
//! the source, the auto-captured fields and the user fields, with the trace,
//! location and help roles each field fills.

use vstd::prelude::*;
use crate::flags::{BetterFlag, FieldSetting, ForwardArgs, ResolvedForward};
use crate::types::{
    TypeTree, spec_boxed_inner, spec_is_backtrace, spec_is_location, spec_is_spantrace,
    spec_is_timestamp, spec_is_traces, spec_peel, str_eq,
};
use crate::type_eq::same_type;

verus! {

/// Whether (and how) a field is the error's source.
pub enum SourceKind {
    /// Not a source (nothing specified).
    No,
    /// `from(false)`: never a source, even when named `source`.
    Disabled,
    /// A source, as written (`from`, or a field named `source`).
    Yes,
    /// `from(Type, transform)`: the source type and the transform's token text.
    Transformed(TypeTree, String),
    /// A source whose type is `Box<T>` for a `T` that is not a trait object:
    /// the source type is `T`, the transform `Box::new`.
    AutoBoxed,
}

impl SourceKind {
    /// The kind of a field without a `from` key.
    pub fn from_none() -> (r: Option<SourceKind>)
        ensures
            r matches Some(k) && k is No,
    {
        Some(SourceKind::No)
    }

    /// The kind `from(true)` / `from(false)` states.
    pub fn from_bool(value: bool) -> (r: SourceKind)
        ensures
            value ==> r is Yes,
            !value ==> r is Disabled,
    {
        if value {
            SourceKind::Yes
        } else {
            SourceKind::Disabled
        }
    }
}

/// `provide(ref, Type => expr)`; the expression as token text.
pub struct ProvideAttr {
    pub ref_kw: bool,
    pub provided_type: TypeTree,
    pub expr: String,
}

impl ProvideAttr {
    pub fn is_ref(&self) -> (r: bool)
        ensures
            r == self.ref_kw,
    {
        self.ref_kw
    }
}

/// A field's `#[oopsie(...)]` keys.
pub struct FieldAttrs {
    pub from: SourceKind,
    pub capture: BetterFlag<false>,
    pub provide: Vec<ProvideAttr>,
    pub backtrace: bool,
    pub spantrace: bool,
    pub traces: bool,
    pub location: bool,
    pub help: bool,
    pub forward: FieldSetting<false, ForwardArgs>,
}

pub open spec fn is_source_kind(k: SourceKind) -> bool {
    match k {
        SourceKind::No | SourceKind::Disabled => false,
        _ => true,
    }
}

/// A `backtrace`/`spantrace`/`traces`/`location` key is present.
pub open spec fn trace_keys(a: FieldAttrs) -> bool {
    a.backtrace || a.spantrace || a.traces || a.location
}

/// The type alone makes the field a trace or location field.
pub open spec fn trace_typed(ty: TypeTree) -> bool {
    spec_is_backtrace(ty) || spec_is_spantrace(ty) || spec_is_traces(ty) || spec_is_location(ty)
}

/// `capture` after the trace keys and the type have had their say.
pub open spec fn capture_after(a: FieldAttrs, ty: TypeTree) -> BetterFlag<false> {
    if trace_keys(a) {
        BetterFlag::Enabled
    } else if a.capture is Default && trace_typed(ty) {
        BetterFlag::Enabled
    } else {
        a.capture
    }
}

pub open spec fn is_named(ident: Option<String>, name: Seq<char>) -> bool {
    match ident {
        Some(i) => i@ == name,
        None => false,
    }
}

/// `ty` is `Box<T>` for a `T` that is not a trait object.
pub open spec fn boxes_sized(ty: TypeTree) -> bool {
    match spec_boxed_inner(ty) {
        Some(inner) => !(spec_peel(inner) is TraitObject),
        None => false,
    }
}

/// `from` after the `source` name and auto-boxing have had their say.
pub open spec fn from_after(from: SourceKind, ident: Option<String>, ty: TypeTree) -> SourceKind {
    let named = if from is No && is_named(ident, "source"@) {
        SourceKind::Yes
    } else {
        from
    };
    if named is Yes && boxes_sized(ty) {
        SourceKind::AutoBoxed
    } else {
        named
    }
}

/// Why a field's keys were refused.
#[derive(Debug, Clone, Copy, PartialEq, Eq)]
pub enum FieldAttrsError {
    /// `capture(false)` beside `backtrace`/`spantrace`/`traces`/`location`.
    CaptureConflict,
}

impl FieldAttrs {
    /// Completes parsed keys with what the field's name and type imply: trace
    /// keys imply `capture` (and contradict `capture(false)`); a field named
    /// `source` is the source unless `from` says otherwise; a trace-typed
    /// field is captured unless `capture` says otherwise; a `Box<T>` source,
    /// `T` not a trait object, is auto-boxed.
    pub fn from_field(self, ident: &Option<String>, ty: &TypeTree) -> (r: Result<
        FieldAttrs,
        FieldAttrsError,
    >)
        ensures
            trace_keys(self) && self.capture is Disabled ==> r == Err::<
                FieldAttrs,
                FieldAttrsError,
            >(FieldAttrsError::CaptureConflict),
            !(trace_keys(self) && self.capture is Disabled) ==> r == Ok::<
                FieldAttrs,
                FieldAttrsError,
            >(
                FieldAttrs {
                    from: from_after(self.from, *ident, *ty),
                    capture: capture_after(self, *ty),
                    ..self
                },
            ),
    {
        let FieldAttrs {
            from,
            capture,
            provide,
            backtrace,
            spantrace,
            traces,
            location,
            help,
            forward,
        } = self;
        let mut capture = capture;
        if backtrace || spantrace || traces || location {
            if let BetterFlag::Disabled = capture {
                return Err(FieldAttrsError::CaptureConflict);
            }
            capture = BetterFlag::Enabled;
        }
        let mut from = from;
        if let SourceKind::No = from {
            if let Some(name) = ident {
                if str_eq(name.as_str(), "source") {
                    from = SourceKind::Yes;
                }
            }
        }
        if let BetterFlag::Default = capture {
            if ty.is_backtrace_type() || ty.is_spantrace_type() || ty.is_traces_type()
                || ty.is_location_type() {
                capture = BetterFlag::Enabled;
            }
        }
        if let SourceKind::Yes = from {
            if let Some(inner) = ty.extract_boxed_inner() {
                if !matches!(inner.peel_groups(), TypeTree::TraitObject(_)) {
                    from = SourceKind::AutoBoxed;
                }
            }
        }
        Ok(FieldAttrs { from, capture, provide, backtrace, spantrace, traces, location, help, forward })
    }

    pub fn is_source(&self) -> (r: bool)
        ensures
            r == is_source_kind(self.from),
    {
        match self.from {
            SourceKind::No | SourceKind::Disabled => false,
            _ => true,
        }
    }
}

// ─── Trace roles ─────────────────────────────────────────────────────

/// The injectable roles a field fills, by explicit key or by type; a field
/// filling a role suppresses injection of that role's field.
#[derive(Clone, Copy, Debug, PartialEq, Eq)]
pub struct TraceRole {
    pub backtrace: bool,
    pub spantrace: bool,
    pub traces: bool,
    pub location: bool,
    pub timestamp: bool,
}

pub open spec fn spec_role_of_type(ty: TypeTree, timestamp_type: TypeTree) -> TraceRole {
    TraceRole {
        backtrace: spec_is_backtrace(ty),
        spantrace: spec_is_spantrace(ty),
        traces: spec_is_traces(ty),
        location: spec_is_location(ty),
        timestamp: spec_is_timestamp(ty) || same_type(ty, timestamp_type),
    }
}

impl TraceRole {
    /// The roles `ty` fills on its own; the configured `timestamp_type` is
    /// matched exactly on top of the name heuristic.
    pub fn of_type(ty: &TypeTree, timestamp_type: &TypeTree) -> (r: Self)
        ensures
            r == spec_role_of_type(*ty, *timestamp_type),
    {
        TraceRole {
            backtrace: ty.is_backtrace_type(),
            spantrace: ty.is_spantrace_type(),
            traces: ty.is_traces_type(),
            location: ty.is_location_type(),
            timestamp: ty.is_timestamp_type() || ty.same(timestamp_type),
        }
    }

    /// The roles a field of type `ty` with keys `attrs` fills.
    pub fn of_field(ty: &TypeTree, attrs: &FieldAttrs, timestamp_type: &TypeTree) -> (r: Self)
        ensures
            ({
                let t = spec_role_of_type(*ty, *timestamp_type);
                r == (TraceRole {
                    backtrace: attrs.backtrace || t.backtrace,
                    spantrace: attrs.spantrace || t.spantrace,
                    traces: attrs.traces || t.traces,
                    location: attrs.location || t.location,
                    timestamp: t.timestamp,
                })
            }),
    {
        let by_type = TraceRole::of_type(ty, timestamp_type);
        TraceRole {
            backtrace: attrs.backtrace || by_type.backtrace,
            spantrace: attrs.spantrace || by_type.spantrace,
            traces: attrs.traces || by_type.traces,
            location: attrs.location || by_type.location,
            timestamp: by_type.timestamp,
        }
    }

    pub fn any(self) -> (r: bool)
        ensures
            r == (self.backtrace || self.spantrace || self.traces || self.location
                || self.timestamp),
    {
        self.backtrace || self.spantrace || self.traces || self.location || self.timestamp
    }
}

} // verus!
