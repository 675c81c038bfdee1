//! Where each diagnostic of an error layer comes from: the traces and the
//! location its stable accessors return (its own field, its source's, or
//! the source's first), its error code, help text and exit code, and what
//! its provider-API `provide` offers of its own and passes on from its
//! source. The impls the macros emit follow this plan.

use vstd::prelude::*;
use crate::flags::ResolvedForward;
use crate::meta::MetaSet;

verus! {

/// What one layer (a variant or a struct) has, as the `Error` and
/// `Diagnostic` impls read it.
#[derive(Clone, Copy, Debug, PartialEq, Eq)]
pub struct LayerFacts {
    /// A packed `(Backtrace, SpanTrace)` field.
    pub traces_field: bool,
    pub backtrace_field: bool,
    pub spantrace_field: bool,
    pub location_field: bool,
    /// A field marked `#[oopsie(help)]`.
    pub help_field: bool,
    /// The source's forward flags, when the layer has a source.
    pub source: Option<ResolvedForward>,
    pub transparent: bool,
    /// A written `code = ...`, and whether its format string is static.
    pub code: Option<bool>,
    /// A written `help = ...`, and whether its format string is static.
    pub help: Option<bool>,
    /// The layer's exit code: its own, else its container's.
    pub exit_code: Option<u8>,
    /// How many `provide(...)` entries are spelled as oopsie's `ErrorCode`.
    pub code_candidates: usize,
    /// How many `provide(...)` entries are spelled as oopsie's `HelpText`.
    pub help_candidates: usize,
}

/// A trace accessor: this layer's own trace, its source's (through the
/// provider API, and the stable probe when `probe`), consulted source first.
#[derive(Clone, Copy, Debug, PartialEq, Eq)]
pub struct TraceAccess {
    pub own: bool,
    pub source: bool,
    pub probe: bool,
}

/// The location accessor: the source's through the stable probe (when
/// `probe`), then this layer's own.
#[derive(Clone, Copy, Debug, PartialEq, Eq)]
pub struct LocationAccess {
    pub own: bool,
    pub probe: bool,
}

/// Where an error code or help text comes from.
#[derive(Clone, Copy, Debug, PartialEq, Eq)]
pub enum MetaAccess {
    /// The `#[oopsie(help)]` field (help text only).
    Field,
    /// A written `code = ...` / `help = ...`; `true` when static.
    Written(bool),
    /// The first `provide(...)` of oopsie's type; `true` when the source's
    /// value is the fallback.
    Provided(bool),
    /// The source's value.
    Forwarded,
    /// No accessor.
    Absent,
}

/// Where the exit code comes from.
#[derive(Clone, Copy, Debug, PartialEq, Eq)]
pub enum ExitAccess {
    Declared(u8),
    Forwarded,
    Absent,
}

/// Which trace fields `provide` offers.
#[derive(Clone, Copy, Debug, PartialEq, Eq)]
pub enum TraceProvide {
    /// Both traces, from the packed field.
    Packed,
    /// Each separate trace field there is.
    Separate(bool, bool),
}

/// The plan of one layer's impls.
#[derive(Clone, Copy, Debug, PartialEq, Eq)]
pub struct DiagnosticPlan {
    pub backtrace: Option<TraceAccess>,
    pub spantrace: Option<TraceAccess>,
    pub location: Option<LocationAccess>,
    pub code: MetaAccess,
    pub help: MetaAccess,
    pub exit_code: ExitAccess,
    /// The meta types the layer supplies itself, ahead of any `provide(...)`.
    pub own: MetaSet,
    /// When the layer has a source, whether `provide` holds back the source's
    /// code and help from the request.
    pub withholds_source_meta: Option<bool>,
    pub traces: TraceProvide,
}

/// What a layer's `Display` writes.
#[derive(Clone, Copy, Debug, PartialEq, Eq)]
pub enum DisplayFrom {
    /// Its display string.
    Written,
    /// Its source's `Display` (a transparent layer without a string).
    Source,
    /// Its own name.
    Name,
}

pub open spec fn spec_display_from(written: bool, transparent: bool, has_source: bool) -> DisplayFrom {
    if written {
        DisplayFrom::Written
    } else if transparent && has_source {
        DisplayFrom::Source
    } else {
        DisplayFrom::Name
    }
}

/// A written display string wins; a transparent layer otherwise shows its
/// source; anything else shows its name.
pub fn display_from(written: bool, transparent: bool, has_source: bool) -> (r: DisplayFrom)
    ensures
        r == spec_display_from(written, transparent, has_source),
{
    if written {
        DisplayFrom::Written
    } else if transparent && has_source {
        DisplayFrom::Source
    } else {
        DisplayFrom::Name
    }
}

/// A trace accessor, given whether the layer has its own trace and whether
/// its source forwards this trace on the stable path.
pub open spec fn spec_trace(own: bool, f: LayerFacts, forwards: bool) -> Option<TraceAccess> {
    if !own && f.source is None {
        None
    } else {
        Some(TraceAccess {
            own,
            source: f.source is Some,
            probe: f.source is Some && (f.transparent || forwards),
        })
    }
}

pub open spec fn forwards_backtrace(f: LayerFacts) -> bool {
    match f.source {
        Some(fw) => fw.backtrace,
        None => false,
    }
}

pub open spec fn forwards_spantrace(f: LayerFacts) -> bool {
    match f.source {
        Some(fw) => fw.spantrace,
        None => false,
    }
}

pub open spec fn forwards_location(f: LayerFacts) -> bool {
    match f.source {
        Some(fw) => fw.location,
        None => false,
    }
}

pub open spec fn spec_location(f: LayerFacts) -> Option<LocationAccess> {
    let probe = f.source is Some && (f.transparent || forwards_location(f));
    if !f.location_field && !probe {
        None
    } else {
        Some(LocationAccess { own: f.location_field, probe })
    }
}

/// A code or help accessor after the written value: the `provide(...)`
/// candidates, then (transparent only) the source's.
pub open spec fn spec_provided(f: LayerFacts, candidates: usize) -> MetaAccess {
    let forward = f.transparent && f.source is Some;
    if candidates > 0 {
        MetaAccess::Provided(forward)
    } else if forward {
        MetaAccess::Forwarded
    } else {
        MetaAccess::Absent
    }
}

pub open spec fn spec_code(f: LayerFacts) -> MetaAccess {
    match f.code {
        Some(s) => MetaAccess::Written(s),
        None => spec_provided(f, f.code_candidates),
    }
}

/// Help: the help field first, then a written `help`, then as for code.
pub open spec fn spec_help(f: LayerFacts) -> MetaAccess {
    if f.help_field {
        MetaAccess::Field
    } else {
        match f.help {
            Some(s) => MetaAccess::Written(s),
            None => spec_provided(f, f.help_candidates),
        }
    }
}

/// A variant's exit code: its own `exit_code = N` when it declares one, else
/// the one declared on its enum.
pub fn layer_exit_code<T>(own: Option<T>, container: Option<T>) -> (r: Option<T>)
    ensures
        r == (match own {
            Some(_) => own,
            None => container,
        }),
{
    match own {
        Some(c) => Some(c),
        None => container,
    }
}

pub open spec fn spec_exit(f: LayerFacts) -> ExitAccess {
    match f.exit_code {
        Some(c) => ExitAccess::Declared(c),
        None => if f.source is Some {
            ExitAccess::Forwarded
        } else {
            ExitAccess::Absent
        },
    }
}

pub open spec fn spec_plan(f: LayerFacts) -> DiagnosticPlan {
    DiagnosticPlan {
        backtrace: spec_trace(f.traces_field || f.backtrace_field, f, forwards_backtrace(f)),
        spantrace: spec_trace(f.traces_field || f.spantrace_field, f, forwards_spantrace(f)),
        location: spec_location(f),
        code: spec_code(f),
        help: spec_help(f),
        exit_code: spec_exit(f),
        own: MetaSet { code: f.code is Some, help: f.help_field || f.help is Some },
        withholds_source_meta: if f.source is Some {
            Some(!f.transparent)
        } else {
            None
        },
        traces: if f.traces_field {
            TraceProvide::Packed
        } else {
            TraceProvide::Separate(f.backtrace_field, f.spantrace_field)
        },
    }
}

fn trace_access(own: bool, f: &LayerFacts, forwards: bool) -> (r: Option<TraceAccess>)
    ensures
        r == spec_trace(own, *f, forwards),
{
    let has_source = f.source.is_some();
    if !own && !has_source {
        None
    } else {
        Some(TraceAccess { own, source: has_source, probe: has_source && (f.transparent || forwards) })
    }
}

fn provided_access(f: &LayerFacts, candidates: usize) -> (r: MetaAccess)
    ensures
        r == spec_provided(*f, candidates),
{
    let forward = f.transparent && f.source.is_some();
    if candidates > 0 {
        MetaAccess::Provided(forward)
    } else if forward {
        MetaAccess::Forwarded
    } else {
        MetaAccess::Absent
    }
}

/// The plan of a layer's `Error` and `Diagnostic` impls.
pub fn diagnostic_plan(f: &LayerFacts) -> (r: DiagnosticPlan)
    ensures
        r == spec_plan(*f),
{
    let (fw_bt, fw_st, fw_loc) = match f.source {
        Some(fw) => (fw.backtrace, fw.spantrace, fw.location),
        None => (false, false, false),
    };
    let loc_probe = f.source.is_some() && (f.transparent || fw_loc);
    let location = if !f.location_field && !loc_probe {
        None
    } else {
        Some(LocationAccess { own: f.location_field, probe: loc_probe })
    };
    let code = match f.code {
        Some(s) => MetaAccess::Written(s),
        None => provided_access(f, f.code_candidates),
    };
    let help = if f.help_field {
        MetaAccess::Field
    } else {
        match f.help {
            Some(s) => MetaAccess::Written(s),
            None => provided_access(f, f.help_candidates),
        }
    };
    let exit_code = match f.exit_code {
        Some(c) => ExitAccess::Declared(c),
        None => if f.source.is_some() {
            ExitAccess::Forwarded
        } else {
            ExitAccess::Absent
        },
    };
    DiagnosticPlan {
        backtrace: trace_access(f.traces_field || f.backtrace_field, f, fw_bt),
        spantrace: trace_access(f.traces_field || f.spantrace_field, f, fw_st),
        location,
        code,
        help,
        exit_code,
        own: MetaSet { code: f.code.is_some(), help: f.help_field || f.help.is_some() },
        withholds_source_meta: if f.source.is_some() {
            Some(!f.transparent)
        } else {
            None
        },
        traces: if f.traces_field {
            TraceProvide::Packed
        } else {
            TraceProvide::Separate(f.backtrace_field, f.spantrace_field)
        },
    }
}

/// The stable accessors and `provide` agree on the source's code and help:
/// a layer that is not transparent holds them back from the request and
/// never falls back to them in its accessors, and a transparent one passes
/// them on in both.
pub proof fn lemma_source_meta_agrees(f: LayerFacts)
    requires
        f.source is Some,
    ensures
        ({
            let p = spec_plan(f);
            &&& p.withholds_source_meta == Some(!f.transparent)
            &&& !f.transparent ==> p.code != MetaAccess::Forwarded && p.code != MetaAccess::Provided(true)
                && p.help != MetaAccess::Forwarded && p.help != MetaAccess::Provided(true)
            &&& f.transparent && f.code is None && f.code_candidates == 0 ==> p.code == MetaAccess::Forwarded
            &&& f.transparent && !f.help_field && f.help is None && f.help_candidates == 0 ==> p.help
                == MetaAccess::Forwarded
        }),
{
}

/// A layer's own value always wins in its accessors: a written code, a
/// help field or written help, and a declared exit code are what the
/// accessors return, and the layer supplies that code and help itself.
pub proof fn lemma_own_meta_wins(f: LayerFacts)
    ensures
        ({
            let p = spec_plan(f);
            &&& f.code matches Some(s) ==> p.code == MetaAccess::Written(s) && p.own.code
            &&& f.help_field ==> p.help == MetaAccess::Field && p.own.help
            &&& !f.help_field && f.help is Some ==> p.help == MetaAccess::Written(f.help->0) && p.own.help
            &&& f.exit_code matches Some(c) ==> p.exit_code == ExitAccess::Declared(c)
        }),
{
}

/// A trace the layer captures is always reachable from its accessor, and
/// a layer with a source always consults it first; a transparent layer
/// reaches its source's traces and location on the stable path too.
pub proof fn lemma_traces_reachable(f: LayerFacts)
    ensures
        ({
            let p = spec_plan(f);
            &&& (f.traces_field || f.backtrace_field) ==> (p.backtrace matches Some(a) && a.own)
            &&& (f.traces_field || f.spantrace_field) ==> (p.spantrace matches Some(a) && a.own)
            &&& f.location_field ==> (p.location matches Some(l) && l.own)
            &&& f.source is Some ==> (p.backtrace matches Some(a) && a.source)
            &&& f.source is Some ==> (p.spantrace matches Some(a) && a.source)
            &&& f.source is Some && f.transparent ==> (p.backtrace matches Some(a) && a.probe)
            &&& f.source is Some && f.transparent ==> (p.spantrace matches Some(a) && a.probe)
            &&& f.source is Some && f.transparent ==> (p.location matches Some(l) && l.probe)
        }),
{
}

/// A forwarded trace or location is reached on the stable path: the
/// accessor consults the source through the probe.
pub proof fn lemma_forward_reaches_source(f: LayerFacts, fw: ResolvedForward)
    requires
        f.source == Some(fw),
    ensures
        ({
            let p = spec_plan(f);
            &&& fw.backtrace ==> (p.backtrace matches Some(a) && a.source && a.probe)
            &&& fw.spantrace ==> (p.spantrace matches Some(a) && a.source && a.probe)
            &&& fw.location ==> (p.location matches Some(l) && l.probe)
        }),
{
}

} // verus!
