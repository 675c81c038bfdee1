//! What `traced` injects into a struct or variant under one cfg
//! assignment: which trace, timestamp and location fields already exist,
//! which are to be added, and whether the item gets the generated error
//! code.

use vstd::prelude::*;
use crate::categorize::Field;
use crate::fields::{TraceRole, spec_role_of_type};
use crate::flags::{ResolvedForward, ResolvedTraceArgs};
use crate::types::{TypeTree, str_eq};

verus! {

/// Which injectable fields an item already has; `timestamp_conflict` is the
/// first user-written timestamp-typed field, if any.
#[derive(Debug, Clone, Copy, PartialEq, Eq)]
pub struct FieldExistence {
    pub has_backtrace: bool,
    pub has_spantrace: bool,
    pub has_timestamp: bool,
    pub has_traces: bool,
    pub has_location: bool,
    pub timestamp_conflict: Option<usize>,
}

/// Which fields to inject.
#[derive(Debug, Clone, Copy, PartialEq, Eq)]
pub struct FieldsToInject {
    pub backtrace: bool,
    pub spantrace: bool,
    pub timestamp: bool,
    pub traces: bool,
    pub location: bool,
}

impl FieldsToInject {
    pub fn any(&self) -> (r: bool)
        ensures
            r == (self.backtrace || self.spantrace || self.timestamp || self.traces
                || self.location),
    {
        self.backtrace || self.spantrace || self.timestamp || self.traces || self.location
    }
}

/// The injected field names a user field may not take.
#[derive(Debug, Clone, Copy, PartialEq, Eq)]
pub enum MangledName {
    Traces,
    Backtrace,
    Spantrace,
    Location,
}

/// Why an item cannot be injected into under an assignment.
#[derive(Debug, Clone, Copy, PartialEq, Eq)]
pub enum InjectError {
    /// Field `.0` is named like an injected field without being one.
    MangledCollision(usize, MangledName),
    /// `timestamp` was asked for, but field `.0`'s type suppresses it.
    TimestampConflict(usize),
}

impl MangledName {
    /// The injected field's name.
    pub fn text(self) -> (r: &'static str)
        ensures
            r@ == mangled_text(self),
    {
        match self {
            MangledName::Traces => "__oopsie_traces",
            MangledName::Backtrace => "__oopsie_backtrace",
            MangledName::Spantrace => "__oopsie_spantrace",
            MangledName::Location => "__oopsie_location",
        }
    }
}

pub open spec fn mangled_text(m: MangledName) -> Seq<char> {
    match m {
        MangledName::Traces => "__oopsie_traces"@,
        MangledName::Backtrace => "__oopsie_backtrace"@,
        MangledName::Spantrace => "__oopsie_spantrace"@,
        MangledName::Location => "__oopsie_location"@,
    }
}

pub open spec fn timestamp_conflict_text() -> Seq<char> {
    "this field's type suppresses `traced(timestamp)` injection, but the field is not auto-captured or wired to `provide` like a backtrace/spantrace field would be; `timestamp` has no effect here \u{2014} rename or retype this field, or drop `timestamp` from `traced`"@
}

pub open spec fn inject_error_text(e: InjectError) -> Seq<char> {
    match e {
        InjectError::MangledCollision(_, m) => "`"@ + mangled_text(m) + "` conflicts with a field injected by `traced`; rename it"@,
        InjectError::TimestampConflict(_) => timestamp_conflict_text(),
    }
}

impl InjectError {
    /// The diagnostic, reported at the field the error names.
    pub fn message(&self) -> (r: String)
        ensures
            r@ == inject_error_text(*self),
    {
        match self {
            InjectError::MangledCollision(_, m) => {
                let mut s = String::new();
                crate::chars::push_str(&mut s, "`");
                crate::chars::push_str(&mut s, m.text());
                crate::chars::push_str(&mut s, "` conflicts with a field injected by `traced`; rename it");
                assert(s@ =~= inject_error_text(*self));
                s
            },
            InjectError::TimestampConflict(_) => {
                let mut s = String::new();
                crate::chars::push_str(
                    &mut s,
                    "this field's type suppresses `traced(timestamp)` injection, but the field is not auto-captured or wired to `provide` like a backtrace/spantrace field would be; `timestamp` has no effect here \u{2014} rename or retype this field, or drop `timestamp` from `traced`",
                );
                s
            },
        }
    }
}

/// The roles of field `f`.
pub open spec fn role_of(f: Field, timestamp_type: TypeTree) -> TraceRole {
    let t = spec_role_of_type(f.ty, timestamp_type);
    TraceRole {
        backtrace: f.attrs.backtrace || t.backtrace,
        spantrace: f.attrs.spantrace || t.spantrace,
        traces: f.attrs.traces || t.traces,
        location: f.attrs.location || t.location,
        timestamp: t.timestamp,
    }
}

pub open spec fn named(f: Field, name: Seq<char>) -> bool {
    match f.ident {
        Some(id) => id@ == name,
        None => false,
    }
}

/// The injected name that field `f` collides with, if any.
pub open spec fn collision(f: Field, timestamp_type: TypeTree) -> Option<MangledName> {
    let r = role_of(f, timestamp_type);
    if named(f, "__oopsie_traces"@) && !r.traces {
        Some(MangledName::Traces)
    } else if named(f, "__oopsie_backtrace"@) && !r.backtrace {
        Some(MangledName::Backtrace)
    } else if named(f, "__oopsie_spantrace"@) && !r.spantrace {
        Some(MangledName::Spantrace)
    } else if named(f, "__oopsie_location"@) && !r.location {
        Some(MangledName::Location)
    } else {
        None
    }
}

/// The first collision among `fs[i..]`.
pub open spec fn first_collision(fs: Seq<Field>, i: int, ts: TypeTree) -> Option<InjectError>
    decreases fs.len() - i,
{
    if 0 <= i < fs.len() {
        match collision(fs[i], ts) {
            Some(m) => Some(InjectError::MangledCollision(i as usize, m)),
            None => first_collision(fs, i + 1, ts),
        }
    } else {
        None
    }
}

/// The first user-written timestamp-typed field among `fs[..n]`.
pub open spec fn first_timestamp(fs: Seq<Field>, n: int, ts: TypeTree) -> Option<usize>
    decreases n,
{
    if n <= 0 {
        None
    } else {
        match first_timestamp(fs, n - 1, ts) {
            Some(k) => Some(k),
            None => if role_of(fs[n - 1], ts).timestamp && !named(fs[n - 1], "__oopsie_timestamp"@) {
                Some((n - 1) as usize)
            } else {
                None
            },
        }
    }
}

/// The kinds of supply an existing field may give.
pub enum Supply {
    Traces,
    Backtrace,
    Spantrace,
    Timestamp,
    Location,
}

/// Whether field `f` supplies `kind`: by role, and for the timestamp also
/// by carrying the injected timestamp's name.
pub open spec fn supplies(f: Field, ts: TypeTree, kind: Supply) -> bool {
    let r = role_of(f, ts);
    match kind {
        Supply::Traces => r.traces,
        Supply::Backtrace => r.traces || r.backtrace,
        Supply::Spantrace => r.traces || r.spantrace,
        Supply::Timestamp => named(f, "__oopsie_timestamp"@) || r.timestamp,
        Supply::Location => r.location,
    }
}

/// Whether one of `fs[..n]` supplies `kind`.
pub open spec fn supplied(fs: Seq<Field>, n: int, ts: TypeTree, kind: Supply) -> bool
    decreases n,
{
    if n <= 0 {
        false
    } else {
        supplied(fs, n - 1, ts, kind) || supplies(fs[n - 1], ts, kind)
    }
}

/// What the fields `fs` already supply.
pub open spec fn existence_of(fs: Seq<Field>, ts: TypeTree) -> FieldExistence {
    let n = fs.len() as int;
    FieldExistence {
        has_traces: supplied(fs, n, ts, Supply::Traces),
        has_backtrace: supplied(fs, n, ts, Supply::Backtrace),
        has_spantrace: supplied(fs, n, ts, Supply::Spantrace),
        has_timestamp: supplied(fs, n, ts, Supply::Timestamp),
        has_location: supplied(fs, n, ts, Supply::Location),
        timestamp_conflict: first_timestamp(fs, n, ts),
    }
}

fn is_named(f: &Field, name: &str) -> (r: bool)
    ensures
        r == named(*f, name@),
{
    match &f.ident {
        Some(id) => str_eq(id.as_str(), name),
        None => false,
    }
}

/// Which injectable fields `fields` already have, by explicit role or by
/// type (a packed traces field counts for both traces); refused when a
/// field is named like an injected one without filling its role.
pub fn check_existing_fields(fields: &Vec<Field>, timestamp_type: &TypeTree) -> (r: Result<
    FieldExistence,
    InjectError,
>)
    ensures
        match first_collision(fields@, 0, *timestamp_type) {
            Some(e) => r == Err::<FieldExistence, InjectError>(e),
            None => r == Ok::<FieldExistence, InjectError>(existence_of(fields@, *timestamp_type)),
        },
{
    let ghost fs = fields@;
    let ghost ts = *timestamp_type;
    let mut e = FieldExistence {
        has_backtrace: false,
        has_spantrace: false,
        has_timestamp: false,
        has_traces: false,
        has_location: false,
        timestamp_conflict: None,
    };
    let mut i: usize = 0;
    while i < fields.len()
        invariant
            fs == fields@,
            ts == *timestamp_type,
            i <= fields.len(),
            first_collision(fs, 0, ts) == first_collision(fs, i as int, ts),
            e.has_traces == supplied(fs, i as int, ts, Supply::Traces),
            e.has_backtrace == supplied(fs, i as int, ts, Supply::Backtrace),
            e.has_spantrace == supplied(fs, i as int, ts, Supply::Spantrace),
            e.has_timestamp == supplied(fs, i as int, ts, Supply::Timestamp),
            e.has_location == supplied(fs, i as int, ts, Supply::Location),
            e.timestamp_conflict == first_timestamp(fs, i as int, ts),
        decreases fields.len() - i,
    {
        let f = &fields[i];
        let injected_ts = is_named(f, "__oopsie_timestamp");
        let role = TraceRole::of_field(&f.ty, &f.attrs, timestamp_type);
        assert(role == role_of(fs[i as int], ts));
        if role.traces {
            e.has_traces = true;
            e.has_backtrace = true;
            e.has_spantrace = true;
        }
        if role.backtrace {
            e.has_backtrace = true;
        }
        if role.spantrace {
            e.has_spantrace = true;
        }
        if injected_ts || role.timestamp {
            e.has_timestamp = true;
        }
        if role.timestamp && !injected_ts && e.timestamp_conflict.is_none() {
            e.timestamp_conflict = Some(i);
        }
        if role.location {
            e.has_location = true;
        }
        if is_named(f, "__oopsie_traces") && !role.traces {
            return Err(InjectError::MangledCollision(i, MangledName::Traces));
        }
        if is_named(f, "__oopsie_backtrace") && !role.backtrace {
            return Err(InjectError::MangledCollision(i, MangledName::Backtrace));
        }
        if is_named(f, "__oopsie_spantrace") && !role.spantrace {
            return Err(InjectError::MangledCollision(i, MangledName::Spantrace));
        }
        if is_named(f, "__oopsie_location") && !role.location {
            return Err(InjectError::MangledCollision(i, MangledName::Location));
        }
        i = i + 1;
    }
    Ok(e)
}

/// Whether an item gets the generated error code: only when code is on, the
/// item has no code of its own, and it is not transparent (which forwards
/// its source's).
pub fn wants_auto_code(code_enabled: bool, has_user_code: bool, is_transparent: bool) -> (r: bool)
    ensures
        r == (code_enabled && !has_user_code && !is_transparent),
{
    code_enabled && !has_user_code && !is_transparent
}

pub open spec fn spec_auto_code_name(item_name: Seq<char>, variant: Option<Seq<char>>) -> Seq<char> {
    match variant {
        Some(v) => item_name + "::"@ + v,
        None => item_name,
    }
}

/// The path the generated error code names after the module path: the
/// type for a struct, `Type::Variant` for an enum variant.
pub fn auto_code_name(item_name: &str, variant: Option<&str>) -> (r: String)
    ensures
        r@ == spec_auto_code_name(item_name@, match variant {
            Some(v) => Some(v@),
            None => None,
        }),
{
    let mut s = String::new();
    crate::chars::push_str(&mut s, item_name);
    match variant {
        Some(v) => {
            crate::chars::push_str(&mut s, "::");
            crate::chars::push_str(&mut s, v);
            assert(s@ =~= item_name@ + "::"@ + v@);
        },
        None => {
            assert(s@ =~= item_name@);
        },
    }
    s
}

/// What an item's own attributes say about injection.
#[derive(Debug, Clone, Copy, PartialEq, Eq)]
pub struct ItemFacts {
    pub traced: bool,
    pub has_user_code: bool,
    pub transparent: bool,
}

/// The injection outcome under one assignment that does not refuse the
/// item.
#[derive(Debug, Clone, PartialEq, Eq)]
pub enum Decision {
    Inject(FieldsToInject, bool),
    /// The attributes left under this assignment do not parse: nothing is
    /// injected, and the parse error is reported if this is the real one.
    Deferred(String),
}

/// The first source field forwarding anything, or nothing forwarded.
pub open spec fn forward_of_fields(fs: Seq<Field>, i: int) -> ResolvedForward
    decreases fs.len() - i,
{
    if 0 <= i < fs.len() {
        let f = ResolvedForward::spec_resolve(fs[i].attrs.forward);
        if f.backtrace || f.spantrace || f.location {
            f
        } else {
            forward_of_fields(fs, i + 1)
        }
    } else {
        ResolvedForward { backtrace: false, spantrace: false, location: false }
    }
}

/// The fields to inject, given what is asked, what is forwarded and what
/// exists: a trace is injected when traced, asked for, not forwarded and
/// not already there; both traces go in one packed field when `packed` and
/// no trace field exists.
pub open spec fn spec_to_inject<P>(
    r: ResolvedTraceArgs<P>,
    traced: bool,
    fw: ResolvedForward,
    e: FieldExistence,
) -> FieldsToInject {
    let bt = traced && r.backtrace && !fw.backtrace;
    let st = traced && r.spantrace && !fw.spantrace;
    let loc = traced && r.location && !fw.location;
    let packed = r.packed && bt && st && !e.has_backtrace && !e.has_spantrace && !e.has_traces;
    FieldsToInject {
        backtrace: !packed && bt && !e.has_backtrace,
        spantrace: !packed && st && !e.has_spantrace,
        timestamp: traced && r.timestamp && !e.has_timestamp,
        traces: packed,
        location: loc && !e.has_location,
    }
}

/// A packed traces field replaces the separate ones, and a trace, timestamp
/// or location the item already has is never injected again.
pub proof fn lemma_injection_never_duplicates<P>(
    r: ResolvedTraceArgs<P>,
    traced: bool,
    fw: ResolvedForward,
    e: FieldExistence,
)
    ensures
        ({
            let t = spec_to_inject(r, traced, fw, e);
            &&& t.traces ==> !t.backtrace && !t.spantrace
            &&& e.has_backtrace ==> !t.backtrace && !t.traces
            &&& e.has_spantrace ==> !t.spantrace && !t.traces
            &&& e.has_timestamp ==> !t.timestamp
            &&& e.has_location ==> !t.location
        }),
{
}

/// A trace or location the source forwards (`#[oopsie(forward)]`) is not
/// captured again by the wrapping layer: no field for it is injected.
pub proof fn lemma_forwarded_not_injected<P>(
    r: ResolvedTraceArgs<P>,
    traced: bool,
    fw: ResolvedForward,
    e: FieldExistence,
)
    ensures
        ({
            let t = spec_to_inject(r, traced, fw, e);
            &&& fw.backtrace ==> !t.backtrace && !t.traces
            &&& fw.spantrace ==> !t.spantrace && !t.traces
            &&& fw.location ==> !t.location
        }),
{
}

/// Nothing is injected into an item that is not traced.
pub proof fn lemma_untraced_injects_nothing<P>(r: ResolvedTraceArgs<P>, fw: ResolvedForward, e: FieldExistence)
    ensures
        ({
            let t = spec_to_inject(r, false, fw, e);
            !t.backtrace && !t.spantrace && !t.timestamp && !t.traces && !t.location
        }),
{
}

/// The decision for one assignment, from the item's facts and field list
/// as parsed under it (either may have failed to parse).
pub fn decide<P>(
    resolved: &ResolvedTraceArgs<P>,
    timestamp_requested: bool,
    facts: Result<ItemFacts, String>,
    fields: Result<Vec<Field>, String>,
    timestamp_type: &TypeTree,
) -> (r: Result<Decision, InjectError>)
    ensures
        match facts {
            Err(m) => r == Ok::<Decision, InjectError>(Decision::Deferred(m)),
            Ok(fa) => match fields {
                Err(m) => r == Ok::<Decision, InjectError>(Decision::Deferred(m)),
                Ok(fs) => match first_collision(fs@, 0, *timestamp_type) {
                    Some(e) => r == Err::<Decision, InjectError>(e),
                    None => {
                        let e = existence_of(fs@, *timestamp_type);
                        if fa.traced && timestamp_requested && e.timestamp_conflict is Some {
                            r == Err::<Decision, InjectError>(
                                InjectError::TimestampConflict(e.timestamp_conflict->0),
                            )
                        } else {
                            let fw = if fa.traced {
                                forward_of_fields(fs@, 0)
                            } else {
                                ResolvedForward { backtrace: false, spantrace: false, location: false }
                            };
                            r == Ok::<Decision, InjectError>(
                                Decision::Inject(
                                    spec_to_inject(*resolved, fa.traced, fw, e),
                                    fa.traced && resolved.code && !fa.has_user_code && !fa.transparent,
                                ),
                            )
                        }
                    },
                },
            },
        },
{
    let facts = match facts {
        Ok(f) => f,
        Err(m) => return Ok(Decision::Deferred(m)),
    };
    let fields = match fields {
        Ok(fs) => fs,
        Err(m) => return Ok(Decision::Deferred(m)),
    };
    let existence = match check_existing_fields(&fields, timestamp_type) {
        Ok(e) => e,
        Err(e) => return Err(e),
    };
    if facts.traced && timestamp_requested {
        if let Some(k) = existence.timestamp_conflict {
            return Err(InjectError::TimestampConflict(k));
        }
    }
    let forward = if facts.traced {
        first_forward(&fields)
    } else {
        ResolvedForward { backtrace: false, spantrace: false, location: false }
    };
    let inject_backtrace = facts.traced && resolved.backtrace && !forward.backtrace;
    let inject_spantrace = facts.traced && resolved.spantrace && !forward.spantrace;
    let inject_location = facts.traced && resolved.location && !forward.location;
    let packed = resolved.packed && inject_backtrace && inject_spantrace && !existence.has_backtrace
        && !existence.has_spantrace && !existence.has_traces;
    let to_inject = FieldsToInject {
        backtrace: !packed && inject_backtrace && !existence.has_backtrace,
        spantrace: !packed && inject_spantrace && !existence.has_spantrace,
        timestamp: facts.traced && resolved.timestamp && !existence.has_timestamp,
        traces: packed,
        location: inject_location && !existence.has_location,
    };
    let auto_code = wants_auto_code(facts.traced && resolved.code, facts.has_user_code, facts.transparent);
    Ok(Decision::Inject(to_inject, auto_code))
}

/// The forward of the first field that forwards anything.
fn first_forward(fields: &Vec<Field>) -> (r: ResolvedForward)
    ensures
        r == forward_of_fields(fields@, 0),
{
    let mut i: usize = 0;
    while i < fields.len()
        invariant
            i <= fields.len(),
            forward_of_fields(fields@, 0) == forward_of_fields(fields@, i as int),
        decreases fields.len() - i,
    {
        let f = ResolvedForward::resolve(&fields[i].attrs.forward);
        if f.any() {
            return f;
        }
        i = i + 1;
    }
    ResolvedForward { backtrace: false, spantrace: false, location: false }
}

} // verus!
