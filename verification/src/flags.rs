//! Attribute flags and their resolution: tristate flags, field settings, the
//! container's module and suffix settings, forwarded traces, and the folding
//! of `traced(...)` toggles against project defaults.
use vstd::prelude::*;

use crate::size::SizeConstraint;

verus! {

/// A flag that is explicitly on, explicitly off, or left at `DEFAULT`.
#[derive(Clone, Copy, Debug, PartialEq, Eq, Hash)]
pub enum BetterFlag<const DEFAULT: bool> {
    Enabled,
    Disabled,
    Default,
}

impl<const DEFAULT: bool> BetterFlag<DEFAULT> {
    pub open spec fn spec_is_enabled(self) -> bool {
        match self {
            BetterFlag::Enabled => true,
            BetterFlag::Disabled => false,
            BetterFlag::Default => DEFAULT,
        }
    }

    pub open spec fn spec_to_option(self) -> Option<bool> {
        match self {
            BetterFlag::Enabled => Some(true),
            BetterFlag::Disabled => Some(false),
            BetterFlag::Default => None,
        }
    }

    pub fn is_enabled(self) -> (r: bool)
        ensures
            r == self.spec_is_enabled(),
    {
        match self {
            BetterFlag::Enabled => true,
            BetterFlag::Disabled => false,
            BetterFlag::Default => DEFAULT,
        }
    }

    pub fn to_option(self) -> (r: Option<bool>)
        ensures
            r == self.spec_to_option(),
    {
        match self {
            BetterFlag::Enabled => Some(true),
            BetterFlag::Disabled => Some(false),
            BetterFlag::Default => None,
        }
    }

    /// The flag for an absent key.
    pub fn from_none() -> (r: Option<Self>)
        ensures
            r == Some(BetterFlag::<DEFAULT>::Default),
    {
        Some(BetterFlag::Default)
    }

    /// The flag for a boolean literal value.
    pub fn from_bool(value: bool) -> (r: Self)
        ensures
            r == (if value {
                BetterFlag::<DEFAULT>::Enabled
            } else {
                BetterFlag::<DEFAULT>::Disabled
            }),
    {
        if value {
            BetterFlag::Enabled
        } else {
            BetterFlag::Disabled
        }
    }
}

/// An explicit flag decides, a default one reports `DEFAULT`; the option view
/// and the enabled view agree wherever the option is set.
pub proof fn lemma_flag_option_agrees<const DEFAULT: bool>(f: BetterFlag<DEFAULT>)
    ensures
        f.spec_to_option() matches Some(b) ==> f.spec_is_enabled() == b,
        f.spec_to_option() is None ==> f.spec_is_enabled() == DEFAULT,
{
}

/// A settings block: an optional `enabled` key beside the block's own settings.
#[derive(Clone, Debug)]
pub struct Settings<T> {
    pub enabled: Option<bool>,
    pub settings: T,
}

/// A key that is either a plain flag or a settings block.
#[derive(Clone, Debug)]
pub enum FieldSetting<const DEFAULT: bool, T> {
    Settings(Settings<T>),
    Flag(bool),
}

impl<const DEFAULT: bool, T> FieldSetting<DEFAULT, T> {
    pub open spec fn spec_is_enabled(&self) -> bool {
        match self {
            FieldSetting::Settings(s) => match s.enabled {
                Some(b) => b,
                None => true,
            },
            FieldSetting::Flag(v) => *v,
        }
    }

    pub open spec fn spec_opt_settings(&self) -> Option<&T> {
        match self {
            FieldSetting::Settings(s) => Some(&s.settings),
            FieldSetting::Flag(_) => None,
        }
    }

    pub fn opt_settings(&self) -> (r: Option<&T>)
        ensures
            r == self.spec_opt_settings(),
    {
        match self {
            FieldSetting::Settings(settings) => Some(&settings.settings),
            FieldSetting::Flag(_) => None,
        }
    }

    /// A settings block is on unless its `enabled` key says otherwise.
    pub fn is_enabled(&self) -> (r: bool)
        ensures
            r == self.spec_is_enabled(),
    {
        match self {
            FieldSetting::Settings(settings) => match settings.enabled {
                Some(b) => b,
                None => true,
            },
            FieldSetting::Flag(value) => *value,
        }
    }

    /// The setting for an absent key.
    pub fn from_none() -> (r: Option<Self>)
        ensures
            r matches Some(FieldSetting::Flag(b)) && b == DEFAULT,
    {
        Some(FieldSetting::Flag(DEFAULT))
    }

    /// The setting when no key is written at all.
    pub fn default_setting() -> (r: Self)
        ensures
            r matches FieldSetting::Flag(b) && b == DEFAULT,
    {
        FieldSetting::Flag(DEFAULT)
    }
}

/// A key that accepts three shapes: `key` alone, `key(true|false)`, or a value.
#[derive(Clone, Debug)]
pub enum MaybeAloneOopsieValue<T> {
    Alone,
    Bool(bool),
    Value(T),
}

/// The selector-name suffix.
#[derive(Clone, Debug)]
pub enum SuffixSetting {
    /// No suffix (selector name = variant name).
    Off,
    /// Custom suffix.
    Custom(String),
}

/// Whether selectors are wrapped in a module, and its custom name if any.
#[derive(Clone, Debug)]
pub enum ModuleSetting<I> {
    On(Option<I>),
    Off,
}

/// The container keys of an enum or struct that the resolution rules read:
/// `module`, `suffix`, `size`, `path` and `exit_code`. `I` is the ident type
/// of a custom module name, `P` the path type of the crate path.
#[derive(Clone, Debug)]
pub struct EnumContainerAttrsInner<I, P> {
    pub module: Option<MaybeAloneOopsieValue<I>>,
    pub suffix: Option<MaybeAloneOopsieValue<String>>,
    pub size: Option<SizeConstraint>,
    pub path: Option<P>,
    pub exit_code: Option<u8>,
}

pub open spec fn spec_effective_suffix(
    suffix: Option<MaybeAloneOopsieValue<String>>,
    is_enum: bool,
) -> Option<Seq<char>> {
    match suffix {
        None => if is_enum {
            None
        } else {
            Some("Oopsie"@)
        },
        Some(MaybeAloneOopsieValue::Alone) => Some("Oopsie"@),
        Some(MaybeAloneOopsieValue::Bool(true)) => Some("Oopsie"@),
        Some(MaybeAloneOopsieValue::Bool(false)) => None,
        Some(MaybeAloneOopsieValue::Value(s)) => Some(s@),
    }
}

pub open spec fn suffix_view(s: SuffixSetting) -> Option<Seq<char>> {
    match s {
        SuffixSetting::Off => None,
        SuffixSetting::Custom(t) => Some(t@),
    }
}

impl<I, P> EnumContainerAttrsInner<I, P> {
    /// The suffix setting with the defaults of the item kind: enums default to
    /// no suffix, structs to `Oopsie`.
    pub fn effective_suffix(&self, is_enum: bool) -> (r: SuffixSetting)
        ensures
            suffix_view(r) == spec_effective_suffix(self.suffix, is_enum),
    {
        match &self.suffix {
            None => {
                if is_enum {
                    SuffixSetting::Off
                } else {
                    SuffixSetting::Custom(String::from_str("Oopsie"))
                }
            },
            Some(MaybeAloneOopsieValue::Alone) => SuffixSetting::Custom(String::from_str("Oopsie")),
            Some(MaybeAloneOopsieValue::Bool(true)) => SuffixSetting::Custom(
                String::from_str("Oopsie"),
            ),
            Some(MaybeAloneOopsieValue::Bool(false)) => SuffixSetting::Off,
            Some(MaybeAloneOopsieValue::Value(s)) => SuffixSetting::Custom(s.clone()),
        }
    }

    /// The module setting with the defaults of the item kind: enums default to
    /// an auto-named module, structs to none.
    pub fn effective_module(&self, is_enum: bool) -> (r: ModuleSetting<&I>)
        ensures
            r == (match self.module {
                None => if is_enum {
                    ModuleSetting::On(None)
                } else {
                    ModuleSetting::Off
                },
                Some(MaybeAloneOopsieValue::Alone) => ModuleSetting::On(None),
                Some(MaybeAloneOopsieValue::Bool(true)) => ModuleSetting::On(None),
                Some(MaybeAloneOopsieValue::Bool(false)) => ModuleSetting::Off,
                Some(MaybeAloneOopsieValue::Value(name)) => ModuleSetting::<&I>::On(Some(&name)),
            }),
    {
        match &self.module {
            None => {
                if is_enum {
                    ModuleSetting::On(None)
                } else {
                    ModuleSetting::Off
                }
            },
            Some(MaybeAloneOopsieValue::Alone) => ModuleSetting::On(None),
            Some(MaybeAloneOopsieValue::Bool(true)) => ModuleSetting::On(None),
            Some(MaybeAloneOopsieValue::Bool(false)) => ModuleSetting::Off,
            Some(MaybeAloneOopsieValue::Value(name)) => ModuleSetting::On(Some(name)),
        }
    }
}

// ─── Forwarded traces ────────────────────────────────────────────────

/// Sub-keys of `forward(...)`: which traces a source supplies. `backtrace` and
/// `spantrace` default on, `location` off.
#[derive(Clone, Copy, Debug)]
pub struct ForwardArgs {
    pub backtrace: BetterFlag<true>,
    pub spantrace: BetterFlag<true>,
    pub location: BetterFlag<false>,
}

/// Flattened forward decision for one source field.
#[derive(Clone, Copy, Debug, PartialEq, Eq)]
pub struct ResolvedForward {
    pub backtrace: bool,
    pub spantrace: bool,
    pub location: bool,
}

impl ResolvedForward {
    pub open spec fn spec_resolve(setting: FieldSetting<false, ForwardArgs>) -> ResolvedForward {
        if !setting.spec_is_enabled() {
            ResolvedForward { backtrace: false, spantrace: false, location: false }
        } else {
            match setting {
                FieldSetting::Settings(s) => ResolvedForward {
                    backtrace: s.settings.backtrace.spec_is_enabled(),
                    spantrace: s.settings.spantrace.spec_is_enabled(),
                    location: s.settings.location.spec_is_enabled(),
                },
                FieldSetting::Flag(_) => ResolvedForward {
                    backtrace: true,
                    spantrace: true,
                    location: false,
                },
            }
        }
    }

    /// A disabled `forward` forwards nothing; a bare one forwards backtrace and
    /// span trace but not location; a settings block decides per trace.
    pub fn resolve(setting: &FieldSetting<false, ForwardArgs>) -> (r: Self)
        ensures
            r == Self::spec_resolve(*setting),
    {
        if !setting.is_enabled() {
            return ResolvedForward { backtrace: false, spantrace: false, location: false };
        }
        match setting.opt_settings() {
            None => ResolvedForward { backtrace: true, spantrace: true, location: false },
            Some(a) => ResolvedForward {
                backtrace: a.backtrace.is_enabled(),
                spantrace: a.spantrace.is_enabled(),
                location: a.location.is_enabled(),
            },
        }
    }

    pub fn any(self) -> (r: bool)
        ensures
            r == (self.backtrace || self.spantrace || self.location),
    {
        self.backtrace || self.spantrace || self.location
    }
}

// ─── traced(...) toggles ─────────────────────────────────────────────

/// A `FieldSetting` that also records whether the user wrote it, so a project
/// default applies only when the per-attribute toggle is truly absent.
#[derive(Clone, Debug)]
pub struct Tristate<const DEFAULT: bool, T> {
    inner: FieldSetting<DEFAULT, T>,
    explicit: bool,
}

impl<const DEFAULT: bool, T> Tristate<DEFAULT, T> {
    pub closed spec fn spec_inner(&self) -> FieldSetting<DEFAULT, T> {
        self.inner
    }

    pub closed spec fn spec_written(&self) -> bool {
        self.explicit
    }

    /// `Some(state)` when the user wrote the toggle, `None` when it defaulted.
    pub open spec fn spec_explicit(&self) -> Option<bool> {
        if self.spec_written() {
            Some(self.spec_inner().spec_is_enabled())
        } else {
            None
        }
    }

    /// A plain flag, written by the user or not.
    pub fn flag(value: bool, explicit: bool) -> (r: Self)
        ensures
            r.spec_inner() matches FieldSetting::Flag(b) && b == value,
            r.spec_written() == explicit,
    {
        Tristate { inner: FieldSetting::Flag(value), explicit }
    }

    /// A toggle the user wrote.
    pub fn written(inner: FieldSetting<DEFAULT, T>) -> (r: Self)
        ensures
            r.spec_inner() == inner,
            r.spec_written(),
    {
        Tristate { inner, explicit: true }
    }

    /// The toggle for an absent key.
    pub fn from_none() -> (r: Option<Self>)
        ensures
            r matches Some(t) && t.spec_inner() matches FieldSetting::Flag(b) && b == DEFAULT
                && !t.spec_written(),
    {
        Some(Self::flag(DEFAULT, false))
    }

    pub fn inner(&self) -> (r: &FieldSetting<DEFAULT, T>)
        ensures
            *r == self.spec_inner(),
    {
        &self.inner
    }

    pub fn explicit(&self) -> (r: Option<bool>)
        ensures
            r == self.spec_explicit(),
    {
        if self.explicit {
            Some(self.inner.is_enabled())
        } else {
            None
        }
    }
}

/// Settings block of `backtrace(...)` / `spantrace(...)`: a type override
/// (a path `P`) and a per-trace boxing flag.
#[derive(Clone, Debug)]
pub struct TraceSettings<P> {
    pub ty: Option<P>,
    pub boxed: BetterFlag<true>,
}

/// Settings block of `timestamp(...)`; both flags are opt-in.
#[derive(Clone, Copy, Debug)]
pub struct TimestampSettings {
    pub chrono: BetterFlag<false>,
    pub provide: BetterFlag<false>,
}

/// Settings block of `code(...)`.
#[derive(Clone, Debug)]
pub struct CodeSettings<P> {
    pub ty: Option<P>,
}

impl<const DEFAULT: bool, P> FieldSetting<DEFAULT, TraceSettings<P>> {
    /// The type override of a trace settings block.
    pub fn type_path(&self) -> (r: Option<&P>)
        ensures
            r == (match self {
                FieldSetting::Settings(s) => match s.settings.ty {
                    Some(p) => Some(&p),
                    None => None,
                },
                FieldSetting::Flag(_) => None::<&P>,
            }),
    {
        match self.opt_settings() {
            Some(s) => match &s.ty {
                Some(p) => Some(p),
                None => None,
            },
            None => None,
        }
    }
}

/// Project-wide `traced` defaults; `None` keeps the hardcoded default.
#[derive(Clone, Copy, Debug, Default, PartialEq, Eq)]
pub struct TracedDefaults {
    pub traced: Option<bool>,
    pub location: Option<bool>,
    pub timestamp: Option<bool>,
    pub packed: Option<bool>,
    pub boxed: Option<bool>,
    pub code: Option<bool>,
}

pub open spec fn or_opt(a: Option<bool>, b: Option<bool>) -> Option<bool> {
    match a {
        Some(x) => Some(x),
        None => b,
    }
}

impl TracedDefaults {
    /// Nothing set.
    pub open spec fn spec_empty() -> Self {
        TracedDefaults {
            traced: None,
            location: None,
            timestamp: None,
            packed: None,
            boxed: None,
            code: None,
        }
    }

    pub fn empty() -> (r: Self)
        ensures
            r == Self::spec_empty(),
    {
        TracedDefaults {
            traced: None,
            location: None,
            timestamp: None,
            packed: None,
            boxed: None,
            code: None,
        }
    }

    /// Leaf-by-leaf fold: every key set here wins over `under`'s.
    pub fn merge_over(self, under: Self) -> (r: Self)
        ensures
            r.traced == or_opt(self.traced, under.traced),
            r.location == or_opt(self.location, under.location),
            r.timestamp == or_opt(self.timestamp, under.timestamp),
            r.packed == or_opt(self.packed, under.packed),
            r.boxed == or_opt(self.boxed, under.boxed),
            r.code == or_opt(self.code, under.code),
    {
        TracedDefaults {
            traced: or_bool(self.traced, under.traced),
            location: or_bool(self.location, under.location),
            timestamp: or_bool(self.timestamp, under.timestamp),
            packed: or_bool(self.packed, under.packed),
            boxed: or_bool(self.boxed, under.boxed),
            code: or_bool(self.code, under.code),
        }
    }
}

pub fn or_bool(a: Option<bool>, b: Option<bool>) -> (r: Option<bool>)
    ensures
        r == or_opt(a, b),
{
    match a {
        Some(x) => Some(x),
        None => b,
    }
}

pub open spec fn spec_fold(per_attr: Option<bool>, manifest: Option<bool>, hardcoded: bool) -> bool {
    match per_attr {
        Some(b) => b,
        None => match manifest {
            Some(b) => b,
            None => hardcoded,
        },
    }
}

/// Per-toggle precedence: explicit per-attribute setting, then the manifest
/// default, then the hardcoded default.
pub fn fold(per_attr: Option<bool>, manifest: Option<bool>, hardcoded: bool) -> (r: bool)
    ensures
        r == spec_fold(per_attr, manifest, hardcoded),
{
    match per_attr {
        Some(b) => b,
        None => match manifest {
            Some(b) => b,
            None => hardcoded,
        },
    }
}

/// Inner arguments of `traced(...)`: every part starts from its default
/// (backtrace and span trace on, timestamp off) and is tunable on its own.
#[derive(Clone, Debug)]
pub struct TracedArgs<P> {
    pub backtrace: FieldSetting<true, TraceSettings<P>>,
    pub spantrace: FieldSetting<true, TraceSettings<P>>,
    pub timestamp: Tristate<false, TimestampSettings>,
    pub location: BetterFlag<true>,
    pub packed: BetterFlag<true>,
    pub boxed: BetterFlag<true>,
    pub code: Tristate<true, CodeSettings<P>>,
}

impl<P> TracedArgs<P> {
    /// The arguments of a bare `traced`.
    pub fn defaults() -> (r: Self)
        ensures
            r.backtrace matches FieldSetting::Flag(b) && b,
            r.spantrace matches FieldSetting::Flag(b) && b,
            r.timestamp.spec_inner() matches FieldSetting::Flag(b) && !b,
            !r.timestamp.spec_written(),
            r.location == BetterFlag::<true>::Default,
            r.packed == BetterFlag::<true>::Default,
            r.boxed == BetterFlag::<true>::Default,
            r.code.spec_inner() matches FieldSetting::Flag(b) && b,
            !r.code.spec_written(),
    {
        TracedArgs {
            backtrace: FieldSetting::Flag(true),
            spantrace: FieldSetting::Flag(true),
            timestamp: Tristate::flag(false, false),
            location: BetterFlag::Default,
            packed: BetterFlag::Default,
            boxed: BetterFlag::Default,
            code: Tristate::flag(true, false),
        }
    }
}

/// Flat view of [`TracedArgs`] after folding flags, per-trace overrides and
/// type overrides.
pub struct ResolvedTraceArgs<'a, P> {
    pub backtrace: bool,
    pub spantrace: bool,
    pub timestamp: bool,
    pub location: bool,
    pub packed: bool,
    pub code: bool,
    pub backtrace_boxed: bool,
    pub spantrace_boxed: bool,
    pub backtrace_type: Option<&'a P>,
    pub spantrace_type: Option<&'a P>,
    pub timestamp_chrono: bool,
    pub timestamp_provide: bool,
}

/// Whether a trace is boxed: its own `boxed` override, else the pair-level
/// toggle, else the project default, else boxed.
pub open spec fn spec_trace_boxed<P>(
    trace: FieldSetting<true, TraceSettings<P>>,
    pair: BetterFlag<true>,
    defaults: TracedDefaults,
) -> bool {
    let own = match trace {
        FieldSetting::Settings(s) => s.settings.boxed.spec_to_option(),
        FieldSetting::Flag(_) => None,
    };
    spec_fold(own, or_opt(pair.spec_to_option(), defaults.boxed), true)
}

pub open spec fn timestamp_flag(t: Tristate<false, TimestampSettings>, chrono: bool) -> bool {
    match t.spec_inner() {
        FieldSetting::Settings(s) => if chrono {
            s.settings.chrono.spec_is_enabled()
        } else {
            s.settings.provide.spec_is_enabled()
        },
        FieldSetting::Flag(_) => false,
    }
}

fn trace_boxed<P>(
    trace: &FieldSetting<true, TraceSettings<P>>,
    manifest_boxed: Option<bool>,
) -> (r: bool)
    ensures
        r == spec_fold(
            match trace {
                FieldSetting::Settings(s) => s.settings.boxed.spec_to_option(),
                FieldSetting::Flag(_) => None,
            },
            manifest_boxed,
            true,
        ),
{
    let own = match trace.opt_settings() {
        Some(s) => s.boxed.to_option(),
        None => None,
    };
    fold(own, manifest_boxed, true)
}

impl<P> TracedArgs<P> {
    /// Fold the per-attribute toggles against the project `defaults`: an
    /// explicit per-attribute setting wins, then the project default, then the
    /// hardcoded default.
    pub fn resolve<'a>(&'a self, defaults: &TracedDefaults) -> (r: ResolvedTraceArgs<'a, P>)
        ensures
            r.backtrace == self.backtrace.spec_is_enabled(),
            r.spantrace == self.spantrace.spec_is_enabled(),
            r.timestamp == spec_fold(self.timestamp.spec_explicit(), defaults.timestamp, false),
            r.location == spec_fold(self.location.spec_to_option(), defaults.location, true),
            r.packed == spec_fold(self.packed.spec_to_option(), defaults.packed, true),
            r.code == spec_fold(self.code.spec_explicit(), defaults.code, true),
            r.backtrace_boxed == spec_trace_boxed(self.backtrace, self.boxed, *defaults),
            r.spantrace_boxed == spec_trace_boxed(self.spantrace, self.boxed, *defaults),
            r.backtrace_type == (match self.backtrace {
                FieldSetting::Settings(s) => match s.settings.ty {
                    Some(p) => Some(&p),
                    None => None,
                },
                FieldSetting::Flag(_) => None::<&P>,
            }),
            r.spantrace_type == (match self.spantrace {
                FieldSetting::Settings(s) => match s.settings.ty {
                    Some(p) => Some(&p),
                    None => None,
                },
                FieldSetting::Flag(_) => None::<&P>,
            }),
            r.timestamp_chrono == timestamp_flag(self.timestamp, true),
            r.timestamp_provide == timestamp_flag(self.timestamp, false),
    {
        let manifest_boxed = or_bool(self.boxed.to_option(), defaults.boxed);
        let chrono = match self.timestamp.inner().opt_settings() {
            Some(s) => s.chrono.is_enabled(),
            None => false,
        };
        let provide = match self.timestamp.inner().opt_settings() {
            Some(s) => s.provide.is_enabled(),
            None => false,
        };
        ResolvedTraceArgs {
            backtrace: self.backtrace.is_enabled(),
            spantrace: self.spantrace.is_enabled(),
            timestamp: fold(self.timestamp.explicit(), defaults.timestamp, false),
            location: fold(self.location.to_option(), defaults.location, true),
            packed: fold(self.packed.to_option(), defaults.packed, true),
            code: fold(self.code.explicit(), defaults.code, true),
            backtrace_boxed: trace_boxed(&self.backtrace, manifest_boxed),
            spantrace_boxed: trace_boxed(&self.spantrace, manifest_boxed),
            backtrace_type: self.backtrace.type_path(),
            spantrace_type: self.spantrace.type_path(),
            timestamp_chrono: chrono,
            timestamp_provide: provide,
        }
    }
}

/// The validation failure of resolved trace arguments.
#[derive(Clone, Copy, Debug, PartialEq, Eq)]
pub enum TraceArgsError {
    /// `packed` with backtrace and span trace boxed differently.
    PackedIncoherentBoxing,
}

impl<'a, P> ResolvedTraceArgs<'a, P> {
    /// Reject `packed` with backtrace and span trace boxed inconsistently: a
    /// packed tuple is one field, so its two elements cannot be boxed apart.
    pub fn validate(&self) -> (r: Result<(), TraceArgsError>)
        ensures
            r is Err <==> (self.packed && self.backtrace && self.spantrace && self.backtrace_boxed
                != self.spantrace_boxed),
    {
        if self.packed && self.backtrace && self.spantrace && self.backtrace_boxed
            != self.spantrace_boxed {
            return Err(TraceArgsError::PackedIncoherentBoxing);
        }
        Ok(())
    }
}

/// Under `packed` with both traces on, a `boxed` toggle at the pair level (and
/// no per-trace override) can never make the two traces disagree, so it always
/// validates.
pub proof fn lemma_pair_boxing_is_coherent<P>(
    bt: FieldSetting<true, TraceSettings<P>>,
    st: FieldSetting<true, TraceSettings<P>>,
    pair: BetterFlag<true>,
    defaults: TracedDefaults,
)
    requires
        bt is Flag,
        st is Flag,
    ensures
        spec_trace_boxed(bt, pair, defaults) == spec_trace_boxed(st, pair, defaults),
{
}

} // verus!
