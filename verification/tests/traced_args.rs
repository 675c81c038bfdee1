use oopsie_macros::flags::{
    BetterFlag, CodeSettings, FieldSetting, Settings, TimestampSettings, TraceSettings, TracedArgs,
    TracedDefaults, Tristate,
};

// The values below are what the attribute reader makes of each written
// `traced(...)` form: a bare key is `Flag(true)`/`Enabled`, `key = false`
// is `Flag(false)`/`Disabled`, a `key(...)` block is `Settings`, and a
// written `timestamp`/`code` key is recorded as written.

type Args = TracedArgs<String>;

fn bare() -> Args {
    TracedArgs::defaults()
}

fn trace_block(boxed: BetterFlag<true>, ty: Option<&str>) -> FieldSetting<true, TraceSettings<String>> {
    FieldSetting::Settings(Settings { enabled: None, settings: TraceSettings { ty: ty.map(|s| s.to_string()), boxed } })
}

fn timestamp_block(chrono: BetterFlag<false>, provide: BetterFlag<false>) -> Tristate<false, TimestampSettings> {
    Tristate::written(FieldSetting::Settings(Settings { enabled: None, settings: TimestampSettings { chrono, provide } }))
}

fn defaults() -> TracedDefaults {
    TracedDefaults::empty()
}

/// Manifest defaults that invert every hardcoded default.
fn inverted_defaults() -> TracedDefaults {
    TracedDefaults {
        traced: None,
        location: Some(false),
        timestamp: Some(true),
        packed: Some(false),
        boxed: Some(false),
        code: Some(false),
    }
}

#[test]
fn default_is_packed_and_boxed_with_both_traces() {
    let a = bare();
    let r = a.resolve(&defaults());
    assert!(r.packed);
    assert!(r.backtrace_boxed);
    assert!(r.spantrace_boxed);
    assert!(r.backtrace && r.spantrace);
    assert!(!r.timestamp);
}

#[test]
fn packed_false_unpacks() {
    let a = Args { packed: BetterFlag::Disabled, ..bare() };
    let r = a.resolve(&defaults());
    assert!(!r.packed);
    assert!(r.backtrace_boxed && r.spantrace_boxed);
}

#[test]
fn boxed_false_is_inline() {
    let a = Args { boxed: BetterFlag::Disabled, ..bare() };
    let r = a.resolve(&defaults());
    assert!(r.packed);
    assert!(!r.backtrace_boxed && !r.spantrace_boxed);
}

#[test]
fn backtrace_false_keeps_spantrace_and_enables_timestamp() {
    let a = Args { backtrace: FieldSetting::Flag(false), timestamp: Tristate::written(FieldSetting::Flag(true)), ..bare() };
    let r = a.resolve(&defaults());
    assert!(!r.backtrace);
    assert!(r.spantrace);
    assert!(r.timestamp);
}

#[test]
fn spantrace_false_keeps_backtrace_only() {
    let a = Args { spantrace: FieldSetting::Flag(false), ..bare() };
    let r = a.resolve(&defaults());
    assert!(r.backtrace);
    assert!(!r.spantrace);
    assert!(!r.timestamp);
}

#[test]
fn mentioning_one_trace_does_not_disable_others() {
    let a = Args { spantrace: trace_block(BetterFlag::Disabled, None), ..bare() };
    let r = a.resolve(&defaults());
    assert!(r.backtrace);
    assert!(r.spantrace);
    assert!(r.backtrace_boxed);
    assert!(!r.spantrace_boxed);
}

#[test]
fn per_trace_boxed_override_when_unpacked() {
    let a = Args { packed: BetterFlag::Disabled, spantrace: trace_block(BetterFlag::Disabled, None), ..bare() };
    let r = a.resolve(&defaults());
    assert!(!r.packed);
    assert!(r.backtrace);
    assert!(r.spantrace);
    assert!(r.backtrace_boxed);
    assert!(!r.spantrace_boxed);
}

#[test]
fn validate_rejects_packed_incoherent_boxing() {
    let a = Args { backtrace: FieldSetting::Flag(true), spantrace: trace_block(BetterFlag::Disabled, None), ..bare() };
    let r = a.resolve(&defaults());
    assert!(r.backtrace && r.spantrace);
    assert!(r.packed);
    assert!(r.backtrace_boxed && !r.spantrace_boxed);
    r.validate().unwrap_err();
}

#[test]
fn validate_accepts_packed_uniform_inline() {
    let a = Args { boxed: BetterFlag::Disabled, ..bare() };
    let r = a.resolve(&defaults());
    r.validate().unwrap();
}

#[test]
fn bare_timestamp_keeps_both_traces() {
    let a = Args { timestamp: Tristate::written(FieldSetting::Flag(true)), ..bare() };
    let r = a.resolve(&defaults());
    assert!(r.timestamp);
    assert!(r.backtrace);
    assert!(r.spantrace);
}

#[test]
fn timestamp_chrono_flag_parses() {
    let a = Args { timestamp: timestamp_block(BetterFlag::Enabled, BetterFlag::Disabled), ..bare() };
    let r = a.resolve(&defaults());
    assert!(r.timestamp);
    assert!(r.timestamp_chrono);
}

#[test]
fn bare_timestamp_chrono_resolves_false() {
    let a = Args { timestamp: Tristate::written(FieldSetting::Flag(true)), ..bare() };
    let r = a.resolve(&defaults());
    assert!(r.timestamp);
    assert!(!r.timestamp_chrono);
    assert!(!r.timestamp_provide);
}

#[test]
fn timestamp_settings_block_enables_timestamp() {
    let a = Args { timestamp: timestamp_block(BetterFlag::Default, BetterFlag::Enabled), ..bare() };
    let r = a.resolve(&defaults());
    assert!(r.timestamp);
}

#[test]
fn timestamp_chrono_defaults_to_disabled_inside_settings_block() {
    let a = Args { timestamp: timestamp_block(BetterFlag::Default, BetterFlag::Enabled), ..bare() };
    let r = a.resolve(&defaults());
    assert!(!r.timestamp_chrono);
    assert!(r.timestamp_provide);
}

#[test]
fn timestamp_chrono_false_inside_settings_block() {
    let a = Args { timestamp: timestamp_block(BetterFlag::Disabled, BetterFlag::Default), ..bare() };
    let r = a.resolve(&defaults());
    assert!(!r.timestamp_chrono);
}

#[test]
fn timestamp_provide_flag_defaults_to_disabled() {
    let a = Args { timestamp: timestamp_block(BetterFlag::Enabled, BetterFlag::Default), ..bare() };
    let r = a.resolve(&defaults());
    assert!(!r.timestamp_provide, "provide is opt-in when omitted");
    assert!(r.timestamp_chrono);
}

#[test]
fn timestamp_provide_true_resolves_enabled() {
    let a = Args { timestamp: timestamp_block(BetterFlag::Default, BetterFlag::Enabled), ..bare() };
    let r = a.resolve(&defaults());
    assert!(r.timestamp_provide);
}

#[test]
fn manifest_fills_unset_toggles() {
    let a = bare();
    let r = a.resolve(&inverted_defaults());
    assert!(!r.location);
    assert!(r.timestamp);
    assert!(!r.packed);
    assert!(!r.backtrace_boxed && !r.spantrace_boxed);
    assert!(!r.code);
}

#[test]
fn per_attr_location_wins_over_manifest() {
    let a = Args { location: BetterFlag::Enabled, ..bare() };
    let r = a.resolve(&inverted_defaults());
    assert!(r.location, "explicit `location` overrides manifest off");

    let a = Args { location: BetterFlag::Disabled, ..bare() };
    let r = a.resolve(&TracedDefaults { location: Some(true), ..TracedDefaults::empty() });
    assert!(!r.location, "explicit `location = false` overrides manifest on");
}

#[test]
fn per_attr_packed_wins_over_manifest() {
    let a = Args { packed: BetterFlag::Enabled, ..bare() };
    let r = a.resolve(&inverted_defaults());
    assert!(r.packed);

    let a = Args { packed: BetterFlag::Disabled, ..bare() };
    let r = a.resolve(&TracedDefaults { packed: Some(true), ..TracedDefaults::empty() });
    assert!(!r.packed);
}

#[test]
fn per_attr_boxed_wins_over_manifest() {
    let a = Args { boxed: BetterFlag::Disabled, ..bare() };
    let r = a.resolve(&TracedDefaults { boxed: Some(true), ..TracedDefaults::empty() });
    assert!(!r.backtrace_boxed && !r.spantrace_boxed);
}

#[test]
fn type_only_trace_block_inherits_pair_level_boxed() {
    let a = Args { boxed: BetterFlag::Disabled, backtrace: trace_block(BetterFlag::Default, Some("MyBt")), ..bare() };
    let r = a.resolve(&defaults());
    assert!(!r.backtrace_boxed);
    assert!(!r.spantrace_boxed);
    assert_eq!(r.backtrace_type.map(|s| s.as_str()), Some("MyBt"));
    r.validate().unwrap();
}

#[test]
fn explicit_per_trace_boxed_overrides_pair_level() {
    let a = Args { boxed: BetterFlag::Disabled, backtrace: trace_block(BetterFlag::Enabled, None), ..bare() };
    let r = a.resolve(&defaults());
    assert!(r.backtrace_boxed);
    assert!(!r.spantrace_boxed);
    r.validate().unwrap_err();
}

#[test]
fn type_only_trace_block_inherits_manifest_boxed() {
    let a = Args { backtrace: trace_block(BetterFlag::Default, Some("MyBt")), ..bare() };
    let r = a.resolve(&TracedDefaults { boxed: Some(false), ..TracedDefaults::empty() });
    assert!(!r.backtrace_boxed);
    assert!(!r.spantrace_boxed);
}

#[test]
fn per_attr_timestamp_off_wins_over_manifest_on() {
    let on = TracedDefaults { timestamp: Some(true), ..TracedDefaults::empty() };
    let a = Args { timestamp: Tristate::written(FieldSetting::Flag(false)), ..bare() };
    assert!(!a.resolve(&on).timestamp, "explicit off beats manifest on");

    let a = bare();
    assert!(a.resolve(&on).timestamp, "unset takes manifest on");
}

#[test]
fn per_attr_code_off_wins_over_manifest_on() {
    let on = TracedDefaults { code: Some(true), ..TracedDefaults::empty() };
    let a = Args { code: Tristate::written(FieldSetting::Flag(false)), ..bare() };
    assert!(!a.resolve(&on).code, "explicit off beats manifest on");

    let off = TracedDefaults { code: Some(false), ..TracedDefaults::empty() };
    let a = Args { code: Tristate::written(FieldSetting::Flag(true)), ..bare() };
    assert!(a.resolve(&off).code, "explicit on beats manifest off");
}

#[test]
fn code_settings_block_counts_as_explicit_on() {
    let off = TracedDefaults { code: Some(false), ..TracedDefaults::empty() };
    let a = Args {
        code: Tristate::written(FieldSetting::Settings(Settings { enabled: None, settings: CodeSettings { ty: Some("MyCode".to_string()) } })),
        ..bare()
    };
    assert!(a.resolve(&off).code);
}

#[test]
fn empty_manifest_keeps_hardcoded_defaults() {
    let a = bare();
    let r = a.resolve(&TracedDefaults::empty());
    assert!(r.location);
    assert!(!r.timestamp);
    assert!(r.packed);
    assert!(r.backtrace_boxed && r.spantrace_boxed);
    assert!(r.code);
}
