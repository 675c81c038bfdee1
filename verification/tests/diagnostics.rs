use oopsie_macros::diagnostics::{
    diagnostic_plan, display_from, layer_exit_code, DisplayFrom, ExitAccess, LayerFacts, LocationAccess, MetaAccess, TraceAccess,
    TraceProvide,
};
use oopsie_macros::flags::ResolvedForward;

fn bare() -> LayerFacts {
    LayerFacts {
        traces_field: false,
        backtrace_field: false,
        spantrace_field: false,
        location_field: false,
        help_field: false,
        source: None,
        transparent: false,
        code: None,
        help: None,
        exit_code: None,
        code_candidates: 0,
        help_candidates: 0,
    }
}

fn no_forward() -> ResolvedForward {
    ResolvedForward { backtrace: false, spantrace: false, location: false }
}

#[test]
fn a_bare_layer_has_no_accessors() {
    let p = diagnostic_plan(&bare());
    assert_eq!(p.backtrace, None);
    assert_eq!(p.spantrace, None);
    assert_eq!(p.location, None);
    assert_eq!(p.code, MetaAccess::Absent);
    assert_eq!(p.help, MetaAccess::Absent);
    assert_eq!(p.exit_code, ExitAccess::Absent);
    assert_eq!(p.withholds_source_meta, None);
    assert_eq!(p.traces, TraceProvide::Separate(false, false));
}

#[test]
fn packed_traces_feed_both_accessors() {
    let p = diagnostic_plan(&LayerFacts { traces_field: true, ..bare() });
    let own = Some(TraceAccess { own: true, source: false, probe: false });
    assert_eq!(p.backtrace, own);
    assert_eq!(p.spantrace, own);
    assert_eq!(p.traces, TraceProvide::Packed);
}

#[test]
fn source_is_consulted_before_own_trace() {
    let f = LayerFacts { backtrace_field: true, source: Some(no_forward()), ..bare() };
    let p = diagnostic_plan(&f);
    assert_eq!(p.backtrace, Some(TraceAccess { own: true, source: true, probe: false }));
    assert_eq!(p.spantrace, Some(TraceAccess { own: false, source: true, probe: false }));
    assert_eq!(p.location, None);
    assert_eq!(p.exit_code, ExitAccess::Forwarded);
}

#[test]
fn forward_flags_enable_the_stable_probe() {
    let fw = ResolvedForward { backtrace: false, spantrace: true, location: true };
    let p = diagnostic_plan(&LayerFacts { source: Some(fw), location_field: true, ..bare() });
    assert_eq!(p.backtrace, Some(TraceAccess { own: false, source: true, probe: false }));
    assert_eq!(p.spantrace, Some(TraceAccess { own: false, source: true, probe: true }));
    assert_eq!(p.location, Some(LocationAccess { own: true, probe: true }));
}

#[test]
fn transparent_layer_forwards_everything() {
    let p = diagnostic_plan(&LayerFacts { source: Some(no_forward()), transparent: true, ..bare() });
    assert_eq!(p.backtrace, Some(TraceAccess { own: false, source: true, probe: true }));
    assert_eq!(p.location, Some(LocationAccess { own: false, probe: true }));
    assert_eq!(p.code, MetaAccess::Forwarded);
    assert_eq!(p.help, MetaAccess::Forwarded);
    assert_eq!(p.withholds_source_meta, Some(false));
}

#[test]
fn opaque_layer_withholds_source_code_and_help() {
    let p = diagnostic_plan(&LayerFacts { source: Some(no_forward()), code_candidates: 1, ..bare() });
    assert_eq!(p.withholds_source_meta, Some(true));
    assert_eq!(p.code, MetaAccess::Provided(false));
    assert_eq!(p.help, MetaAccess::Absent);
}

#[test]
fn written_values_win() {
    let f = LayerFacts {
        code: Some(true),
        help: Some(false),
        exit_code: Some(3),
        code_candidates: 2,
        source: Some(no_forward()),
        transparent: true,
        ..bare()
    };
    let p = diagnostic_plan(&f);
    assert_eq!(p.code, MetaAccess::Written(true));
    assert_eq!(p.help, MetaAccess::Written(false));
    assert_eq!(p.exit_code, ExitAccess::Declared(3));
    assert!(p.own.code && p.own.help);
}

#[test]
fn help_field_comes_before_written_help() {
    let p = diagnostic_plan(&LayerFacts { help_field: true, help: Some(true), ..bare() });
    assert_eq!(p.help, MetaAccess::Field);
    assert!(p.own.help && !p.own.code);
}

#[test]
fn provided_code_falls_back_to_transparent_source() {
    let f = LayerFacts { source: Some(no_forward()), transparent: true, code_candidates: 1, help_candidates: 1, ..bare() };
    let p = diagnostic_plan(&f);
    assert_eq!(p.code, MetaAccess::Provided(true));
    assert_eq!(p.help, MetaAccess::Provided(true));
}

#[test]
fn display_prefers_the_written_string_then_the_transparent_source() {
    assert_eq!(display_from(true, true, true), DisplayFrom::Written);
    assert_eq!(display_from(false, true, true), DisplayFrom::Source);
    assert_eq!(display_from(false, true, false), DisplayFrom::Name);
    assert_eq!(display_from(false, false, true), DisplayFrom::Name);
}

#[test]
fn variant_exit_code_falls_back_to_the_enum() {
    assert_eq!(layer_exit_code(Some(3u8), Some(7u8)), Some(3));
    assert_eq!(layer_exit_code(None, Some(7u8)), Some(7));
    assert_eq!(layer_exit_code(Some(3u8), None), Some(3));
    assert_eq!(layer_exit_code::<u8>(None, None), None);
}
