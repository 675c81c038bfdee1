use oopsie_macros::manifest;
use oopsie_macros::settings::{
    cap, is_ident, is_ident_fragment, naming_defaults, naming_from_checked, resolve_traced,
    select_cap, traced_defaults, validate_cap, CapSource, ManifestModule, ModuleTable,
    NamingDefaults, RawSuffix, Settings, SuffixDefault, TracedSetting, TracedTable,
};

fn with_max(n: Option<usize>) -> Settings {
    Settings { max_size: n, ..Settings::empty() }
}

fn with_module_suffix(s: &str) -> Settings {
    Settings {
        module: Some(ManifestModule::Table(ModuleTable { enabled: None, suffix: Some(s.to_string()) })),
        ..Settings::empty()
    }
}

#[test]
fn utils_validate_cap_rejects_zero() {
    assert!(manifest::validate_cap(Some(0)).is_err());
    assert_eq!(manifest::validate_cap(Some(8)).unwrap(), Some(8));
    assert_eq!(manifest::validate_cap(None).unwrap(), None);
}

#[test]
fn settings_validate_cap_rejects_zero() {
    assert!(validate_cap(Some((0, CapSource::Package))).is_err());
    assert_eq!(
        validate_cap(Some((8, CapSource::Package))).unwrap(),
        Some((8, "[package.metadata.oopsie] max-size"))
    );
    assert_eq!(
        validate_cap(Some((8, CapSource::Workspace))).unwrap(),
        Some((8, "[workspace.metadata.oopsie] max-size"))
    );
    assert_eq!(validate_cap(None).unwrap(), None);
}

#[test]
fn zero_cap_message_names_the_section() {
    assert_eq!(
        validate_cap(Some((0, CapSource::Workspace))),
        Err("[workspace.metadata.oopsie] max-size is 0, which is not a valid size limit; remove the key to disable the cap instead".to_string())
    );
    assert_eq!(
        manifest::validate_cap(Some(0)),
        Err("[package.metadata.oopsie] max-size is 0, which is not a valid size limit; remove the key to disable the cap instead".to_string())
    );
}

#[test]
fn cap_origin_package_wins() {
    let (n, source) = select_cap(&with_max(Some(16)), &with_max(Some(64))).unwrap();
    assert_eq!(n, 16);
    assert_eq!(source.section(), "[package.metadata.oopsie] max-size");
}

#[test]
fn cap_origin_falls_back_to_workspace() {
    let (n, source) = select_cap(&with_max(None), &with_max(Some(64))).unwrap();
    assert_eq!(n, 64);
    assert_eq!(source.section(), "[workspace.metadata.oopsie] max-size");
}

#[test]
fn cap_reports_parse_errors_package_first() {
    let bad_p: Result<Settings, String> = Err("package broken".to_string());
    let bad_w: Result<Settings, String> = Err("workspace broken".to_string());
    assert_eq!(cap(&bad_p, &bad_w), Err("package broken".to_string()));
    assert_eq!(cap(&Ok(with_max(None)), &bad_w), Err("workspace broken".to_string()));
    assert_eq!(cap(&Ok(with_max(None)), &Ok(with_max(Some(32)))), Ok(Some((32, "[workspace.metadata.oopsie] max-size"))));
    assert_eq!(cap(&Ok(with_max(None)), &Ok(with_max(None))), Ok(None));
    assert_eq!(manifest::cap(&Ok(with_max(Some(4)))), Ok(Some(4)));
    assert_eq!(manifest::cap(&Err("x".to_string())), Err("x".to_string()));
}

#[test]
fn identifier_checks() {
    assert!(is_ident_fragment("errors"));
    assert!(is_ident_fragment("2024"));
    assert!(is_ident_fragment("_"));
    assert!(!is_ident_fragment(""));
    assert!(!is_ident_fragment("has space"));
    assert!(is_ident("_e"));
    assert!(is_ident("e2024"));
    assert!(!is_ident("2024"));
    assert!(!is_ident("_"));
}

#[test]
fn module_table_suffix() {
    let n = naming_from_checked(&with_module_suffix("errors"), "[package.metadata.oopsie]", None).unwrap();
    assert_eq!(n.module_suffix.as_deref(), Some("errors"));
    assert_eq!(n.module, None);
}

#[test]
fn rejects_module_suffix_that_cannot_stand_alone() {
    for suffix in ["2024", "_"] {
        assert!(naming_from_checked(&with_module_suffix(suffix), "[package.metadata.oopsie]", None).is_err(), "suffix: {suffix}");
    }
    for suffix in ["_e", "e2024"] {
        assert!(naming_from_checked(&with_module_suffix(suffix), "[package.metadata.oopsie]", None).is_ok(), "suffix: {suffix}");
    }
    // The package-only rule asks for a fragment, which `2024` is.
    assert!(manifest::naming_from_checked(&with_module_suffix("2024"), None).is_ok());
    assert_eq!(
        manifest::naming_from_checked(&with_module_suffix("has space"), None).err(),
        Some("[package.metadata.oopsie] module.suffix \"has space\" is not a valid identifier fragment".to_string())
    );
}

#[test]
fn default_suffix_forms() {
    let off = Settings { default_suffix: Some(RawSuffix::Toggle(false)), ..Settings::empty() };
    let n = naming_from_checked(&off, "[package.metadata.oopsie]", None).unwrap();
    assert_eq!(n.suffix, Some(SuffixDefault::Off));
    let named = Settings { default_suffix: Some(RawSuffix::Name("Ctx".to_string())), ..Settings::empty() };
    let n = naming_from_checked(&named, "[package.metadata.oopsie]", None).unwrap();
    assert_eq!(n.suffix, Some(SuffixDefault::Name("Ctx".to_string())));
    let ambiguous = Settings { default_suffix: Some(RawSuffix::Toggle(true)), ..Settings::empty() };
    assert_eq!(
        naming_from_checked(&ambiguous, "[workspace.metadata.oopsie]", None).err(),
        Some("[workspace.metadata.oopsie] default-suffix = true is ambiguous; use a suffix name or `false` to disable".to_string())
    );
}

#[test]
fn default_vis_errors_carry_the_parse_error() {
    let s = Settings { default_vis: Some("bogus".to_string()), ..Settings::empty() };
    assert_eq!(
        naming_from_checked(&s, "[package.metadata.oopsie]", Some("expected `pub`".to_string())).err(),
        Some("[package.metadata.oopsie] default-vis \"bogus\" is not a valid visibility: expected `pub`".to_string())
    );
    let ok = naming_from_checked(&s, "[package.metadata.oopsie]", None).unwrap();
    assert_eq!(ok.vis.as_deref(), Some("bogus"));
}

#[test]
fn parses_default_vis() {
    let ok = Settings { default_vis: Some("pub(crate)".to_string()), ..Settings::empty() };
    assert!(oopsie_macros::settings::resolve_naming(&ok, "[package.metadata.oopsie]").unwrap().vis.is_some());
    let bad = Settings { default_vis: Some("bogus".to_string()), ..Settings::empty() };
    assert!(oopsie_macros::settings::resolve_naming(&bad, "[package.metadata.oopsie]").is_err());
}

#[test]
fn naming_merge_workspace_fills_unset() {
    let package = Settings { module: Some(ManifestModule::Toggle(false)), ..Settings::empty() };
    let workspace = Settings { default_suffix: Some(RawSuffix::Name("Ctx".to_string())), ..Settings::empty() };
    let (merged, err) = naming_defaults(&Ok(package), &Ok(workspace));
    assert!(err.is_none());
    assert_eq!(merged.module, Some(false));
    assert_eq!(merged.suffix, Some(SuffixDefault::Name("Ctx".to_string())));
}

#[test]
fn naming_defaults_report_the_first_invalid_table() {
    let bad = Settings { default_suffix: Some(RawSuffix::Toggle(true)), ..Settings::empty() };
    let (merged, err) = naming_defaults(&Ok(Settings::empty()), &Ok(bad));
    assert!(merged.suffix.is_none());
    assert!(err.unwrap().starts_with("[workspace.metadata.oopsie] default-suffix = true"));
    let (_, err) = naming_defaults(&Err("unparsable".to_string()), &Ok(Settings::empty()));
    assert!(err.is_none());
}

#[test]
fn traced_merge_workspace_fills_unset() {
    let package = Settings {
        traced: Some(TracedSetting::Table(TracedTable {
            enabled: None,
            location: None,
            timestamp: Some(true),
            packed: None,
            boxed: None,
            code: None,
        })),
        ..Settings::empty()
    };
    let workspace = Settings { traced: Some(TracedSetting::Toggle(true)), ..Settings::empty() };
    let merged = traced_defaults(&Ok(package), &Ok(workspace));
    assert_eq!(merged.traced, Some(true));
    assert_eq!(merged.timestamp, Some(true));
    assert_eq!(merged.location, None);
}

#[test]
fn traced_toggle_sets_only_trace_by_default() {
    let s = Settings { traced: Some(TracedSetting::Toggle(false)), ..Settings::empty() };
    let t = resolve_traced(&s);
    assert_eq!(t.traced, Some(false));
    assert_eq!(t.code, None);
    assert_eq!(manifest::traced_defaults(&Err("x".to_string())).traced, None);
}

#[test]
fn manifest_accessors_read_the_defaults() {
    let n = NamingDefaults {
        module: Some(true),
        module_suffix: Some("errs".to_string()),
        suffix: Some(SuffixDefault::Off),
        vis: None,
    };
    assert_eq!(manifest::manifest_module_default(&n), Some(true));
    assert_eq!(manifest::manifest_module_suffix(&n), Some("errs".to_string()));
    assert_eq!(manifest::manifest_suffix_default(&n), Some(SuffixDefault::Off));
}

fn with_module(m: ManifestModule) -> Settings {
    Settings { module: Some(m), ..Settings::empty() }
}

fn with_traced(t: TracedSetting) -> Settings {
    Settings { traced: Some(t), ..Settings::empty() }
}

fn location_off() -> TracedSetting {
    TracedSetting::Table(TracedTable {
        enabled: None,
        location: Some(false),
        timestamp: None,
        packed: None,
        boxed: None,
        code: None,
    })
}

#[test]
fn utils_reads_max_size() {
    assert_eq!(manifest::cap(&Ok(with_max(Some(64)))), Ok(Some(64)));
}

#[test]
fn settings_reads_max_size() {
    assert_eq!(
        cap(&Ok(with_max(Some(64))), &Ok(with_max(None))),
        Ok(Some((64, "[package.metadata.oopsie] max-size")))
    );
}

#[test]
fn utils_module_bool_and_enabled_forms() {
    let off = manifest::naming_from_checked(&with_module(ManifestModule::Toggle(false)), None).unwrap();
    assert_eq!(off.module, Some(false));
    let table = ModuleTable { enabled: Some(true), suffix: Some("e".to_string()) };
    let t = manifest::naming_from_checked(&with_module(ManifestModule::Table(table)), None).unwrap();
    assert_eq!(t.module, Some(true));
    assert_eq!(t.module_suffix.as_deref(), Some("e"));
}

#[test]
fn settings_module_bool_and_enabled_forms() {
    let section = "[package.metadata.oopsie]";
    let off = naming_from_checked(&with_module(ManifestModule::Toggle(false)), section, None).unwrap();
    assert_eq!(off.module, Some(false));
    let table = ModuleTable { enabled: Some(true), suffix: Some("e".to_string()) };
    let t = naming_from_checked(&with_module(ManifestModule::Table(table)), section, None).unwrap();
    assert_eq!(t.module, Some(true));
    assert_eq!(t.module_suffix.as_deref(), Some("e"));
}

#[test]
fn utils_rejects_bad_module_suffix() {
    assert!(manifest::naming_from_checked(&with_module_suffix("has space"), None).is_err());
}

#[test]
fn settings_rejects_bad_module_suffix() {
    assert!(naming_from_checked(&with_module_suffix("has space"), "[package.metadata.oopsie]", None).is_err());
}

#[test]
fn utils_traced_bool_and_table_forms() {
    let on = manifest::traced_defaults(&Ok(with_traced(TracedSetting::Toggle(true))));
    assert_eq!(on.traced, Some(true));
    let table = manifest::traced_defaults(&Ok(with_traced(location_off())));
    assert_eq!(table.location, Some(false));
    assert_eq!(table.traced, None);
}

#[test]
fn settings_traced_bool_and_table_forms() {
    let on = resolve_traced(&with_traced(TracedSetting::Toggle(true)));
    assert_eq!(on.traced, Some(true));
    let table = resolve_traced(&with_traced(location_off()));
    assert_eq!(table.location, Some(false));
    assert_eq!(table.traced, None);
}
