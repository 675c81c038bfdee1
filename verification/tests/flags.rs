use oopsie_macros::flags::{fold, BetterFlag, FieldSetting, Settings, TracedDefaults};

#[test]
fn better_flag_is_enabled() {
    assert!(BetterFlag::<true>::Enabled.is_enabled());
    assert!(!BetterFlag::<true>::Disabled.is_enabled());
    assert!(BetterFlag::<true>::Default.is_enabled());

    assert!(BetterFlag::<false>::Enabled.is_enabled());
    assert!(!BetterFlag::<false>::Disabled.is_enabled());
    assert!(!BetterFlag::<false>::Default.is_enabled());
}

#[test]
fn better_flag_to_option() {
    assert_eq!(BetterFlag::<true>::Enabled.to_option(), Some(true));
    assert_eq!(BetterFlag::<true>::Disabled.to_option(), Some(false));
    assert_eq!(BetterFlag::<true>::Default.to_option(), None);

    assert_eq!(BetterFlag::<false>::Enabled.to_option(), Some(true));
    assert_eq!(BetterFlag::<false>::Disabled.to_option(), Some(false));
    assert_eq!(BetterFlag::<false>::Default.to_option(), None);
}

#[test]
fn better_flag_from_none() {
    let flag = BetterFlag::<true>::from_none();
    assert!(matches!(flag, Some(BetterFlag::Default)));

    let flag = BetterFlag::<false>::from_none();
    assert!(matches!(flag, Some(BetterFlag::Default)));
}

#[test]
fn fold_prefers_per_attr_then_manifest_then_hardcoded() {
    assert!(fold(Some(true), Some(false), false));
    assert!(!fold(Some(false), Some(true), true));
    assert!(fold(None, Some(true), false));
    assert!(!fold(None, Some(false), true));
    assert!(fold(None, None, true));
    assert!(!fold(None, None, false));
}

#[test]
fn traced_merge_package_leaf_wins() {
    let package = TracedDefaults { location: Some(true), ..TracedDefaults::empty() };
    let workspace = TracedDefaults {
        location: Some(false),
        timestamp: Some(true),
        ..TracedDefaults::empty()
    };
    let merged = package.merge_over(workspace);
    assert_eq!(merged.location, Some(true));
    assert_eq!(merged.timestamp, Some(true));
    assert_eq!(merged.traced, None);
}

#[test]
fn better_flag_from_value_bool() {
    assert!(matches!(BetterFlag::<true>::from_bool(true), BetterFlag::Enabled));
    assert!(matches!(BetterFlag::<true>::from_bool(false), BetterFlag::Disabled));
}

#[derive(Debug, Clone, Default)]
struct TestSettings {
    value: Option<String>,
}

#[test]
fn field_setting_opt_settings_returns_some_for_settings_variant() {
    let setting = FieldSetting::<true, TestSettings>::Settings(Settings {
        enabled: Some(true),
        settings: TestSettings { value: Some("hello".into()) },
    });
    let s = setting.opt_settings();
    assert!(s.is_some());
    assert_eq!(s.unwrap().value.as_deref(), Some("hello"));
}

#[test]
fn field_setting_opt_settings_returns_none_for_flag_variant() {
    let flag = FieldSetting::<true, TestSettings>::Flag(true);
    assert!(flag.opt_settings().is_none());
}

#[test]
fn field_setting_is_enabled() {
    let setting = FieldSetting::<true, TestSettings>::Settings(Settings { enabled: Some(true), settings: TestSettings::default() });
    assert!(setting.is_enabled());
    let setting = FieldSetting::<true, TestSettings>::Settings(Settings { enabled: Some(false), settings: TestSettings::default() });
    assert!(!setting.is_enabled());
    let setting = FieldSetting::<true, TestSettings>::Settings(Settings { enabled: None, settings: TestSettings::default() });
    assert!(setting.is_enabled());
    assert!(FieldSetting::<true, TestSettings>::Flag(true).is_enabled());
    assert!(!FieldSetting::<true, TestSettings>::Flag(false).is_enabled());
}

#[test]
fn field_setting_default_is_the_flag_default() {
    assert!(matches!(FieldSetting::<true, ()>::default_setting(), FieldSetting::Flag(true)));
    assert!(matches!(FieldSetting::<false, ()>::default_setting(), FieldSetting::Flag(false)));
}
