use dspy_core::settings::{
    configure, enter_settings, get_settings, leave_settings, reset_settings, resolve_cache,
    CacheChoice, CacheSetting, Settings, SettingsStack,
};

type Stack = SettingsStack<&'static str>;

fn with_settings<F: FnOnce(&mut Stack)>(
    stack: &mut Stack,
    settings: Settings<&'static str>,
    body: F,
) {
    enter_settings(stack, settings);
    body(stack);
    leave_settings(stack);
}

#[test]
fn test_default_settings() {
    let mut stack = Stack::new();
    reset_settings(&mut stack);
    let s = get_settings(&stack);
    assert!(s.lm.is_none());
    assert!(s.adapter.is_none());
    assert!(s.cache.is_none());
    assert!(s.usage_tracker.is_none());
    assert!(!s.disable_history);
    assert_eq!(s.max_history_size, 10000);
}

#[test]
fn test_configure_global() {
    let mut stack = Stack::new();
    configure(&mut stack, Settings::new());
    assert!(get_settings(&stack).lm.is_none());
    configure(&mut stack, Settings::new().with_lm("lm").with_adapter("chat"));
    assert_eq!(get_settings(&stack).lm, Some("lm"));
    assert_eq!(get_settings(&stack).adapter, Some("chat"));
    reset_settings(&mut stack);
    assert!(get_settings(&stack).lm.is_none());
}

#[test]
fn test_scoped_settings() {
    let mut stack = Stack::new();
    assert!(get_settings(&stack).trace.is_none());
    with_settings(&mut stack, Settings::new().with_trace("trace"), |stack| {
        assert!(get_settings(stack).trace.is_some());
    });
    assert!(get_settings(&stack).trace.is_none());
}

#[test]
fn test_nested_scoped_settings() {
    let mut stack = Stack::new();
    with_settings(&mut stack, Settings::new().with_trace("trace"), |stack| {
        assert!(get_settings(stack).trace.is_some());
        with_settings(stack, Settings::new(), |stack| {
            assert!(get_settings(stack).trace.is_none());
        });
        assert!(get_settings(stack).trace.is_some());
    });
}

#[test]
fn test_cache_setting_disabled() {
    let mut stack = Stack::new();
    with_settings(&mut stack, Settings::new().with_cache_disabled(), |stack| {
        assert!(matches!(get_settings(stack).cache, Some(CacheSetting::Disabled)));
    });
}

#[test]
fn test_usage_tracker_setting() {
    let mut stack = Stack::new();
    with_settings(&mut stack, Settings::new().with_usage_tracker("tracker"), |stack| {
        assert!(get_settings(stack).usage_tracker.is_some());
    });
}

#[test]
fn test_history_settings() {
    let mut stack = Stack::new();
    let settings = Settings::new().with_disable_history(true).with_max_history_size(100);
    with_settings(&mut stack, settings, |stack| {
        let s = get_settings(stack);
        assert!(s.disable_history);
        assert_eq!(s.max_history_size, 100);
    });
}

#[test]
fn the_settings_choose_the_cache() {
    let given = Some(CacheSetting::Instance("mine"));
    assert!(matches!(resolve_cache(false, &given), CacheChoice::Off));
    assert!(matches!(resolve_cache(true, &given), CacheChoice::Given(&"mine")));
    let off: Option<CacheSetting<&str>> = Some(CacheSetting::Disabled);
    assert!(matches!(resolve_cache(true, &off), CacheChoice::Off));
    let open: Option<CacheSetting<&str>> = None;
    assert!(matches!(resolve_cache(true, &open), CacheChoice::Shared));
}
