//! The onboarding row and what it runs.

use beckon_macos::onboarding::{
    activate, after_fallback, after_pane, items_for, settings_argv, settings_fallback_argv,
    status_line, ACCESSIBILITY_ID,
};
use beckon_macos::router::ItemKind;

#[test]
fn golden_item_when_untrusted() {
    let items = items_for(false);
    assert_eq!(items.len(), 1, "exactly one onboarding item");
    let item = &items[0];
    assert_eq!(item.id, "onboarding.accessibility");
    assert_eq!(item.title, "Grant Accessibility Access");
    assert_eq!(
        item.subtitle,
        "Window management and paste need this; approve beckon in System Settings, \
         then relaunch"
    );
    assert_eq!(item.kind, ItemKind::SystemCommand);
    assert!(!item.subtitle.contains('\n'), "subtitle is one line");
}

#[test]
fn no_items_when_trusted() {
    assert!(items_for(true).is_empty(), "the item must disappear once the grant lands");
}

#[test]
fn golden_status_lines() {
    assert_eq!(status_line(true), "Accessibility: granted");
    assert_eq!(
        status_line(false),
        "Accessibility: not granted (window management and paste disabled)"
    );
}

#[test]
fn golden_open_argv() {
    assert_eq!(
        settings_argv(),
        vec![
            "/usr/bin/open".to_string(),
            "x-apple.systempreferences:com.apple.preference.security?Privacy_Accessibility"
                .to_string(),
        ]
    );
    assert_eq!(
        settings_fallback_argv(),
        vec![
            "/usr/bin/open".to_string(),
            "-b".to_string(),
            "com.apple.systempreferences".to_string(),
        ]
    );
}

#[test]
fn onboarding_unknown_id_is_an_err_not_a_panic() {
    assert!(activate("onboarding.does-not-exist").is_err());
    assert!(activate("").is_err());
    assert!(activate("system.sleep").is_err());
    assert_eq!(
        activate("system.sleep").unwrap_err(),
        "unknown onboarding command id: system.sleep"
    );
}

#[test]
fn the_pane_comes_first_and_the_app_second() {
    assert_eq!(activate(ACCESSIBILITY_ID), Ok(settings_argv()));
    assert_eq!(after_pane(Ok(())), Ok(()));
    assert_eq!(
        after_pane(Err("no pane".to_string())),
        Err(("no pane".to_string(), settings_fallback_argv()))
    );
    assert_eq!(after_fallback("no pane", Ok(())), Ok(()));
    assert_eq!(
        after_fallback("no pane", Err("no app".to_string())),
        Err(
            "cannot open Accessibility settings: no pane; launching System Settings failed too: \
             no app"
                .to_string()
        )
    );
}
