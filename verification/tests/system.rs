//! System commands and the outcomes of running them.

use beckon_macos::router::ItemKind;
use beckon_macos::system::{
    activate, failed, items, mechanism, run_call, run_spawn, specs, Called, Mechanism, Ran,
};

#[test]
fn items_shape_and_order_are_golden() {
    let items = items();
    let ids: Vec<&str> = items.iter().map(|i| i.id.as_str()).collect();
    assert_eq!(
        ids,
        vec![
            "system.sleep",
            "system.lock-screen",
            "system.empty-trash",
            "system.toggle-dark-mode",
            "system.toggle-mute",
            "system.volume-up",
            "system.volume-down",
            "system.quit-frontmost",
            "system.restart-finder",
            "settings.keyboard",
            "settings.displays",
            "settings.bluetooth",
            "settings.wifi",
            "settings.battery",
            "settings.sound",
            "settings.notifications",
            "settings.appearance",
            "settings.accessibility",
            "settings.privacy",
            "settings.trackpad",
            "settings.dock",
            "settings.software-update",
            "settings.network",
            "settings.screen-time",
        ]
    );
    for item in &items {
        assert_eq!(item.kind, ItemKind::SystemCommand);
        assert!(
            item.id.starts_with("system.") || item.id.starts_with("settings."),
            "bad id: {}",
            item.id
        );
        assert!(!item.title.is_empty());
        assert!(!item.subtitle.is_empty(), "no subtitle on {}", item.id);
        assert!(!item.subtitle.contains('\n'), "subtitle is not one line on {}", item.id);
    }
}

#[test]
fn items_is_deterministic_with_unique_ids() {
    assert_eq!(items(), items());
    let mut ids: Vec<String> = items().into_iter().map(|i| i.id).collect();
    let before = ids.len();
    ids.sort();
    ids.dedup();
    assert_eq!(before, ids.len(), "duplicate ids");
}

#[test]
fn system_unknown_id_is_an_err_not_a_panic() {
    assert!(activate("system.does-not-exist").is_err());
    assert!(activate("").is_err());
    assert!(activate("app.safari").is_err());
    assert!(mechanism("system.does-not-exist").is_none());
    assert_eq!(
        activate("settings.nowhere").unwrap_err(),
        "unknown system command id: settings.nowhere"
    );
}

#[test]
fn every_item_has_a_mechanism() {
    for spec in specs() {
        assert!(mechanism(spec.id).is_some(), "no mechanism for {}", spec.id);
    }
    for item in items() {
        assert!(activate(&item.id).is_ok(), "no mechanism for {}", item.id);
    }
}

#[test]
fn golden_mechanism_per_command() {
    let argv = |parts: &[&str]| {
        Some(Mechanism::Spawn(parts.iter().map(|p| p.to_string()).collect()))
    };
    assert_eq!(mechanism("system.sleep"), argv(&["/usr/bin/pmset", "sleepnow"]));
    assert_eq!(
        mechanism("system.lock-screen"),
        Some(Mechanism::Call {
            framework: "/System/Library/PrivateFrameworks/login.framework/Versions/A/login",
            symbol: "SACLockScreenImmediate",
        })
    );
    assert_eq!(
        mechanism("system.empty-trash"),
        argv(&["/usr/bin/osascript", "-e", "tell application \"Finder\" to empty trash"])
    );
    assert_eq!(
        mechanism("system.toggle-dark-mode"),
        argv(&[
            "/usr/bin/osascript",
            "-e",
            "tell application \"System Events\" to tell appearance preferences \
             to set dark mode to not dark mode",
        ])
    );
    assert_eq!(
        mechanism("system.toggle-mute"),
        argv(&[
            "/usr/bin/osascript",
            "-e",
            "set volume output muted (not (output muted of (get volume settings)))",
        ])
    );
    assert_eq!(
        mechanism("system.volume-up"),
        argv(&[
            "/usr/bin/osascript",
            "-e",
            "set cur to output volume of (get volume settings)",
            "-e",
            "set volume output volume (cur + 6)",
        ])
    );
    assert_eq!(
        mechanism("system.volume-down"),
        argv(&[
            "/usr/bin/osascript",
            "-e",
            "set cur to output volume of (get volume settings)",
            "-e",
            "set volume output volume (cur - 6)",
        ])
    );
    assert_eq!(
        mechanism("system.quit-frontmost"),
        argv(&[
            "/usr/bin/osascript",
            "-e",
            "tell application \"System Events\" to set frontName to name of \
             first application process whose frontmost is true",
            "-e",
            "tell application frontName to quit",
        ])
    );
    assert_eq!(mechanism("system.restart-finder"), argv(&["/usr/bin/killall", "Finder"]));
}

#[test]
fn panes_open_by_their_scheme() {
    assert_eq!(
        mechanism("settings.wifi"),
        Some(Mechanism::Spawn(vec![
            "/usr/bin/open".to_string(),
            "x-apple.systempreferences:com.apple.wifi-settings-extension".to_string(),
        ]))
    );
}

#[test]
fn spawn_outcomes_map_to_results() {
    let ended = |success: bool, stderr: &str| Ran::Ended {
        success,
        status: "exit status: 1".to_string(),
        stderr: stderr.as_bytes().to_vec(),
    };
    // Success.
    assert_eq!(run_spawn(&vec!["/usr/bin/true".to_string()], ended(true, "")), Ok(()));
    // Missing binary: the spawn itself fails, named in the message.
    let err = run_spawn(
        &vec!["/nonexistent/beckon-test-binary".to_string()],
        Ran::NotStarted("No such file or directory (os error 2)".to_string()),
    )
    .unwrap_err();
    assert!(err.contains("/nonexistent/beckon-test-binary"), "{err}");
    // Nonzero exit with empty stderr: the status is the message.
    let err = run_spawn(&vec!["/usr/bin/false".to_string()], ended(false, "")).unwrap_err();
    assert_eq!(err, "/usr/bin/false failed with exit status: 1");
    // Otherwise what the program said is.
    let err =
        run_spawn(&vec!["/usr/bin/false".to_string()], ended(false, "  denied\n")).unwrap_err();
    assert_eq!(err, "denied");
    // Degenerate input never panics.
    assert_eq!(run_spawn(&vec![], ended(true, "")), Err("empty argv".to_string()));
}

#[test]
fn error_output_that_is_no_text_is_still_shown() {
    let ran = Ran::Ended {
        success: false,
        status: "exit status: 1".to_string(),
        stderr: vec![b'n', b'o', 0xff],
    };
    assert_eq!(run_spawn(&vec!["x".to_string()], ran), Err("no\u{fffd}".to_string()));
    assert_eq!(failed("x", "s", "\t"), "x failed with s");
}

#[test]
fn call_outcomes_map_to_results() {
    assert_eq!(run_call("f", "s", Called::Made), Ok(()));
    assert_eq!(run_call("f", "s", Called::NotLoaded), Err("dlopen failed for f".to_string()));
    assert_eq!(run_call("f", "s", Called::NotFound), Err("s not found in f".to_string()));
    assert_eq!(
        run_call("f", "s", Called::BadPath("nul".to_string())),
        Err("bad framework path: nul".to_string())
    );
    assert_eq!(
        run_call("f", "s", Called::BadName("nul".to_string())),
        Err("bad symbol name: nul".to_string())
    );
}
