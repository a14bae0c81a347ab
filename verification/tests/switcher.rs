//! The window switcher's rows and ids.

use beckon_macos::router::ItemKind;
use beckon_macos::switcher::{
    activate, activate_app, activation_options, after_focus, after_step, app_level_outcome,
    build_items, copy_attr, current_title, focus_ax_window, matches_lowered, parse_id, sanitize,
    set_true_attr, window_of, AfterFocus, Candidate, Focus, FocusMiss, FocusStep, RawWindow,
    WinInfo, MAX_EMPTY_QUERY_ITEMS,
};

fn w(pid: i32, number: u32, owner: &str, title: &str) -> WinInfo {
    WinInfo { pid, number, owner: owner.to_string(), title: title.to_string() }
}

fn desktop() -> Vec<WinInfo> {
    vec![
        w(300, 31, "Terminal", "zsh: ~/geist"),
        w(100, 12, "Safari", "Rust std docs"),
        w(100, 11, "Safari", ""),
        w(100, 10, "Safari", "GitHub"),
        w(200, 20, "Preview", ""),
        w(999, 90, "beckon", "beckon"),
        w(400, 40, "", "orphan"),
    ]
}

#[test]
fn switcher_id_round_trips() {
    assert_eq!(parse_id("winsw.1234.567").unwrap(), (1234, 567));
    assert_eq!(parse_id("winsw.-2.9").unwrap(), (-2, 9));
}

#[test]
fn switcher_bad_ids_are_rejected_not_panicked_on() {
    for bad in [
        "",
        "winsw.",
        "winsw.12",
        "winsw.12.",
        "winsw..34",
        "winsw.a.b",
        "winsw.12.-3",
        "window.left-half",
        "app.safari",
    ] {
        assert!(parse_id(bad).is_err(), "{bad:?} should not parse");
    }
}

#[test]
fn sanitize_applies_the_three_documented_rules() {
    let kept = sanitize(&desktop(), 999);
    // beckon itself gone, empty owner gone, Safari's untitled helper gone
    // because Safari has titled windows, Preview's untitled-only window kept.
    let ids: Vec<(i32, u32)> = kept.iter().map(|x| (x.pid, x.number)).collect();
    assert_eq!(ids, vec![(300, 31), (100, 12), (100, 10), (200, 20)]);
}

#[test]
fn untitled_only_apps_survive_the_no_titles_world() {
    // Without the Screen Recording grant every title is empty; nothing may be
    // dropped or the list would be empty.
    let wins = vec![w(1, 1, "Safari", ""), w(2, 2, "Terminal", "")];
    assert_eq!(sanitize(&wins, 999).len(), 2);
}

#[test]
fn ordering_is_frontmost_first_then_owner_pid_number() {
    let items = build_items(&desktop(), 999, Some(200), "");
    let ids: Vec<&str> = items.iter().map(|i| i.id.as_str()).collect();
    // Preview (frontmost) first, then Safari by owner name with windows by
    // number, then Terminal.
    assert_eq!(ids, vec!["winsw.200.20", "winsw.100.10", "winsw.100.12", "winsw.300.31"]);
}

#[test]
fn shaping_titles_subtitles_and_kind() {
    let items = build_items(&desktop(), 999, Some(200), "");
    // Untitled Preview window falls back to the app name.
    assert_eq!(items[0].title, "Preview");
    assert_eq!(items[0].subtitle, "Preview");
    // Titled windows show the window title over the app name.
    assert_eq!(items[1].title, "GitHub");
    assert_eq!(items[1].subtitle, "Safari");
    for item in &items {
        assert_eq!(item.kind, ItemKind::Window);
        assert!(item.id.starts_with("winsw."));
    }
}

#[test]
fn query_filters_case_insensitively_on_title_or_app_name() {
    let by_title = build_items(&desktop(), 999, None, "github");
    assert_eq!(by_title.len(), 1);
    assert_eq!(by_title[0].title, "GitHub");
    // App name matches too, catching both of Safari's kept rows.
    let by_app = build_items(&desktop(), 999, None, "SAFARI");
    assert_eq!(by_app.len(), 2);
    // No match, no rows.
    assert!(build_items(&desktop(), 999, None, "xyzzy").is_empty());
}

#[test]
fn empty_query_caps_at_nine_and_is_deterministic() {
    let mut wins = Vec::new();
    for n in 0..25u32 {
        wins.push(w(50 + n as i32, n, &format!("App{n:02}"), "doc"));
    }
    let a = build_items(&wins, 999, None, "");
    let b = build_items(&wins, 999, None, "");
    assert_eq!(a.len(), MAX_EMPTY_QUERY_ITEMS);
    assert_eq!(a, b);
    assert_eq!(a[0].id, "winsw.50.0");
}

#[test]
fn switcher_activate_rejects_garbage_ids_before_touching_anything() {
    let err = activate("winsw.garbage", true).unwrap_err();
    assert!(err.contains("not a window switcher id"), "{err}");
}

#[test]
fn row_ids_name_the_window_to_focus() {
    let items = build_items(&desktop(), 999, Some(200), "github");
    assert_eq!(activate(&items[0].id, true), Ok(Focus::Window { pid: 100, number: 10 }));
    // Without the permission only the app can be brought forward.
    assert_eq!(activate(&items[0].id, false), Ok(Focus::App { pid: 100 }));
}

#[test]
fn letters_beyond_ascii_match_in_any_case() {
    let wins = vec![w(1, 1, "Notes", "ÜBUNG"), w(2, 2, "Notes", "other")];
    let rows = build_items(&wins, 999, None, "übung");
    assert_eq!(rows.len(), 1);
    assert_eq!(rows[0].title, "ÜBUNG");
    assert!(matches_lowered("github", "safari", "fari"));
    assert!(!matches_lowered("github", "safari", "xyz"));
}

#[test]
fn raw_windows_need_a_layer_a_pid_and_a_number() {
    let raw = |layer, pid, number| RawWindow {
        layer,
        pid,
        number,
        owner: Some("Safari".to_string()),
        title: None,
    };
    let got = window_of(raw(Some(0), Some(100), Some(12))).expect("a window");
    assert_eq!((got.pid, got.number, got.owner.as_str(), got.title.as_str()), (100, 12, "Safari", ""));
    assert!(window_of(raw(Some(25), Some(100), Some(12))).is_none());
    assert!(window_of(raw(None, Some(100), Some(12))).is_none());
    assert!(window_of(raw(Some(0), None, Some(12))).is_none());
    assert!(window_of(raw(Some(0), Some(100), None)).is_none());
}

#[test]
fn windows_are_found_by_number_or_title() {
    let by_number = vec![Candidate::Number(Some(1)), Candidate::Absent, Candidate::Number(Some(7))];
    assert_eq!(focus_ax_window(&by_number, 7, &None), Some(2));
    assert_eq!(focus_ax_window(&by_number, 8, &None), None);
    let title = Some("GitHub".to_string());
    let by_title = vec![Candidate::Title(None), Candidate::Title(Some("GitHub".to_string()))];
    assert_eq!(focus_ax_window(&by_title, 7, &title), Some(1));
    assert_eq!(focus_ax_window(&by_title, 7, &None), None);
    assert_eq!(current_title(&desktop(), 100, 10), Some("GitHub".to_string()));
    assert_eq!(current_title(&desktop(), 100, 99), None);
}

#[test]
fn focusing_goes_step_by_step() {
    assert_eq!(after_step(FocusStep::MakeMain, 0), Ok(FocusStep::Raise));
    assert_eq!(set_true_attr("AXMain", 0), Ok(()));
    assert!(set_true_attr("AXMain", -25204).unwrap_err().contains("AXMain"));
    assert_eq!(after_focus(Ok(())), AfterFocus::End(Ok(())));
    assert_eq!(after_focus(Err(FocusMiss::NotFound)), AfterFocus::BringApp);
    assert_eq!(app_level_outcome(Ok(())), Ok(()));
    assert_eq!(activate_app(5, Some(true)), Ok(()));
    assert!(activate_app(5, Some(false)).is_err());
    assert!(activate_app(5, None).is_err());
    assert_eq!(activation_options(true), 3);
    assert_eq!(activation_options(false), 2);
}

#[test]
fn attribute_reads_say_what_failed() {
    assert_eq!(copy_attr("AXWindows", 0, true), Ok(()));
    assert_eq!(
        copy_attr("AXWindows", -25204, false),
        Err("reading AXWindows failed: AXError -25204".to_string())
    );
    assert_eq!(
        copy_attr("AXTitle", 0, false),
        Err("reading AXTitle returned no value".to_string())
    );
}
