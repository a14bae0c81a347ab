//! What the launcher begins with.

use beckon_macos::engine::{Config, HotkeyConfig};
use beckon_macos::router::{Item, ItemKind};
use beckon_macos::scriptcmd::{Mode, Script};
use beckon_macos::startup::{
    init, load_frecency, not_saved, registered, FrecencyRead, Loaded, LogLine, Readings,
};
use beckon_macos::table::Table;
use beckon_macos::walkthrough::Tour;

fn config(max_results: usize) -> Config {
    Config {
        aliases: Table::new(),
        triggers: Table::new(),
        max_results,
        hotkey: HotkeyConfig { key: "space".to_string(), modifiers: vec!["opt".to_string()] },
    }
}

fn readings() -> Readings {
    Readings {
        apps: vec![Item::new("a", "A", "/Applications/A.app", ItemKind::App)],
        millis: 12,
        root: "/store".to_string(),
        root_error: None,
        config_path: "/store/config.json".to_string(),
        config: Loaded::Present(config(5)),
        default_config: config(9),
        scripts_error: None,
        scripts: vec![Script {
            file_name: "x.sh".to_string(),
            path: "/home/u/.beckon/scripts/x.sh".to_string(),
            title: "X".to_string(),
            subtitle: None,
            mode: Mode::Output,
            keyword: Some("xx".to_string()),
        }],
        plugin_keywords: vec![
            ("k".to_string(), "one".to_string()),
            ("k".to_string(), "two".to_string()),
        ],
        frecency: FrecencyRead::Parsed,
        snippets: Loaded::Present(()),
        quicklinks: Loaded::Present(()),
        trusted: true,
        tour_done: true,
    }
}

fn out(line: &str) -> LogLine {
    LogLine { error: false, line: line.to_string() }
}

fn err(line: &str) -> LogLine {
    LogLine { error: true, line: line.to_string() }
}

#[test]
fn everything_that_reads_is_gone_on_from() {
    let s = init(readings(), Some("/home/u"));
    assert_eq!(
        s.log,
        vec![out("beckon: indexed 1 apps in 12 ms"), out("beckon: Accessibility: granted")]
    );
    assert_eq!(s.engine.config.max_results, 5);
    assert_eq!(s.engine.scripts[0].id, "script.x.sh");
    assert_eq!(s.engine.scripts[0].subtitle, "~/.beckon/scripts/x.sh (output)");
    assert_eq!(s.engine.script_keywords.get("xx").map(|v| v.as_str()), Some("script.x.sh"));
    assert_eq!(s.engine.plugin_keywords.get("k").map(|v| v.as_str()), Some("two"));
    assert_eq!(s.engine.commands.len(), 24 + 17);
    assert!(s.engine.results.is_empty());
    assert!(!s.fresh_frecency && !s.default_snippets && !s.default_quicklinks);
}

#[test]
fn what_does_not_read_is_named_and_replaced() {
    let r = Readings {
        root_error: Some("denied".to_string()),
        config: Loaded::Broken("line 3".to_string()),
        scripts_error: Some("full".to_string()),
        frecency: FrecencyRead::Corrupt("what".to_string()),
        snippets: Loaded::Broken("s".to_string()),
        quicklinks: Loaded::Broken("q".to_string()),
        trusted: false,
        ..readings()
    };
    let s = init(r, None);
    assert_eq!(
        s.log,
        vec![
            out("beckon: indexed 1 apps in 12 ms"),
            err("beckon: cannot create store root /store: denied; frecency will not persist"),
            err("beckon: cannot load config /store/config.json: line 3; using defaults"),
            err("beckon: cannot bootstrap the scripts directory: full"),
            err("beckon: corrupt frecency store /store/frecency.txt: what; starting fresh"),
            err("beckon: corrupt snippet store /store/snippets.json: s; using defaults"),
            err("beckon: corrupt quicklink store /store/quicklinks.json: q; using defaults"),
            out("beckon: Accessibility: not granted (window management and paste disabled)"),
        ]
    );
    assert_eq!(s.engine.config.max_results, 9);
    assert_eq!(s.engine.commands.len(), 24 + 17 + 1);
    assert_eq!(s.engine.commands.last().unwrap().id, "onboarding.accessibility");
    assert!(s.fresh_frecency && s.default_snippets && s.default_quicklinks);
}

#[test]
fn what_is_missing_goes_without_a_word() {
    let r = Readings {
        config: Loaded::Missing,
        frecency: FrecencyRead::Missing,
        snippets: Loaded::Missing,
        quicklinks: Loaded::Missing,
        ..readings()
    };
    let s = init(Readings { tour_done: false, ..r }, None);
    assert_eq!(s.engine.tour, Tour { done: false, step: None });
    assert_eq!(s.log.len(), 2);
    assert_eq!(s.engine.config.max_results, 9);
    assert!(s.fresh_frecency && s.default_snippets && s.default_quicklinks);
}

#[test]
fn frecency_reads_in_stages() {
    assert_eq!(load_frecency("/f", FrecencyRead::Parsed), (false, None));
    assert_eq!(load_frecency("/f", FrecencyRead::Missing), (true, None));
    assert_eq!(
        load_frecency("/f", FrecencyRead::Unreadable("e".to_string())),
        (true, Some(err("beckon: cannot read frecency store /f: e; starting fresh")))
    );
    assert_eq!(
        load_frecency("/f", FrecencyRead::NotText("e".to_string())),
        (true, Some(err("beckon: frecency store /f is not UTF-8 (e); starting fresh")))
    );
}

#[test]
fn command_ids_are_unique_at_startup() {
    let s = init(Readings { trusted: false, ..readings() }, None);
    let mut ids: Vec<String> = s.engine.commands.iter().map(|c| c.id.clone()).collect();
    let before = ids.len();
    ids.sort();
    ids.dedup();
    assert_eq!(ids.len(), before);
}

#[test]
fn messages_of_the_shell() {
    assert_eq!(not_saved("/f", "e"), "cannot save frecency to /f: e");
    assert_eq!(
        registered("Option+Space", Ok(())),
        out("beckon: ready; press Option+Space to summon the panel")
    );
    assert_eq!(
        registered("Option+Space", Err(-9878)),
        err("beckon: hotkey registration failed (OSStatus -9878); is Option+Space taken?")
    );
    assert_eq!(
        registered("Cmd+Shift+Space", Ok(())),
        out("beckon: ready; press Cmd+Shift+Space to summon the panel")
    );
}
