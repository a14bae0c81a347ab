//! Menu bar search.

use beckon_macos::menubar::{
    activate, build_items, display_path, enumerate, parse_id, press, read_shortcut,
    shortcut_string, snapshot_frontmost, MenuEntry, MenuNode, Step, Visit, Walk, CACHE_TTL_SECS, MAX_DEPTH,
    MAX_ITEMS, MAX_RESULTS, MENU_MOD_CONTROL, MENU_MOD_NO_COMMAND, MENU_MOD_OPTION,
    MENU_MOD_SHIFT,
};
use beckon_macos::router::{Item, ItemKind};

fn e(title: &str, breadcrumb: &str, enabled: bool, shortcut: &str) -> MenuEntry {
    MenuEntry {
        title: title.to_string(),
        breadcrumb: breadcrumb.to_string(),
        enabled,
        shortcut: shortcut.to_string(),
    }
}

fn sample() -> Vec<MenuEntry> {
    vec![
        e("New Window", "File", true, "\u{2318}N"),
        e("Export as PDF", "File > Export", true, ""),
        e("Print", "File", false, "\u{2318}P"),
        e("Copy", "Edit", true, "\u{2318}C"),
        e("Paste and Match Style", "Edit", true, "\u{2325}\u{21E7}\u{2318}V"),
        e("Enter Full Screen", "View", true, ""),
    ]
}

/// A simple matcher: the query's characters in order, sooner is better.
fn score(query: &str, text: &str) -> Option<i64> {
    let hay: Vec<char> = text.to_lowercase().chars().collect();
    let mut at = 0;
    for c in query.to_lowercase().chars() {
        while at < hay.len() && hay[at] != c {
            at += 1;
        }
        if at == hay.len() {
            return None;
        }
        at += 1;
    }
    Some(1000 - at as i64)
}

fn rows(pid: i32, entries: &Vec<MenuEntry>, query: &str) -> Vec<Item> {
    let scores: Vec<Option<i64>> =
        entries.iter().map(|x| score(query, &display_path(x))).collect();
    build_items(pid, entries, query, &scores)
}

#[test]
fn menubar_id_round_trips() {
    assert_eq!(parse_id("menu.1234.56").unwrap(), (1234, 56));
    assert_eq!(parse_id("menu.-2.0").unwrap(), (-2, 0));
}

#[test]
fn menubar_bad_ids_are_rejected_not_panicked_on() {
    for bad in [
        "",
        "menu.",
        "menu.12",
        "menu.12.",
        "menu..3",
        "menu.a.b",
        "menu.12.-3",
        "winsw.12.34",
        "app.safari",
    ] {
        assert!(parse_id(bad).is_err(), "{bad:?} should not parse");
    }
}

#[test]
fn menubar_activate_rejects_garbage_ids_before_touching_anything() {
    let err = activate(None, "menu.garbage").unwrap_err();
    assert!(err.contains("not a menu item id"), "{err}");
}

#[test]
fn shortcut_glyphs_follow_the_carbon_mask() {
    // Zero means Command alone.
    assert_eq!(shortcut_string("C", 0), "\u{2318}C");
    assert_eq!(shortcut_string("V", MENU_MOD_SHIFT), "\u{21E7}\u{2318}V");
    assert_eq!(
        shortcut_string("V", MENU_MOD_OPTION | MENU_MOD_SHIFT),
        "\u{2325}\u{21E7}\u{2318}V"
    );
    // The no-command bit removes the command glyph.
    assert_eq!(shortcut_string("F", MENU_MOD_CONTROL | MENU_MOD_NO_COMMAND), "\u{2303}F");
    // All four bits: every modifier but Command.
    assert_eq!(
        shortcut_string(
            "X",
            MENU_MOD_CONTROL | MENU_MOD_OPTION | MENU_MOD_SHIFT | MENU_MOD_NO_COMMAND
        ),
        "\u{2303}\u{2325}\u{21E7}X"
    );
}

#[test]
fn empty_query_keeps_menu_order_skips_disabled_caps_at_nine() {
    let found = rows(42, &sample(), "");
    // Print is disabled and gone; everything else in menu order.
    let titles: Vec<&str> = found.iter().map(|r| r.title.as_str()).collect();
    assert_eq!(
        titles,
        vec![
            "New Window",
            "Export as PDF",
            "Copy",
            "Paste and Match Style",
            "Enter Full Screen"
        ]
    );
    let mut many = Vec::new();
    for n in 0..30 {
        many.push(e(&format!("Item {n:02}"), "File", true, ""));
    }
    assert_eq!(rows(1, &many, "").len(), MAX_RESULTS);
}

#[test]
fn query_ranks_across_breadcrumb_and_title() {
    // "export" only matches through the breadcrumb-joined path.
    let found = rows(42, &sample(), "export");
    assert_eq!(found.len(), 1);
    assert_eq!(found[0].title, "Export as PDF");
    // A menu-name query surfaces that menu's items.
    let found = rows(42, &sample(), "edit paste");
    assert_eq!(found.len(), 1);
    assert_eq!(found[0].title, "Paste and Match Style");
    // Disabled items never match, even by exact title.
    assert!(rows(42, &sample(), "print").is_empty());
    // No match, no rows.
    assert!(rows(42, &sample(), "xyzzy").is_empty());
}

#[test]
fn rows_carry_ids_subtitles_and_kind() {
    let found = rows(42, &sample(), "");
    assert_eq!(found[0].id, "menu.42.0");
    assert_eq!(found[0].subtitle, "File  \u{2318}N");
    // Copy sits at seq 3 (Print holds seq 2 even though hidden), so ids stay
    // stable references into the snapshot.
    assert_eq!(found[2].id, "menu.42.3");
    // No shortcut: the subtitle is the bare breadcrumb.
    assert_eq!(found[1].subtitle, "File > Export");
    for row in &found {
        assert_eq!(row.kind, ItemKind::SystemCommand);
        assert!(row.id.starts_with("menu."));
    }
}

#[test]
fn build_items_is_deterministic() {
    let a = rows(7, &sample(), "e");
    let b = rows(7, &sample(), "e");
    assert_eq!(a, b);
}

#[test]
fn matches_rank_by_score_and_then_by_place() {
    let entries = vec![
        e("A", "M", true, ""),
        e("B", "M", true, ""),
        e("C", "M", true, ""),
        e("D", "M", false, ""),
    ];
    let scores = vec![Some(1), Some(5), Some(5), Some(9)];
    let found = build_items(3, &entries, "x", &scores);
    let titles: Vec<&str> = found.iter().map(|r| r.title.as_str()).collect();
    assert_eq!(titles, vec!["B", "C", "A"]);
}

fn leaf(title: &str) -> MenuNode {
    MenuNode {
        title: title.to_string(),
        enabled: Some(true),
        command_char: None,
        modifiers: None,
        children: vec![],
    }
}

fn menu(title: &str, children: Vec<MenuNode>) -> MenuNode {
    MenuNode { children, ..leaf(title) }
}

#[test]
fn enumeration_collects_leaves_under_their_path() {
    // The bar's entries hold one untitled menu each.
    let bar = vec![
        menu("Apple", vec![menu("", vec![leaf("About")])]),
        menu(
            "File",
            vec![menu(
                "",
                vec![leaf("New"), leaf(""), menu("Export", vec![menu("", vec![leaf("PDF")])])],
            )],
        ),
    ];
    let found: Vec<(String, String)> =
        enumerate(true, &bar).into_iter().map(|x| (x.breadcrumb, x.title)).collect();
    assert_eq!(
        found,
        vec![
            ("File".to_string(), "New".to_string()),
            ("File > Export".to_string(), "PDF".to_string()),
        ]
    );
    // Without the permission nothing is read.
    assert!(enumerate(false, &bar).is_empty());
}

#[test]
fn enumeration_is_bounded() {
    let wide = menu("M", vec![menu("", (0..MAX_ITEMS + 50).map(|_| leaf("x")).collect())]);
    assert_eq!(enumerate(true, &vec![leaf("Apple"), wide]).len(), MAX_ITEMS);
    let mut deep = leaf("bottom");
    for _ in 0..3 * MAX_DEPTH {
        deep = menu("level", vec![deep]);
    }
    assert!(enumerate(true, &vec![leaf("Apple"), deep]).is_empty());
    // The bar's first element does not count.
    assert!(enumerate(true, &vec![leaf("Apple")]).is_empty());
}

#[test]
fn shortcuts_are_read_from_their_character() {
    assert_eq!(read_shortcut(&Some("C".to_string()), Some(0)), "\u{2318}C");
    assert_eq!(read_shortcut(&None, Some(0)), "");
    assert_eq!(read_shortcut(&Some(String::new()), Some(0)), "");
}

#[test]
fn activation_needs_the_snapshot_that_listed_the_row() {
    assert_eq!(activate(Some((42, 6)), "menu.42.3"), Ok(3));
    assert!(activate(Some((42, 3)), "menu.42.3").is_err());
    assert!(activate(Some((41, 6)), "menu.42.3").is_err());
    assert!(activate(None, "menu.42.3").is_err());
    assert_eq!(press(0), Ok(()));
    assert!(press(-25204).is_err());
}

#[test]
fn snapshots_are_taken_anew_when_stale() {
    assert_eq!(snapshot_frontmost(None, None), None);
    assert_eq!(snapshot_frontmost(Some(7), None), Some(7));
    assert_eq!(snapshot_frontmost(Some(7), Some((7, CACHE_TTL_SECS - 1))), None);
    assert_eq!(snapshot_frontmost(Some(7), Some((7, CACHE_TTL_SECS))), Some(7));
    assert_eq!(snapshot_frontmost(Some(7), Some((8, 0))), Some(7));
}

#[test]
fn a_walk_asks_for_one_element_after_the_other() {
    // A bar with the Apple menu and one more.
    let mut walk = Walk::new(2);
    assert_eq!(walk.step(), Step::Look(1));
    assert_eq!(walk.visit("File", 1), Visit::Descend);
    // The menu itself has no title.
    assert_eq!(walk.step(), Step::Look(0));
    assert_eq!(walk.visit("", 3), Visit::Descend);
    assert_eq!(walk.step(), Step::Look(0));
    assert_eq!(walk.visit("", 0), Visit::Pass, "a separator");
    assert_eq!(walk.step(), Step::Look(1));
    assert_eq!(walk.visit("Open", 0), Visit::Take);
    walk.take("Open", None, &Some("O".to_string()), None);
    assert_eq!(walk.step(), Step::Look(2));
    assert_eq!(walk.visit("Recent", 1), Visit::Descend);
    assert_eq!(walk.path, vec!["File".to_string(), "Recent".to_string()]);
    assert_eq!(walk.step(), Step::Look(0));
    assert_eq!(walk.visit("a.txt", 0), Visit::Take);
    walk.take("a.txt", Some(false), &None, None);
    assert_eq!(walk.step(), Step::Up);
    assert_eq!(walk.path, vec!["File".to_string()]);
    assert_eq!(walk.step(), Step::Up);
    assert_eq!(walk.step(), Step::Up);
    assert!(walk.path.is_empty());
    assert_eq!(walk.step(), Step::Up);
    assert_eq!(walk.step(), Step::Done);
    assert_eq!(walk.step(), Step::Done);
    let found: Vec<(&str, &str, bool)> = walk
        .entries
        .iter()
        .map(|e| (e.breadcrumb.as_str(), e.title.as_str(), e.enabled))
        .collect();
    assert_eq!(found, vec![("File", "Open", true), ("File > Recent", "a.txt", false)]);
    // A bar with nothing in it.
    let mut empty = Walk::new(0);
    assert_eq!(empty.step(), Step::Up);
    assert_eq!(empty.step(), Step::Done);
}
