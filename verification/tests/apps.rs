//! The application index.

use beckon_macos::apps::{
    bundle_id, display_name, index, index_rows, launch, no_url, roots, scan_dir, source_rank,
    visit, AppNode, Bundle, Visit,
};
use beckon_macos::router::{Item, ItemKind};

fn bundle(path: &str, display: &str, id: Option<&str>) -> Bundle {
    Bundle {
        path: path.to_string(),
        display: display.to_string(),
        id: id.map(|i| i.to_string()),
    }
}

fn node(path: &str, is_dir: Option<bool>, children: Vec<AppNode>) -> AppNode {
    AppNode {
        name: path.rsplit('/').next().unwrap().to_string(),
        path: path.to_string(),
        is_dir,
        children,
    }
}

#[test]
fn index_dedupes_toward_slash_applications() {
    // Rank order is the whole dedupe policy; lock it.
    assert!(source_rank("/Applications/Safari.app") < source_rank("/Users/x/Applications/A.app"));
    assert!(
        source_rank("/Users/x/Applications/A.app")
            < source_rank("/System/Applications/Calculator.app")
    );
}

#[test]
fn launch_rejects_missing_or_non_bundle_paths() {
    assert!(launch("/Applications/Definitely Not Installed.app", false).is_err());
    assert!(launch("/usr/bin/true", false).is_err());
    assert_eq!(
        launch("/Applications/X.app", false),
        Err("no app bundle at /Applications/X.app".to_string())
    );
    assert_eq!(
        launch("/usr/bin", true),
        Err("not an .app bundle: /usr/bin".to_string())
    );
    assert_eq!(launch("/Applications/X.app", true), Ok(()));
    assert_eq!(no_url("/x.app"), "NSURL rejected path /x.app");
}

#[test]
fn one_row_per_id_sorted_by_title_and_id() {
    let found = vec![
        bundle("/System/Applications/Calculator.app", "Calculator", Some("com.apple.calc")),
        bundle("/Applications/Zed.app", "Zed.app", Some("dev.zed")),
        bundle("/Users/x/Applications/Calculator.app", "Calculator", Some("com.apple.calc")),
        bundle("/Applications/Bare.app", "  ", None),
        bundle("/Applications/Alpha.app", "Alpha", Some("b.alpha")),
        bundle("/Applications/Alpha 2.app", "Alpha", Some("a.alpha")),
        bundle("/Applications/Zed.app", "Zed.app", Some("dev.zed")),
    ];
    let items = index(&found);
    let rows: Vec<(&str, &str, &str)> = items
        .iter()
        .map(|i| (i.title.as_str(), i.id.as_str(), i.subtitle.as_str()))
        .collect();
    assert_eq!(
        rows,
        vec![
            ("Alpha", "a.alpha", "/Applications/Alpha 2.app"),
            ("Alpha", "b.alpha", "/Applications/Alpha.app"),
            ("Bare", "/Applications/Bare.app", "/Applications/Bare.app"),
            ("Calculator", "com.apple.calc", "/Users/x/Applications/Calculator.app"),
            ("Zed", "dev.zed", "/Applications/Zed.app"),
        ]
    );
    assert!(items.iter().all(|i| i.kind == ItemKind::App));
    // The order in which bundles are found does not matter.
    let backwards: Vec<Bundle> = found.into_iter().rev().collect();
    assert_eq!(index(&backwards), items);
}

#[test]
fn the_smaller_path_wins_a_tie() {
    let row = |path: &str| Item::new("id", "T", path, ItemKind::App);
    let kept = index_rows(&vec![row("/Applications/B.app"), row("/Applications/A.app")]);
    assert_eq!(kept, vec![row("/Applications/A.app")]);
}

#[test]
fn names_and_ids_have_fallbacks() {
    assert_eq!(display_name("Safari.app"), Some("Safari".to_string()));
    assert_eq!(display_name(" Mail "), Some("Mail".to_string()));
    assert_eq!(display_name(".app"), None);
    assert_eq!(display_name(""), None);
    assert_eq!(bundle_id(Some("")), None);
    assert_eq!(bundle_id(None), None);
    assert_eq!(bundle_id(Some("x")), Some("x".to_string()));
}

#[test]
fn the_search_goes_one_level_deep() {
    let deep = node(
        "/Applications/Vendor",
        Some(true),
        vec![
            node("/Applications/Vendor/Tool.app", Some(true), vec![]),
            node(
                "/Applications/Vendor/More",
                Some(true),
                vec![node("/Applications/Vendor/More/Lost.app", Some(true), vec![])],
            ),
        ],
    );
    let entries = vec![
        node("/Applications/.Hidden.app", Some(true), vec![]),
        node("/Applications/Note.app", Some(false), vec![]),
        node("/Applications/Gone.app", None, vec![]),
        deep,
        node("/Applications/Safari.app", Some(true), vec![]),
    ];
    let mut out = vec!["/first".to_string()];
    scan_dir(&entries, true, &mut out);
    assert_eq!(out, vec!["/first", "/Applications/Vendor/Tool.app", "/Applications/Safari.app"]);
    let mut flat = Vec::new();
    scan_dir(&entries, false, &mut flat);
    assert_eq!(flat, vec!["/Applications/Safari.app"]);
    assert_eq!(visit("X.app", Some(true), true), Visit::Bundle);
}

#[test]
fn roots_end_with_the_users_own() {
    let all = roots(Some("/Users/x"));
    assert_eq!(all[0], ("/Applications".to_string(), true));
    assert_eq!(all[4], ("/Users/x/Applications".to_string(), false));
    assert_eq!(roots(None).len(), 4);
}
