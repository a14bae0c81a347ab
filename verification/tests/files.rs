//! File search.

use beckon_macos::files::{
    abbreviate_home, activate, id_for_path, index_roots, items, opened_by_fallback, path_from_id,
    rank_local, skip_name, spotlight, spotlight_line, wants_spotlight, DirNode, Entry, Fallback,
    Index, IndexState, SpotlightHit, DEPTH_CAP, MAX_ENTRIES, SPOTLIGHT_LINE_CAP,
};
use beckon_macos::router::ItemKind;

fn file(dir: &str, name: &str) -> DirNode {
    DirNode {
        name: Some(name.to_string()),
        path: Some(format!("{dir}/{name}")),
        is_dir: Some(false),
        children: vec![],
    }
}

fn dir(parent: &str, name: &str, children: Vec<DirNode>) -> DirNode {
    DirNode { is_dir: Some(true), children, ..file(parent, name) }
}

fn walk_all(nodes: &Vec<DirNode>, max_depth: usize, cap: usize) -> Vec<Entry> {
    let mut index = Index::new(cap);
    index.walk_dir(nodes, 1, max_depth);
    index.entries
}

#[test]
fn walks_can_be_as_deep_as_a_word_says() {
    let t = vec![dir("/t", "a", vec![file("/t/a", "b.txt")])];
    assert_eq!(names(&walk_all(&t, usize::MAX, 10)), vec!["a", "b.txt"]);
    let mut index = Index::new(10);
    index.walk_dir(&t, usize::MAX, usize::MAX);
    assert_eq!(names(&index.entries), vec!["a"]);
}

fn names(entries: &[Entry]) -> Vec<&str> {
    entries.iter().map(|e| e.name.as_str()).collect()
}

#[test]
fn walk_skips_hidden_and_junk_dirs() {
    let t = vec![
        file("/t", "keep.txt"),
        file("/t", ".hidden.txt"),
        dir("/t", "node_modules", vec![file("/t/node_modules", "lib.js")]),
        dir("/t", "target", vec![dir("/t/target", "debug", vec![file("/t/target/debug", "bin")])]),
        dir("/t", "__pycache__", vec![file("/t/__pycache__", "mod.pyc")]),
        dir("/t", "venv", vec![file("/t/venv", "pyvenv.cfg")]),
        dir("/t", ".venv", vec![file("/t/.venv", "pyvenv.cfg")]),
        dir("/t", "Library", vec![dir("/t/Library", "Caches", vec![file("/t/x", "blob")])]),
        dir("/t", ".git", vec![]),
    ];
    let entries = walk_all(&t, DEPTH_CAP, MAX_ENTRIES);
    assert_eq!(names(&entries), vec!["keep.txt"]);
    assert!(skip_name("node_modules") && skip_name(".git") && !skip_name("src"));
}

#[test]
fn walk_respects_the_depth_cap() {
    let t = vec![
        file("/t", "d1.txt"),
        dir(
            "/t",
            "a",
            vec![
                file("/t/a", "d2.txt"),
                dir(
                    "/t/a",
                    "b",
                    vec![
                        file("/t/a/b", "d3.txt"),
                        dir(
                            "/t/a/b",
                            "c",
                            vec![
                                file("/t/a/b/c", "d4.txt"),
                                dir("/t/a/b/c", "d", vec![file("/t/a/b/c/d", "d5.txt")]),
                            ],
                        ),
                    ],
                ),
            ],
        ),
    ];
    let entries = walk_all(&t, 4, MAX_ENTRIES);
    let got = names(&entries);
    // Depth 4 includes the dir "d" itself and the file d4.txt; the depth-5
    // file d5.txt is out.
    assert!(got.contains(&"d4.txt"), "{got:?}");
    assert!(got.contains(&"d"), "{got:?}");
    assert!(!got.contains(&"d5.txt"), "{got:?}");
    // A depth-1 walk sees only the top level.
    let shallow = walk_all(&t, 1, MAX_ENTRIES);
    assert_eq!(names(&shallow), vec!["a", "d1.txt"]);
}

#[test]
fn walk_stops_cleanly_at_the_entry_cap() {
    let t: Vec<DirNode> = (0..10).rev().map(|i| file("/t", &format!("f{i}.txt"))).collect();
    let entries = walk_all(&t, DEPTH_CAP, 3);
    assert_eq!(entries.len(), 3);
    // Name order makes the truncation deterministic.
    assert_eq!(names(&entries), vec!["f0.txt", "f1.txt", "f2.txt"]);
}

#[test]
fn walk_records_dirs_and_files_with_absolute_paths() {
    let t = vec![file("/t", "doc.txt"), dir("/t", "folder", vec![])];
    let entries = walk_all(&t, DEPTH_CAP, MAX_ENTRIES);
    assert_eq!(entries.len(), 2);
    let doc = entries.iter().find(|e| e.name == "doc.txt").unwrap();
    let folder = entries.iter().find(|e| e.name == "folder").unwrap();
    assert!(!doc.is_dir);
    assert!(folder.is_dir);
    for e in &entries {
        assert!(e.path.starts_with('/'), "not absolute: {}", e.path);
    }
}

#[test]
fn walk_is_deterministic() {
    let t = vec![
        file("/t", "b.txt"),
        file("/t", "a.txt"),
        dir("/t", "sub", vec![file("/t/sub", "c.txt")]),
    ];
    let a = walk_all(&t, DEPTH_CAP, MAX_ENTRIES);
    let b = walk_all(&t, DEPTH_CAP, MAX_ENTRIES);
    assert_eq!(a, b);
    assert_eq!(names(&a), vec!["a.txt", "b.txt", "sub", "c.txt"]);
}

fn entry(name: &str, path: &str) -> Entry {
    Entry { name: name.to_string(), path: path.to_string(), is_dir: false }
}

#[test]
fn rank_orders_by_score_then_path_and_caps() {
    let entries = vec![
        entry("notes-archive.txt", "/x/notes-archive.txt"),
        entry("Notes.txt", "/b/Notes.txt"),
        entry("Notes.txt", "/a/Notes.txt"),
        entry("unrelated.png", "/x/unrelated.png"),
    ];
    let scores = vec![Some(40), Some(70), Some(70), None];
    let ranked = rank_local(&entries, &scores, 9);
    // The exact-stem matches win; the tie between identical names breaks by
    // path ascending; the non-match is dropped.
    assert_eq!(ranked.len(), 3);
    assert_eq!(ranked[0].path, "/a/Notes.txt");
    assert_eq!(ranked[1].path, "/b/Notes.txt");
    assert_eq!(ranked[2].path, "/x/notes-archive.txt");
    let capped = rank_local(&entries, &scores, 2);
    assert_eq!(capped.len(), 2);
    assert_eq!(capped[0].path, "/a/Notes.txt");
}

#[test]
fn rank_drops_non_matches_entirely() {
    let entries = vec![entry("alpha.txt", "/a"), entry("beta.txt", "/b")];
    assert!(rank_local(&entries, &vec![None, None], 9).is_empty());
}

#[test]
fn id_round_trips_through_the_registry_form() {
    let path = "/Users/someone/Documents/report.pdf";
    let id = id_for_path(path);
    assert_eq!(id, "file./Users/someone/Documents/report.pdf");
    assert_eq!(path_from_id(&id).as_deref(), Some(path));
    assert_eq!(path_from_id("app.com.apple.Safari"), None);
}

#[test]
fn home_abbreviation() {
    let home = "/Users/someone";
    assert_eq!(abbreviate_home("/Users/someone/Documents/a.txt", home), "~/Documents/a.txt");
    assert_eq!(abbreviate_home("/Users/someone", home), "~");
    // A sibling that merely shares the prefix is not abbreviated.
    assert_eq!(
        abbreviate_home("/Users/someone-else/b.txt", home),
        "/Users/someone-else/b.txt"
    );
    assert_eq!(abbreviate_home("/etc/hosts", home), "/etc/hosts");
    assert_eq!(abbreviate_home("/etc/hosts", ""), "/etc/hosts");
}

#[test]
fn empty_query_returns_nothing() {
    let local = vec![entry("a.txt", "/a.txt")];
    assert!(items("", &local, &vec![], "/h").is_empty());
    assert!(items("   ", &local, &vec![], "/h").is_empty());
}

#[test]
fn activate_rejects_foreign_ids_and_missing_paths() {
    assert!(activate("app.com.apple.Safari", true).is_err());
    assert!(activate("file./definitely/not/here.txt", false).is_err());
    assert_eq!(activate("file./x/y.txt", true), Ok("/x/y.txt".to_string()));
}

fn hit(name: &str, path: &str) -> SpotlightHit {
    (name.to_string(), path.to_string())
}

#[test]
fn hits_fill_up_what_the_index_found() {
    let local = vec![entry("a.txt", "/h/a.txt")];
    let hits = vec![hit("a.txt", "/h/a.txt"), hit("b.txt", "/x/b.txt"), hit("b.txt", "/x/b.txt")];
    let rows = items("a", &local, &hits, "/h");
    let seen: Vec<(&str, &str, &str)> = rows
        .iter()
        .map(|i| (i.id.as_str(), i.title.as_str(), i.subtitle.as_str()))
        .collect();
    assert_eq!(
        seen,
        vec![("file./h/a.txt", "a.txt", "~/a.txt"), ("file./x/b.txt", "b.txt", "/x/b.txt")]
    );
    assert!(rows.iter().all(|i| i.kind == ItemKind::File));
    assert!(wants_spotlight(0) && !wants_spotlight(3));
}

#[test]
fn queries_are_quoted_for_the_search_store() {
    let plain = spotlight("report", "/h").expect("a query");
    assert!(plain.contains("report"));
    let evil = spotlight("a\"b\\c", "/h").expect("a query");
    assert!(!evil.contains("a\"b"), "{evil}");
}

#[test]
fn search_lines_are_bounded() {
    let mut hits = Vec::new();
    assert!(spotlight_line(&mut hits, "/x/a.txt"));
    assert_eq!(hits[0].0, "a.txt");
    for i in 0..2 * SPOTLIGHT_LINE_CAP {
        spotlight_line(&mut hits, &format!("/x/{i}.txt"));
    }
    assert!(hits.len() <= SPOTLIGHT_LINE_CAP);
}

#[test]
fn the_index_serves_what_it_has() {
    let mut state = IndexState::new();
    assert!(!state.ready());
    assert!(state.start(), "the first start walks");
    assert!(!state.start(), "a second start does nothing");
    assert!(!state.refresh(), "a walk is under way");
    assert!(state.publish(vec![entry("b", "/b")]), "the index is not full");
    assert!(!state.ready(), "the walk goes on");
    assert_eq!(state.entries, vec![entry("b", "/b")]);
    state.finish(vec![entry("a", "/a")]);
    assert!(state.ready());
    assert_eq!(state.entries.len(), 1);
    assert!(state.refresh());
}

#[test]
fn roots_are_the_home_and_its_content() {
    let roots = index_roots(Some("/Users/x"));
    assert_eq!(roots[0], ("/Users/x".to_string(), 1));
    assert_eq!(roots[1], ("/Users/x/Desktop".to_string(), DEPTH_CAP));
    assert!(index_roots(None).is_empty());
}

#[test]
fn opening_falls_back_to_a_program() {
    assert_eq!(opened_by_fallback("/x", Fallback::Ran(true)), Ok(()));
    assert!(opened_by_fallback("/x", Fallback::Ran(false)).unwrap_err().contains("/x"));
    assert!(opened_by_fallback("/x", Fallback::NotStarted("no".to_string())).is_err());
}
