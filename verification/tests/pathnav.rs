//! Path navigation over a small directory.

use beckon_macos::pathnav::{
    band, completion_rows, completion_target, drill_query, existing_rows, glyph_for, list_dir,
    name_of, rows, DirEntry, Found, PathAction, Target,
};

const DIR: &str = "/tmp/beckon-pathnav";

fn entry(name: &str, is_dir: bool, kind: &str, size: &str) -> DirEntry {
    DirEntry {
        name: name.to_string(),
        path: format!("{DIR}/{name}"),
        is_dir: Some(is_dir),
        kind: kind.to_string(),
        size: size.to_string(),
    }
}

fn fixture() -> Vec<DirEntry> {
    vec![
        entry("notes.md", false, "Markdown", "1 B"),
        entry("beta", true, "Folder", ""),
        entry(".hidden", false, "File", "1 B"),
        entry("apple.txt", false, "Text", "4 B"),
        entry("Alpha", true, "Folder", ""),
    ]
}

fn target(path: &str, is_dir: bool, kind: &str, size: &str, items: usize) -> Target {
    Target {
        path: path.to_string(),
        is_dir,
        kind: kind.to_string(),
        size: size.to_string(),
        items,
        display: path.to_string(),
    }
}

#[test]
fn non_paths_are_not_claimed() {
    assert!(rows(None, 9).is_none());
}

#[test]
fn existing_file_gets_action_rows() {
    let q = format!("{DIR}/apple.txt");
    let found = Found::Existing { target: target(&q, false, "Text", "4 B", 0), entries: vec![] };
    let rows = rows(Some(found), 9).unwrap();
    assert!(rows[0].title.contains("Open apple.txt"));
    assert!(rows[0].subtitle.contains("4 B"));
    assert_eq!(rows[1].title, "Reveal in Finder");
    assert_eq!(rows[2].title, "Quick Look");
    assert_eq!(rows[3].title, "Copy Path");
    assert_eq!(rows[3].action, PathAction::CopyPath(q));
}

#[test]
fn folder_lists_children_folders_first() {
    let found = Found::Existing {
        target: target(DIR, true, "Folder", "", 5),
        entries: fixture(),
    };
    let all = rows(Some(found), 20).unwrap();
    assert!(all[0].title.contains("in Finder"));
    assert!(all[0].subtitle.contains("items"));
    let titles: Vec<&str> = all.iter().map(|r| r.title.as_str()).collect();
    let alpha = titles.iter().position(|t| t.contains("Alpha")).unwrap();
    let beta = titles.iter().position(|t| t.contains("beta")).unwrap();
    let apple = titles.iter().position(|t| t.contains("apple.txt")).unwrap();
    assert!(alpha < beta && beta < apple, "folders first, by name");
    assert!(!titles.iter().any(|t| t.contains(".hidden")));
}

#[test]
fn partial_leaf_completes_prefix_before_substring() {
    let (parent, leaf) = completion_target(&format!("{DIR}/a")).expect("a parent and a leaf");
    assert_eq!(parent, DIR);
    let found = Found::Missing {
        completion: Some((fixture(), leaf)),
        display: format!("{DIR}/a"),
    };
    let comp = rows(Some(found), 9).unwrap();
    // Prefix band: Alpha (dir) then apple.txt; substring band: beta.
    assert!(comp[0].title.contains("Alpha"));
    assert!(comp[1].title.contains("apple.txt"));
    assert!(comp[2].title.contains("beta"));
    assert!(matches!(comp[0].action, PathAction::Drill(_)));
}

#[test]
fn dead_path_says_so() {
    let found = Found::Missing { completion: None, display: format!("{DIR}/zzz-nope/deeper") };
    let hint = rows(Some(found), 9).unwrap();
    assert_eq!(hint[0].title, "No such path");
    assert_eq!(hint[0].action, PathAction::Nothing);
    // So does a leaf that nothing completes.
    let none = Found::Missing { completion: Some((fixture(), "zzz".to_string())), display: "d".to_string() };
    assert_eq!(rows(Some(none), 9).unwrap()[0].title, "No such path");
}

#[test]
fn rows_are_limited() {
    let t = target(DIR, true, "Folder", "", 1);
    let some = existing_rows(&t, &fixture(), 5);
    assert_eq!(some.len(), 5);
    assert_eq!(some[0].title, "\u{1F4C1} Open beckon-pathnav in Finder");
    assert_eq!(some[0].subtitle, format!("Folder \u{b7} 1 item \u{b7} {DIR}"));
    assert_eq!(some[1].action, PathAction::Reveal(DIR.to_string()));
    assert_eq!(some[2].action, PathAction::QuickLook(DIR.to_string()));
    assert_eq!(some[3].action, PathAction::CopyPath(DIR.to_string()));
    assert_eq!(some[4].title, "\u{1F4C1} Alpha");
    assert_eq!(existing_rows(&t, &vec![], 2).len(), 2);
}

#[test]
fn apps_launch_and_are_not_listed() {
    let t = target("/Applications/Safari.app", true, "Application", "", 3);
    let some = existing_rows(&t, &fixture(), 20);
    assert_eq!(some.len(), 4);
    assert_eq!(some[0].title, "\u{2318} Launch Safari.app");
    assert_eq!(some[0].subtitle, "Application \u{b7} /Applications/Safari.app");
    assert_eq!(some[2].action, PathAction::QuickLook("/Applications/Safari.app".to_string()));
}

#[test]
fn a_dot_asks_for_hidden_entries() {
    let comp = completion_rows(&fixture(), ".h", 9).expect("a completion");
    assert_eq!(comp[0].title, "\u{1F4C4} .hidden");
    assert_eq!(comp[0].subtitle, "File \u{b7} 1 B");
    assert!(completion_rows(&fixture(), "hidden", 9).is_none());
    assert_eq!(list_dir(&fixture(), "", true).len(), 5);
    let titles: Vec<String> =
        list_dir(&fixture(), "", false).into_iter().map(|r| r.title).collect();
    assert_eq!(
        titles,
        vec![
            "\u{1F4C1} Alpha",
            "\u{1F4C1} beta",
            "\u{1F4C4} apple.txt",
            "\u{1F4C4} notes.md",
        ]
    );
    // Entries that do not read are not listed.
    let mut broken = fixture();
    broken[3].is_dir = None;
    assert!(completion_rows(&broken, "apple", 9).is_none());
}

#[test]
fn bands_and_glyphs() {
    assert_eq!(band("alpha", ""), Some(0));
    assert_eq!(band("alpha", "al"), Some(0));
    assert_eq!(band("alpha", "ph"), Some(1));
    assert_eq!(band("alpha", "x"), None);
    assert_eq!(glyph_for("x.app", true), "\u{2318}");
    assert_eq!(glyph_for("x", true), "\u{1F4C1}");
    assert_eq!(glyph_for("x", false), "\u{1F4C4}");
}

#[test]
fn names_and_parents_come_from_the_path() {
    assert_eq!(name_of("/a/b.txt"), "b.txt");
    assert_eq!(name_of("/"), "/");
    assert_eq!(name_of("/a/b/./"), "b");
    assert_eq!(name_of("/a/.."), "/a/..");
    assert_eq!(name_of("."), ".");
    assert_eq!(name_of(""), "");
    assert_eq!(name_of("..a//"), "..a");
    assert_eq!(completion_target("/"), None);
    assert_eq!(completion_target("/x"), Some(("/".to_string(), "x".to_string())));
    assert_eq!(completion_target(""), None);
    assert_eq!(completion_target("x"), Some((String::new(), "x".to_string())));
    assert_eq!(completion_target("../x"), Some(("..".to_string(), "x".to_string())));
    assert_eq!(completion_target("/a/b c/d"), Some(("/a/b c".to_string(), "d".to_string())));
}

#[test]
fn going_into_a_folder_adds_a_slash() {
    assert_eq!(drill_query("/a/b", "~/b", true), "~/b/");
    assert_eq!(drill_query("/a/b.app", "~/b.app", true), "~/b.app");
    assert_eq!(drill_query("/a/b.txt", "~/b.txt", false), "~/b.txt");
}
