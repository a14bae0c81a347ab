//! Script commands.

use beckon_macos::paths::abbreviate_from;
use beckon_macos::router::{Item, ItemKind};
use beckon_macos::scriptcmd::{
    activate, after_collect, after_look, cannot_run, chmod_hint, ensure_dir_with_example, items,
    parse_annotations, read_annotations, run_script, scan_dir, script_keywords, Ann, Collect,
    Found, Look, Mode, Run, ScanCache, Script, Setup, HEADER_BYTES, HELLO_SH, README_MD,
};

const DIR: &str = "/scripts";

fn found(name: &str, body: &str, exec: bool) -> Found {
    Found {
        name: Some(name.to_string()),
        path: format!("{DIR}/{name}"),
        is_file: true,
        mode: if exec { 0o755 } else { 0o644 },
        head: body.as_bytes().to_vec(),
    }
}

fn scan(entries: &Vec<Found>) -> Vec<Script> {
    let mut warned = Vec::new();
    scan_dir(entries, &mut warned).0
}

fn items_in(entries: &Vec<Found>) -> Vec<Item> {
    items(&scan(entries), None)
}

/// The outcome of a script that ended.
fn activate_in(
    entries: &Vec<Found>,
    id: &str,
    success: bool,
    status: &str,
    stdout: &str,
    stderr: &str,
) -> Result<String, String> {
    let script = activate(&scan(entries), id)?;
    run_script(&script, success, status, stdout.as_bytes(), stderr.as_bytes())
}

#[test]
fn golden_hash_annotations() {
    let ann = parse_annotations(
        "#!/bin/sh\n\
         # @beckon.title Deploy Blog\n\
         ##  @beckon.subtitle Push the static site\n\
         # @beckon.mode output\n\
         # @beckon.keyword deploy\n\
         echo hi\n",
    );
    assert_eq!(ann.title.as_deref(), Some("Deploy Blog"));
    assert_eq!(ann.subtitle.as_deref(), Some("Push the static site"));
    assert_eq!(ann.mode, Some(Mode::Output));
    assert_eq!(ann.keyword.as_deref(), Some("deploy"));
}

#[test]
fn golden_slash_annotations() {
    let ann = parse_annotations(
        "#!/usr/bin/env node\n\
         // @beckon.title Node Task\n\
         /// @beckon.subtitle Triple slash tolerated\n\
         //@beckon.mode output\n\
         // @beckon.keyword node\n",
    );
    assert_eq!(ann.title.as_deref(), Some("Node Task"));
    assert_eq!(ann.subtitle.as_deref(), Some("Triple slash tolerated"));
    assert_eq!(ann.mode, Some(Mode::Output));
    assert_eq!(ann.keyword.as_deref(), Some("node"));
}

#[test]
fn golden_dash_annotations() {
    let ann = parse_annotations(
        "-- @beckon.title Lua Task\n\
         --- @beckon.subtitle SQL and Haskell style\n\
         -- @beckon.mode silent\n\
         --   @beckon.keyword lua\n",
    );
    assert_eq!(ann.title.as_deref(), Some("Lua Task"));
    assert_eq!(ann.subtitle.as_deref(), Some("SQL and Haskell style"));
    assert_eq!(ann.mode, Some(Mode::Silent));
    assert_eq!(ann.keyword.as_deref(), Some("lua"));
}

#[test]
fn annotations_default_when_missing() {
    let ann = parse_annotations("#!/bin/sh\n# @beckon.title Only Title\necho x\n");
    assert_eq!(ann.title.as_deref(), Some("Only Title"));
    assert_eq!(ann.subtitle, None);
    assert_eq!(ann.mode, None);
    assert_eq!(ann.keyword, None);
    // A completely unannotated header parses to all-absent.
    assert_eq!(parse_annotations("#!/bin/sh\necho x\n"), Ann::default());
}

#[test]
fn annotations_stop_after_line_30() {
    // Title on line 30 is inside the window; keyword on 31 is not.
    let mut text = String::new();
    for _ in 0..29 {
        text.push_str("# filler\n");
    }
    text.push_str("# @beckon.title Edge Of Window\n");
    text.push_str("# @beckon.keyword too-late\n");
    let ann = parse_annotations(&text);
    assert_eq!(ann.title.as_deref(), Some("Edge Of Window"));
    assert_eq!(ann.keyword, None);
}

#[test]
fn first_valid_occurrence_wins_and_unknown_mode_is_ignored() {
    let ann = parse_annotations(
        "# @beckon.title First\n\
         # @beckon.title Second\n\
         # @beckon.mode loud\n\
         # @beckon.mode output\n\
         # @beckon.volume 11\n",
    );
    assert_eq!(ann.title.as_deref(), Some("First"));
    // "loud" is not a mode, so the later valid value lands.
    assert_eq!(ann.mode, Some(Mode::Output));
}

#[test]
fn annotation_without_value_is_ignored() {
    let ann = parse_annotations("# @beckon.title\n# @beckon.subtitle   \n");
    assert_eq!(ann, Ann::default());
}

#[test]
fn headers_that_are_no_text_are_read_as_far_as_they_are() {
    let mut head = b"# @beckon.title Caf".to_vec();
    head.push(0xe9);
    head.extend_from_slice(b"\n# @beckon.keyword k\n");
    let ann = read_annotations(&head);
    assert_eq!(ann.title.as_deref(), Some("Caf\u{fffd}"));
    assert_eq!(ann.keyword.as_deref(), Some("k"));
}

#[test]
fn headers_are_read_up_to_their_size() {
    let mut head = vec![b' '; HEADER_BYTES as usize - 18];
    head.extend_from_slice(b"\n# @beckon.title Ab");
    // The last letter lies past the limit.
    assert_eq!(read_annotations(&head).title.as_deref(), Some("A"));
}

#[test]
fn filename_stem_titles_unannotated_scripts() {
    let dir = vec![
        found("backup.sh", "#!/bin/sh\necho x\n", true),
        found("noext", "#!/bin/sh\necho x\n", true),
    ];
    let scripts = scan(&dir);
    let titles: Vec<&str> = scripts.iter().map(|s| s.title.as_str()).collect();
    assert_eq!(titles, vec!["backup", "noext"]);
    // Unannotated scripts default to silent mode.
    assert!(scripts.iter().all(|s| s.mode == Mode::Silent));
}

#[test]
fn discovery_skips_hidden_and_warns_non_executable_once() {
    let subdir = Found { is_file: false, ..found("subdir", "", true) };
    let dir = vec![
        found("run.sh", "#!/bin/sh\necho x\n", true),
        found(".hidden.sh", "#!/bin/sh\necho x\n", true),
        found("forgot-chmod.sh", "#!/bin/sh\necho x\n", false),
        subdir,
    ];
    let plain = format!("{DIR}/forgot-chmod.sh");
    let mut warned = Vec::new();
    let (scripts, hints) = scan_dir(&dir, &mut warned);
    let names: Vec<&str> = scripts.iter().map(|s| s.file_name.as_str()).collect();
    assert_eq!(names, vec!["run.sh"]);
    assert!(warned.contains(&plain));
    assert_eq!(hints, vec![plain.clone()]);
    // Scanning again does not grow the warned set: hint fires once.
    let (_, again) = scan_dir(&dir, &mut warned);
    assert_eq!(warned.len(), 1);
    assert!(again.is_empty());
    assert_eq!(
        chmod_hint(&plain),
        "beckon: scripts: /scripts/forgot-chmod.sh is not executable; run chmod +x to enable it"
    );
}

#[test]
fn discovery_skips_docs_without_warning() {
    let dir = vec![found("README.md", "# docs\n", false), found("notes.txt", "notes\n", false)];
    let mut warned = Vec::new();
    let (scripts, _) = scan_dir(&dir, &mut warned);
    assert!(scripts.is_empty());
    assert!(warned.is_empty(), "docs must not trigger the chmod hint");
}

#[test]
fn items_are_sorted_and_shaped() {
    let dir = vec![
        found(
            "zeta.sh",
            "#!/bin/sh\n# @beckon.title Alpha Task\n# @beckon.mode output\necho x\n",
            true,
        ),
        found("beta.sh", "#!/bin/sh\necho x\n", true),
    ];
    let items = items_in(&dir);
    // Ordered by title, not file name: "Alpha Task" before "beta".
    let ids: Vec<&str> = items.iter().map(|i| i.id.as_str()).collect();
    assert_eq!(ids, vec!["script.zeta.sh", "script.beta.sh"]);
    for item in &items {
        assert_eq!(item.kind, ItemKind::Script);
        assert!(item.id.starts_with("script."), "bad id: {}", item.id);
        assert!(!item.title.is_empty());
        assert!(!item.subtitle.contains('\n'));
    }
    // Subtitle is the path plus the mode.
    assert!(items[0].subtitle.contains("zeta.sh"));
    assert!(items[0].subtitle.ends_with("(output)"));
    assert!(items[1].subtitle.ends_with("(silent)"));
}

#[test]
fn items_are_deterministic() {
    let dir = vec![
        found("a.sh", "#!/bin/sh\necho x\n", true),
        found("b.sh", "#!/bin/sh\n# @beckon.title Bee\necho x\n", true),
    ];
    assert_eq!(items_in(&dir), items_in(&dir));
    // A missing directory is simply empty, not an error.
    assert!(items_in(&vec![]).is_empty());
}

#[test]
fn id_round_trips_from_items_to_activate() {
    let dir = vec![found(
        "greet.sh",
        "#!/bin/sh\n# @beckon.title Greet\n# @beckon.mode output\necho hi there\n",
        true,
    )];
    let items = items_in(&dir);
    assert_eq!(items.len(), 1);
    let result = activate_in(&dir, &items[0].id, true, "exit status: 0", "hi there\n", "");
    assert_eq!(result, Ok("hi there".to_string()));
}

#[test]
fn activate_output_mode_captures_trimmed_stdout() {
    let dir = vec![found(
        "out.sh",
        "#!/bin/sh\n# @beckon.mode output\necho '  padded  '\necho\n",
        true,
    )];
    let result =
        activate_in(&dir, "script.out.sh", true, "exit status: 0", "  padded  \n\n", "");
    assert_eq!(result, Ok("padded".to_string()));
}

#[test]
fn activate_silent_mode_returns_empty_string() {
    let dir = vec![found("quiet.sh", "#!/bin/sh\necho ignored stdout\n", true)];
    let result =
        activate_in(&dir, "script.quiet.sh", true, "exit status: 0", "ignored stdout\n", "");
    assert_eq!(result, Ok(String::new()));
}

#[test]
fn activate_nonzero_exit_surfaces_stderr() {
    let dir = vec![
        found("boom.sh", "#!/bin/sh\necho 'boom happened' >&2\nexit 3\n", true),
        found("mute-fail.sh", "#!/bin/sh\nexit 7\n", true),
    ];
    let err = activate_in(&dir, "script.boom.sh", false, "exit status: 3", "", "boom happened\n")
        .unwrap_err();
    assert!(err.contains("boom happened"), "{err}");
    assert!(err.contains("boom.sh"), "{err}");
    // Nonzero exit with silent stderr still names the status.
    let err =
        activate_in(&dir, "script.mute-fail.sh", false, "exit status: 7", "", "").unwrap_err();
    assert_eq!(err, "mute-fail.sh failed with exit status: 7");
}

#[test]
fn activate_unknown_and_malformed_ids_err() {
    let dir = vec![found("real.sh", "#!/bin/sh\ntrue\n", true)];
    let scripts = scan(&dir);
    assert_eq!(activate(&scripts, "script.fake.sh").unwrap_err(), "unknown script: fake.sh");
    assert_eq!(activate(&scripts, "system.sleep").unwrap_err(), "not a script id: system.sleep");
    assert!(activate(&scripts, "").is_err());
    assert_eq!(
        activate(&scripts, "script.../real.sh").unwrap_err(),
        "invalid script id: script.../real.sh"
    );
}

#[test]
fn activate_timeout_kills_sleeper_fast() {
    match after_look("sleeper.sh", Look::Running, true, 250) {
        Run::Kill(err) => {
            assert!(err.contains("timed out"), "{err}");
            assert_eq!(err, "sleeper.sh timed out after 250 ms and was killed");
        }
        other => panic!("{other:?}"),
    }
    assert_eq!(after_look("sleeper.sh", Look::Running, false, 250), Run::Sleep);
    assert_eq!(after_look("sleeper.sh", Look::Exited, true, 250), Run::Collect);
    assert_eq!(
        after_look("s", Look::Failed("e".to_string()), false, 250),
        Run::Kill("wait failed for s: e".to_string())
    );
    assert_eq!(after_collect("s", true, true), Collect::Take);
    assert_eq!(after_collect("s", false, false), Collect::Sleep);
    assert!(matches!(after_collect("s", false, true), Collect::Abandon(e) if e.starts_with("s exited")));
    assert_eq!(cannot_run("/x", "e"), "cannot run /x: e");
}

#[test]
fn cache_rescans_only_when_dir_mtime_changes() {
    let one = vec![found("a.sh", "#!/bin/sh\n# @beckon.title Version One\ntrue\n", true)];
    let mut cache = ScanCache::new();
    assert!(cache.is_stale(DIR, Some(1)));
    cache.refresh(DIR, Some(1), &one);
    assert_eq!(cache.scripts()[0].title, "Version One");
    // Rewriting the file leaves the directory's time alone, so the cache (by
    // design) stays stale.
    let mut two = vec![found("a.sh", "#!/bin/sh\n# @beckon.title Version Two\ntrue\n", true)];
    assert!(!cache.is_stale(DIR, Some(1)));
    cache.refresh(DIR, Some(1), &two);
    assert_eq!(cache.scripts()[0].title, "Version One");
    // Adding a file touches the directory: full re-scan, and the rewritten
    // annotation is picked up too.
    two.push(found("b.sh", "#!/bin/sh\ntrue\n", true));
    cache.refresh(DIR, Some(2), &two);
    let scripts: Vec<String> = cache.scripts().iter().map(|s| s.title.clone()).collect();
    assert_eq!(scripts, vec!["Version Two".to_string(), "b".to_string()]);
    // Another directory is another scan.
    assert!(cache.is_stale("/elsewhere", Some(2)));
}

#[test]
fn ensure_dir_with_example_bootstraps_once() {
    let steps = ensure_dir_with_example("/root/scripts", false);
    assert_eq!(
        steps,
        vec![
            Setup::CreateDir("/root/scripts".to_string()),
            Setup::Write {
                path: "/root/scripts/README.md".to_string(),
                contents: README_MD.to_string()
            },
            Setup::Write {
                path: "/root/scripts/hello.sh".to_string(),
                contents: HELLO_SH.to_string()
            },
            Setup::SetMode { path: "/root/scripts/hello.sh".to_string(), mode: 0o755 },
        ]
    );
    // The example is discovered with its annotations.
    let dir = vec![found("README.md", README_MD, false), found("hello.sh", HELLO_SH, true)];
    let mut warned = Vec::new();
    let (scripts, _) = scan_dir(&dir, &mut warned);
    assert_eq!(scripts.len(), 1);
    assert_eq!(scripts[0].title, "Hello from beckon");
    assert_eq!(scripts[0].mode, Mode::Output);
    assert!(warned.is_empty(), "the README must not trigger the hint");
    // A second call never overwrites: user edits stick.
    assert!(ensure_dir_with_example("/root/scripts", true).is_empty());
}

#[test]
fn abbreviate_replaces_home_prefix() {
    let home = Some("/home/u");
    assert_eq!(abbreviate_from("/home/u/.beckon/scripts/x.sh", home), "~/.beckon/scripts/x.sh");
    assert_eq!(abbreviate_from("/home/u", home), "~");
    assert_eq!(abbreviate_from("/etc/x.sh", home), "/etc/x.sh");
    assert_eq!(abbreviate_from("/etc/x.sh", None), "/etc/x.sh");
    assert_eq!(abbreviate_from("/etc/x.sh", Some("")), "/etc/x.sh");
}

#[test]
fn keywords_stand_for_scripts() {
    let dir = vec![
        found("a.sh", "# @beckon.keyword k\n", true),
        found("b.sh", "# @beckon.keyword k\n", true),
        found("c.sh", "", true),
    ];
    let table = script_keywords(&scan(&dir));
    assert_eq!(table.get("k").map(|s| s.as_str()), Some("script.b.sh"));
    assert!(!table.contains_key("c"));
}
