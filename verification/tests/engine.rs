//! Queries, activation and what follows from it.

use beckon_macos::engine::{
    after_clip, after_command, after_copy, after_drill, after_expand, after_file, after_focus,
    after_launch, after_menu, after_open, after_paste, after_plugin, after_quick_look,
    after_reveal, after_script, after_tour, alias_outcome, chord_label, entry_for, fallback_entropy, follow, hotkey_chord, quicklink_query, AfterCopy, AliasOutcome,
    Answer, Config, Effect, EmojiHit, Engine, Entry, Expansion, Failure, HotkeyConfig, Intent,
    LinkHit, Outcome, Request, SnippetHit, Source, TextAnswer, TourMove, Trigger, Work,
};
use beckon_macos::pathnav::{drill_query, DirEntry, Found, PathAction, Target};
use beckon_macos::plugins::PluginAction;
use beckon_macos::router::{Item, ItemKind};
use beckon_macos::table::Table;
use beckon_macos::ui::RowData;
use beckon_macos::walkthrough::{step_rows, steps, Tour, OFFER_SUBTITLE, OFFER_TITLE};

fn map(pairs: &[(&str, &str)]) -> Table {
    let mut t = Table::new();
    for (k, v) in pairs {
        t = t.insert(k, v);
    }
    t
}

fn hotkey(key: &str, modifiers: &[&str]) -> HotkeyConfig {
    HotkeyConfig {
        key: key.to_string(),
        modifiers: modifiers.iter().map(|m| m.to_string()).collect(),
    }
}

fn app(title: &str) -> Item {
    Item::new(&format!("app.{title}"), title, &format!("/Applications/{title}.app"), ItemKind::App)
}

fn command(id: &str) -> Item {
    Item::new(id, "Command", "does it", ItemKind::SystemCommand)
}

fn script(name: &str) -> Item {
    Item::new(&format!("script.{name}"), name, "~/x (silent)", ItemKind::Script)
}

fn engine() -> Engine {
    let config = Config {
        aliases: map(&[("lh", "window.left-half"), ("v", "clip"), ("old", "gone.item"), ("vv", "v x")]),
        triggers: map(&[("clip", "clip"), ("w", "win"), ("demo", "file"), ("odd", "nothing")]),
        max_results: 2,
        hotkey: hotkey("space", &["opt"]),
    };
    Engine::new(
        config,
        vec![app("Safari"), app("Mail")],
        vec![command("system.sleep")],
        vec![command("window.left-half")],
        vec![command("onboarding.accessibility")],
        vec![script("a.sh")],
        map(&[("hi", "script.a.sh")]),
        map(&[("demo", "demo"), ("tell", "teller")]),
        true,
    )
}

#[test]
fn alias_to_id_surfaces_the_item_and_ignores_the_rest() {
    let aliases = map(&[("lh", "window.left-half")]);
    let none = Table::new();
    assert_eq!(
        alias_outcome(&aliases, &none, "lh"),
        AliasOutcome::Item("window.left-half".to_string())
    );
    // The rest of the query is ignored: the alias names one command.
    assert_eq!(
        alias_outcome(&aliases, &none, "lh whatever else"),
        AliasOutcome::Item("window.left-half".to_string())
    );
}

#[test]
fn alias_to_text_rewrites_the_first_token() {
    let aliases = map(&[("v", "clip"), ("g", "go google")]);
    let none = Table::new();
    assert_eq!(
        alias_outcome(&aliases, &none, "v"),
        AliasOutcome::Rewrite("clip".to_string())
    );
    assert_eq!(
        alias_outcome(&aliases, &none, "v search text"),
        AliasOutcome::Rewrite("clip search text".to_string())
    );
    // Multi-word targets keep the rest appended.
    assert_eq!(
        alias_outcome(&aliases, &none, "g rust"),
        AliasOutcome::Rewrite("go google rust".to_string())
    );
}

#[test]
fn alias_misses_are_exact_and_first_token_only() {
    let aliases = map(&[("lh", "window.left-half")]);
    let none = Table::new();
    // Case-sensitive, whole-token, first-token-only, empty query.
    assert_eq!(alias_outcome(&aliases, &none, "LH"), AliasOutcome::Miss);
    assert_eq!(alias_outcome(&aliases, &none, "lhx"), AliasOutcome::Miss);
    assert_eq!(alias_outcome(&aliases, &none, "x lh"), AliasOutcome::Miss);
    assert_eq!(alias_outcome(&aliases, &none, ""), AliasOutcome::Miss);
    assert_eq!(alias_outcome(&aliases, &none, "   "), AliasOutcome::Miss);
}

#[test]
fn script_keywords_act_as_aliases_and_config_aliases_win() {
    let aliases = map(&[("deploy", "system.lock")]);
    let keywords = map(&[("deploy", "script.deploy.sh"), ("hi", "script.hello.sh")]);
    // The config alias shadows the script keyword.
    assert_eq!(
        alias_outcome(&aliases, &keywords, "deploy"),
        AliasOutcome::Item("system.lock".to_string())
    );
    // An unshadowed keyword resolves to its script id.
    assert_eq!(
        alias_outcome(&aliases, &keywords, "hi"),
        AliasOutcome::Item("script.hello.sh".to_string())
    );
}

#[test]
fn chord_labels_read_like_the_startup_log() {
    assert_eq!(chord_label(&hotkey("space", &["opt"])), "Option+Space");
    assert_eq!(chord_label(&hotkey("k", &["cmd", "shift"])), "Cmd+Shift+K");
    assert_eq!(chord_label(&hotkey("f12", &["ctrl"])), "Ctrl+F12");
}

#[test]
fn chords_fall_back_to_option_space() {
    let hk = hotkey("k", &["cmd"]);
    assert_eq!(hotkey_chord(&hk, Some(40)), (40, 0x0100, "Cmd+K".to_string()));
    assert_eq!(hotkey_chord(&hk, None), (49, 0x0100, "Cmd+K".to_string()));
    let bare = hotkey("k", &["hyper"]);
    assert_eq!(hotkey_chord(&bare, Some(40)), (40, 0x0800, "hyper+K".to_string()));
}

#[test]
fn configured_chords_are_registered_and_named() {
    let hk = hotkey("space", &["cmd", "shift"]);
    assert_eq!(hotkey_chord(&hk, Some(49)), (49, 0x0300, "Cmd+Shift+Space".to_string()));
    let all = hotkey("f1", &["ctrl", "opt", "shift", "cmd", "cmd"]);
    assert_eq!(hotkey_chord(&all, Some(122)).1, 0x1B00);
}

/// What a query that is not shaped like a path asks for.
fn asked(e: &mut Engine, raw: &str) -> Request {
    match e.refresh_results(raw) {
        Answer::Pipeline(q) => e.pipeline_rows(&q, None),
        Answer::Rows(rows) => panic!("rows: {rows:?}"),
    }
}

#[test]
fn an_alias_for_an_item_shows_that_item() {
    let mut e = engine();
    match e.refresh_results("  lh and more ") {
        Answer::Rows(rows) => assert_eq!(rows, vec![RowData::new("Command", "does it")]),
        Answer::Pipeline(q) => panic!("{q:?}"),
    }
    assert_eq!(e.results, vec![Entry::Command { id: "window.left-half".to_string() }]);
    assert_eq!(
        e.handle_activate(0),
        Some(Work::WindowAction { id: "window.left-half".to_string() })
    );
    assert_eq!(e.handle_activate(1), None);
    match e.refresh_results("hi") {
        Answer::Rows(rows) => assert_eq!(rows[0].title, "a.sh"),
        Answer::Pipeline(q) => panic!("{q:?}"),
    }
}

#[test]
fn triggers_and_rewrites_lead_to_their_source() {
    let mut e = engine();
    assert!(matches!(
        asked(&mut e, "v invoice two"),
        Request::Source { source: Source::Clip, query } if query == "invoice two"
    ));
    // Keywords of the table count in any case.
    assert!(matches!(
        asked(&mut e, "W foo"),
        Request::Source { source: Source::Win, query } if query == "foo"
    ));
    // The table comes before the plugins.
    assert!(matches!(
        asked(&mut e, "demo x"),
        Request::Source { source: Source::File, query } if query == "x"
    ));
    assert!(matches!(
        asked(&mut e, "tell me"),
        Request::Plugin { keyword, query } if keyword == "tell" && query == "me"
    ));
    // An alias is applied once: what it rewrites to is no alias again.
    assert!(matches!(
        asked(&mut e, "vv"),
        Request::Text { query } if query == "v x"
    ));
    // A stale alias, and a keyword without a source, are free text.
    assert!(matches!(
        asked(&mut e, "old thing"),
        Request::Text { query } if query == "old thing"
    ));
    assert!(matches!(
        asked(&mut e, "odd thing"),
        Request::Text { query } if query == "odd thing"
    ));
}

#[test]
fn queries_shaped_like_paths_ask_for_what_is_there() {
    let mut e = engine();
    let q = match e.refresh_results("  ~/Downloads ") {
        Answer::Pipeline(q) => q,
        Answer::Rows(rows) => panic!("rows: {rows:?}"),
    };
    assert_eq!(q, "~/Downloads");
    assert!(matches!(
        e.pipeline_rows(&q, Some("/Users/u/Downloads".to_string())),
        Request::Path { path } if path == "/Users/u/Downloads"
    ));
    // A trigger keyword does not take a path over.
    assert!(matches!(
        e.pipeline_rows("clip /x", Some("/x".to_string())),
        Request::Path { path } if path == "/x"
    ));
    assert!(matches!(
        e.pipeline_rows("clip /x", None),
        Request::Source { source: Source::Clip, query } if query == "/x"
    ));
}

fn folder(path: &str) -> Target {
    Target {
        path: path.to_string(),
        is_dir: true,
        kind: "Folder".to_string(),
        size: "0 B".to_string(),
        items: 1,
        display: "~/geist".to_string(),
    }
}

#[test]
fn path_rows_open_reveal_preview_copy_and_drill() {
    let mut e = engine();
    e.config.max_results = 9;
    let path = || "/Users/u/geist".to_string();
    let child = DirEntry {
        name: "src".to_string(),
        path: "/Users/u/geist/src".to_string(),
        is_dir: Some(true),
        kind: "Folder".to_string(),
        size: String::new(),
    };
    let rows = e.path_rows(Found::Existing { target: folder(&path()), entries: vec![child] });
    let titles: Vec<&str> = rows.iter().map(|r| r.title.as_str()).collect();
    assert_eq!(
        titles,
        vec![
            "\u{1F4C1} Open geist in Finder",
            "Reveal in Finder",
            "Quick Look",
            "Copy Path",
            "\u{1F4C1} src",
        ]
    );
    assert_eq!(rows[3].subtitle, path());
    let drill = Work::Drill { path: "/Users/u/geist/src".to_string() };
    let works = [
        Work::OpenPath { path: path() },
        Work::Reveal { path: path() },
        Work::QuickLook { path: path() },
        Work::Copy { text: path(), next: AfterCopy::Hide },
        drill,
    ];
    for (i, work) in works.into_iter().enumerate() {
        assert_eq!(e.handle_activate(i), Some(work));
    }
    // No more rows than the config shows.
    e.config.max_results = 2;
    let rows = e.path_rows(Found::Existing { target: folder(&path()), entries: vec![] });
    assert_eq!(rows.len(), 2);
    // Return on a hint does nothing.
    let rows = e.path_rows(Found::Missing { completion: None, display: "~/no".to_string() });
    assert_eq!(rows, vec![RowData::new("No such path", "~/no")]);
    assert_eq!(e.results, vec![Entry::Path { action: PathAction::Nothing }]);
    assert_eq!(e.handle_activate(0), None);
}

#[test]
fn work_on_paths_is_followed() {
    let path = || "/p".to_string();
    let open = || Work::OpenPath { path: path() };
    assert_eq!(follow(open(), Outcome::Opened(true), true), (vec![Effect::Dismiss], None));
    assert_eq!(
        follow(open(), Outcome::Opened(false), true),
        (vec![Effect::Report(Failure::Url(path()))], None)
    );
    let reveal = || Work::Reveal { path: path() };
    assert_eq!(follow(reveal(), Outcome::Opened(true), true).0, after_reveal(path(), true));
    assert_eq!(after_reveal(path(), true), vec![Effect::Dismiss]);
    assert_eq!(
        follow(reveal(), Outcome::Opened(false), true),
        (vec![Effect::Report(Failure::Reveal(path()))], None)
    );
    let look = || Work::QuickLook { path: path() };
    assert_eq!(follow(look(), Outcome::Ran(Ok(())), true), (vec![Effect::Dismiss], None));
    assert_eq!(
        follow(look(), Outcome::Ran(Err("no".to_string())), true).0,
        after_quick_look(Err("no".to_string()))
    );
    // Browsing on leaves the panel up.
    let query = drill_query("/Users/u/geist", "~/geist", true);
    assert_eq!(query, "~/geist/");
    assert_eq!(
        follow(Work::Drill { path: "/Users/u/geist".to_string() }, Outcome::Drilled(query), true),
        (after_drill("~/geist/".to_string()), None)
    );
    assert_eq!(after_drill("q".to_string()), vec![Effect::SetQuery("q".to_string())]);
}

#[test]
fn free_text_is_a_transform_a_result_or_a_search() {
    let mut e = engine();
    let calc = || Intent::Calc { expr: "2+2".to_string(), value: Some("4".to_string()) };
    match e.text_rows(" 2+2 ", None, calc()) {
        TextAnswer::Rows(rows) => {
            assert_eq!(rows, vec![RowData::new("4", "2+2 (press Return to copy)")])
        }
        TextAnswer::Search(q) => panic!("{q}"),
    }
    assert_eq!(
        e.handle_activate(0),
        Some(Work::Copy { text: "4".to_string(), next: AfterCopy::Hide })
    );
    match e.text_rows(" uuid ", Some("x-y".to_string()), calc()) {
        TextAnswer::Rows(rows) => {
            assert_eq!(rows, vec![RowData::new("x-y", "uuid (press Return to copy)")])
        }
        TextAnswer::Search(q) => panic!("{q}"),
    }
    let broken = Intent::Calc { expr: "2+".to_string(), value: None };
    assert!(matches!(e.text_rows("2+", None, broken), TextAnswer::Search(q) if q == "2+"));
    assert!(matches!(e.text_rows("", None, Intent::Empty), TextAnswer::Search(q) if q.is_empty()));
}

#[test]
fn rows_and_entries_go_together() {
    let mut e = engine();
    assert_eq!(e.pool().len(), 6);
    let pool = e.pool();
    let rows = e.search_rows("a", &pool);
    assert_eq!(rows.len(), 2, "as many as the config shows");
    assert_eq!(rows[0], RowData::new("Safari", "/Applications/Safari.app"));
    assert_eq!(
        e.results,
        vec![
            Entry::App { id: "app.Safari".to_string(), path: "/Applications/Safari.app".to_string() },
            Entry::App { id: "app.Mail".to_string(), path: "/Applications/Mail.app".to_string() },
        ]
    );
    let items = vec![command("menu.1.2")];
    assert_eq!(e.trigger_rows(&items, Trigger::Menu).len(), 1);
    assert_eq!(e.results, vec![Entry::Menu { id: "menu.1.2".to_string() }]);
    assert_eq!(entry_for(&script("b")), Entry::Script { id: "script.b".to_string() });
}

#[test]
fn the_empty_panel_offers_the_tour_until_it_was_taken() {
    let mut e = engine();
    let pool = e.pool();
    let offer = RowData::new(OFFER_TITLE, OFFER_SUBTITLE);
    // Taken already: the ranked items alone.
    assert_eq!(e.search_rows("", &pool)[0].title, "Safari");
    e.tour = Tour::new(false);
    assert!(matches!(asked(&mut e, "  "), Request::Text { query } if query.is_empty()));
    let rows = e.search_rows("", &pool);
    assert_eq!(rows.len(), 2, "as many as the config shows");
    assert_eq!(rows[0], offer);
    assert_eq!(rows[1].title, "Safari");
    assert_eq!(e.results[0], Entry::Tour);
    assert_eq!(e.handle_activate(0), Some(Work::Tour));
    assert_eq!(e.search_rows("", &vec![]), vec![offer]);
    // Any other query goes without the offer.
    assert_eq!(e.search_rows("saf", &pool)[0].title, "Safari");
}

#[test]
fn the_word_always_offers_the_tour() {
    for done in [false, true] {
        let mut e = engine();
        e.tour = Tour::new(done);
        // Not even an alias of that name takes it over.
        e.config.aliases = map(&[("walkthrough", "clip")]);
        match e.refresh_results(" walkthrough ") {
            Answer::Rows(rows) => {
                assert_eq!(rows, vec![RowData::new(OFFER_TITLE, OFFER_SUBTITLE)])
            }
            Answer::Pipeline(q) => panic!("{q:?}"),
        }
        assert_eq!(e.handle_activate(0), Some(Work::Tour));
        // Part of it, or more than it, is an ordinary query.
        assert!(matches!(e.refresh_results("walk"), Answer::Pipeline(_)));
        assert!(matches!(
            e.refresh_results("walkthrough now"),
            Answer::Pipeline(q) if q == "clip now"
        ));
    }
}

#[test]
fn return_leads_through_the_tour_and_typing_leaves_it() {
    let mut e = engine();
    e.tour = Tour::new(false);
    let n = steps().len();
    for i in 0..n {
        let rows = match e.go_on_tour() {
            TourMove::Step(rows) => rows,
            TourMove::Finished => panic!("finished before step {i}"),
        };
        assert_eq!(e.tour, Tour { done: false, step: Some(i) });
        let shown = step_rows(i).unwrap();
        assert_eq!(rows.len(), shown.len());
        for (row, (title, subtitle, _)) in rows.iter().zip(&shown) {
            assert_eq!(*row, RowData::new(title, subtitle));
        }
        assert_eq!(e.handle_activate(0), Some(Work::Tour));
        for k in 1..rows.len() {
            assert_eq!(e.results[k], Entry::Hint);
            assert_eq!(e.handle_activate(k), None);
        }
        assert_eq!(
            follow(Work::Tour, Outcome::Toured(TourMove::Step(rows.clone())), true),
            (vec![Effect::ShowRows(rows)], None)
        );
    }
    // Typing leaves the tour, and it begins anew from the offer.
    assert_eq!(asked_text(&mut e, "x"), "x");
    assert_eq!(e.tour, Tour { done: false, step: None });
    for _ in 0..n {
        assert!(matches!(e.go_on_tour(), TourMove::Step(_)));
    }
    // Return on the last step finishes it.
    assert_eq!(e.go_on_tour(), TourMove::Finished);
    assert_eq!(e.tour, Tour { done: true, step: None });
    assert!(e.results.is_empty());
    assert_eq!(
        follow(Work::Tour, Outcome::Toured(TourMove::Finished), true),
        (after_tour(TourMove::Finished), None)
    );
    assert_eq!(
        after_tour(TourMove::Finished),
        vec![Effect::MarkTourDone, Effect::ClearQuery]
    );
    let pool = e.pool();
    assert_eq!(e.search_rows("", &pool)[0].title, "Safari");
}

fn asked_text(e: &mut Engine, raw: &str) -> String {
    match asked(e, raw) {
        Request::Text { query } => query,
        other => panic!("{other:?}"),
    }
}

#[test]
fn file_rows_say_that_the_index_is_building() {
    let mut e = engine();
    let rows = e.file_rows(&vec![], "report", false);
    assert_eq!(
        rows,
        vec![RowData::new("Indexing files...", "results appear as the walk finishes")]
    );
    assert_eq!(e.handle_activate(0), None);
    assert!(e.file_rows(&vec![], "report", true).is_empty());
    assert!(e.file_rows(&vec![], "", false).is_empty());
}

#[test]
fn hits_become_rows() {
    let mut e = engine();
    let fire = EmojiHit {
        glyph: "\u{1F525}".to_string(),
        name: "fire".to_string(),
        keywords: "hot flame".to_string(),
    };
    assert_eq!(e.emoji_rows(&vec![fire]), vec![RowData::new("\u{1F525} fire", "hot flame")]);
    assert_eq!(
        e.handle_activate(0),
        Some(Work::Copy { text: "\u{1F525}".to_string(), next: AfterCopy::Paste })
    );
    let body = "x".repeat(50);
    let hit = SnippetHit { id: 7, name: "Sig".to_string(), keyword: "sig".to_string(), body };
    let rows = e.snippet_rows(&vec![hit.clone(), hit.clone(), hit]);
    assert_eq!(rows.len(), 2);
    assert_eq!(rows[0].subtitle, format!("sig \u{b7} {}", "x".repeat(40)));
    assert_eq!(e.handle_activate(1), Some(Work::Expand { id: 7 }));
    let link = LinkHit { id: 3, name: "Google".to_string(), url: "https://x".to_string() };
    assert_eq!(e.quicklink_rows(&vec![link]), vec![RowData::new("Google", "https://x")]);
    assert_eq!(
        e.handle_activate(0),
        Some(Work::Open { url: "https://x".to_string(), link: Some(3) })
    );
    assert_eq!(quicklink_query("google rust book"), ("google".to_string(), "rust book".to_string()));
}

#[test]
fn commands_go_to_their_source() {
    let mut e = engine();
    for (id, work) in [
        ("system.sleep", Work::System { id: "system.sleep".to_string() }),
        ("window.left-half", Work::WindowAction { id: "window.left-half".to_string() }),
        ("onboarding.accessibility", Work::Setup { id: "onboarding.accessibility".to_string() }),
    ] {
        assert!(e.alias_item_rows(id).is_some());
        assert_eq!(e.handle_activate(0), Some(work));
    }
    assert!(e.alias_item_rows("no.such").is_none());
}

#[test]
fn summoning_takes_over_fresh_snapshots() {
    let mut e = engine();
    e.summon(vec![app("New")], vec![], Table::new());
    assert_eq!(e.pool()[0].title, "New");
    assert!(matches!(asked(&mut e, "hi"), Request::Text { .. }));
}

#[test]
fn success_hides_the_panel_and_failure_reports() {
    let id = || "x".to_string();
    let err = || Err("no".to_string());
    assert_eq!(after_launch(id(), Ok(())), vec![Effect::RecordUse(id()), Effect::Dismiss]);
    assert_eq!(
        after_launch(id(), err()),
        vec![Effect::Report(Failure::Launch("no".to_string()))]
    );
    assert_eq!(
        after_copy(AfterCopy::Paste, true),
        vec![Effect::NoteOwnWrite, Effect::Dismiss, Effect::Paste]
    );
    assert_eq!(after_copy(AfterCopy::Hide, false), vec![Effect::Report(Failure::Pasteboard)]);
    assert_eq!(
        after_copy(AfterCopy::Record { id: id() }, true),
        vec![Effect::NoteOwnWrite, Effect::RecordUse(id()), Effect::Dismiss]
    );
    assert_eq!(
        after_command("window.center".to_string(), err(), false),
        vec![
            Effect::Report(Failure::Command {
                id: "window.center".to_string(),
                error: "no".to_string()
            }),
            Effect::OfferTrust
        ]
    );
    let failed = |id: &str| {
        Effect::Report(Failure::Command { id: id.to_string(), error: "no".to_string() })
    };
    assert_eq!(
        after_command("window.center".to_string(), err(), true),
        vec![failed("window.center")]
    );
    assert_eq!(
        after_command("system.sleep".to_string(), err(), false),
        vec![failed("system.sleep")]
    );
    assert_eq!(after_clip(Ok(())), vec![Effect::Dismiss, Effect::Paste]);
    assert_eq!(after_focus(Ok(())), vec![Effect::Dismiss]);
    assert_eq!(after_file(err()), vec![Effect::Report(Failure::File("no".to_string()))]);
    assert_eq!(after_menu(err()), vec![Effect::Report(Failure::Menu("no".to_string()))]);
    assert_eq!(after_paste(Ok(())), vec![]);
    assert_eq!(after_paste(err()), vec![Effect::Report(Failure::Paste("no".to_string()))]);
    assert_eq!(after_open(id(), Some(3), true), vec![Effect::RecordLink(3), Effect::Dismiss]);
    assert_eq!(after_open(id(), None, false), vec![Effect::Report(Failure::Url(id()))]);
}

#[test]
fn outcomes_that_lead_to_more_work() {
    assert_eq!(
        after_expand(4, Expansion::Text("t".to_string())),
        (
            vec![Effect::RecordSnippet(4)],
            Some(Work::Copy { text: "t".to_string(), next: AfterCopy::Paste })
        )
    );
    assert_eq!(
        after_expand(4, Expansion::Gone),
        (vec![Effect::Report(Failure::SnippetGone(4))], None)
    );
    assert_eq!(
        after_expand(4, Expansion::Failed("e".to_string())),
        (vec![Effect::Report(Failure::Expansion("e".to_string()))], None)
    );
    assert_eq!(
        after_script("s".to_string(), Ok("out".to_string())),
        (
            vec![],
            Some(Work::Copy {
                text: "out".to_string(),
                next: AfterCopy::Record { id: "s".to_string() }
            })
        )
    );
    assert_eq!(
        after_script("s".to_string(), Ok(String::new())),
        (vec![Effect::RecordUse("s".to_string()), Effect::Dismiss], None)
    );
    assert_eq!(
        after_plugin(Ok(PluginAction::Open("u".to_string()))),
        (vec![], Some(Work::Open { url: "u".to_string(), link: None }))
    );
    assert_eq!(after_plugin(Ok(PluginAction::Nothing)), (vec![Effect::Dismiss], None));
}

#[test]
fn every_piece_of_work_is_followed_to_its_end() {
    let id = || "x".to_string();
    // A script's output is copied, and then the activation is over.
    let (effects, next) =
        follow(Work::Script { id: id() }, Outcome::Scripted(Ok("out".to_string())), true);
    assert!(effects.is_empty());
    let (effects, next) = follow(next.expect("a copy"), Outcome::Copied(true), true);
    assert_eq!(effects, vec![Effect::NoteOwnWrite, Effect::RecordUse(id()), Effect::Dismiss]);
    assert_eq!(next, None);
    // Failures are reported and leave the panel up.
    let no = || Outcome::Ran(Err("no".to_string()));
    for (work, failure) in [
        (Work::Launch { id: id(), path: id() }, Failure::Launch("no".to_string())),
        (
            Work::System { id: id() },
            Failure::Command { id: id(), error: "no".to_string() },
        ),
        (Work::Clip { id: id() }, Failure::Clip("no".to_string())),
        (Work::Focus { id: id() }, Failure::Focus("no".to_string())),
        (Work::File { id: id() }, Failure::File("no".to_string())),
        (Work::Menu { id: id() }, Failure::Menu("no".to_string())),
    ] {
        assert_eq!(follow(work, no(), true), (vec![Effect::Report(failure)], None));
    }
    // The prompt is offered only where the permission is missing.
    let window = || Work::WindowAction { id: "window.center".to_string() };
    assert_eq!(follow(window(), no(), true).0.len(), 1);
    assert_eq!(follow(window(), no(), false).0[1], Effect::OfferTrust);
    let setup = Work::Setup { id: "onboarding.accessibility".to_string() };
    assert_eq!(follow(setup, Outcome::Ran(Ok(())), false).0[1], Effect::Dismiss);
    let paste = Outcome::Answered(Ok(PluginAction::Paste("t".to_string())));
    assert_eq!(
        follow(Work::Plugin { id: id() }, paste, true).1,
        Some(Work::Copy { text: "t".to_string(), next: AfterCopy::Paste })
    );
    assert_eq!(
        follow(Work::Open { url: id(), link: None }, Outcome::Opened(true), true),
        (vec![Effect::Dismiss], None)
    );
    assert_eq!(
        follow(Work::Expand { id: 1 }, Outcome::Expanded(Expansion::Gone), true),
        (vec![Effect::Report(Failure::SnippetGone(1))], None)
    );
}

#[test]
fn failures_read_as_one_line() {
    let s = || "e".to_string();
    let id = || "i".to_string();
    for (failure, line) in [
        (Failure::Launch(s()), "beckon: launch failed: e"),
        (Failure::Pasteboard, "beckon: pasteboard write failed"),
        (Failure::Command { id: id(), error: s() }, "beckon: command i failed: e"),
        (Failure::Clip(s()), "beckon: clipboard copy failed: e"),
        (Failure::Focus(s()), "beckon: window focus failed: e"),
        (Failure::File(s()), "beckon: open failed: e"),
        (Failure::Menu(s()), "beckon: menu press failed: e"),
        (Failure::SnippetGone(12), "beckon: snippet 12 vanished"),
        (Failure::Expansion(s()), "beckon: snippet expansion failed: e"),
        (Failure::Script { id: id(), error: s() }, "beckon: script i failed: e"),
        (Failure::Url(s()), "beckon: could not open e"),
        (Failure::Plugin(s()), "beckon: plugin activation failed: e"),
        (Failure::Paste(s()), "beckon: paste skipped: e"),
        (Failure::Reveal(s()), "beckon: could not reveal e"),
        (Failure::QuickLook(s()), "beckon: quick look failed: e"),
    ] {
        assert_eq!(failure.line(), line);
    }
}

#[test]
fn entropy_falls_back_to_clock_and_process() {
    let (nanos, pid, now) = (123_456_789u64, 4242u32, 1_700_000_000u64);
    let mix = nanos ^ ((pid as u64) << 32) ^ now;
    let mut want = [0u8; 16];
    want[..8].copy_from_slice(&mix.to_le_bytes());
    want[8..].copy_from_slice(&mix.rotate_left(29).to_le_bytes());
    assert_eq!(fallback_entropy(nanos, pid, now), want);
}
