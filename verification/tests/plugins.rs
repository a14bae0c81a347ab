//! Plugins: names, ids, discovery and the host's decisions.

use beckon_macos::plugins::{
    accept_manifest, bad_result, call, discover, forwarded, make_item_id, query, query_failed, read_line, recv_line,
    sanitize_name, split_plugin_id, strip_controls, AfterFail, Attempt, CallFail, Found, Handshake,
    HostState, KeywordSearch, Manifest, Need, PluginDef, PluginItem, Received, Reply, Wait,
    MAX_LINE_BYTES,
};
use beckon_macos::router::ItemKind;

fn found(name: &str, is_file: bool, mode: u32) -> Found {
    Found {
        def: PluginDef { file_name: name.to_string(), path: format!("/plugins/{name}") },
        is_file,
        mode,
    }
}

fn manifest(name: &str, keyword: &str) -> Manifest {
    Manifest { name: name.to_string(), keyword: keyword.to_string() }
}

fn answers(name: &str, keyword: &str) -> Handshake {
    Handshake::Response { id: 1, manifest: Ok(manifest(name, keyword)) }
}

#[test]
fn strip_controls_removes_control_chars_only() {
    assert_eq!(strip_controls("plain"), "plain");
    assert_eq!(strip_controls("a\nb\tc\rd\u{1}e\u{7f}f"), "abcdef");
    assert_eq!(strip_controls("ünïcode 🎉 stays"), "ünïcode 🎉 stays");
    assert_eq!(strip_controls(""), "");
}

#[test]
fn sanitize_name_makes_id_safe_segments() {
    assert_eq!(sanitize_name("demo", "x"), "demo");
    assert_eq!(sanitize_name("my.plugin v2", "x"), "my-plugin-v2");
    assert_eq!(sanitize_name("\u{1}\u{2}", "example-plugin.py"), "example-plugin-py");
    assert_eq!(sanitize_name("", ""), "plugin");
}

fn split(id: &str, names: &Vec<String>) -> Option<(usize, String)> {
    split_plugin_id(id, names)
}

#[test]
fn item_id_round_trip() {
    let names = vec!["demo".to_string(), "other".to_string()];
    let id = make_item_id("demo", "echo");
    assert_eq!(id, "plugin.demo.echo");
    assert_eq!(split(&id, &names), Some((0, "echo".to_string())));
    // Item ids may themselves contain dots; the split is at the name
    // boundary, not the last dot.
    let id = make_item_id("demo", "a.b.c");
    assert_eq!(split(&id, &names), Some((0, "a.b.c".to_string())));
    // Control characters in the raw item id are stripped.
    assert_eq!(make_item_id("demo", "e\ncho"), "plugin.demo.echo");
}

#[test]
fn split_plugin_id_rejects_foreign_ids() {
    let names = vec!["demo".to_string()];
    assert_eq!(split("app.safari", &names), None);
    assert_eq!(split("plugin.unknown.item", &names), None);
    assert_eq!(split("plugin.demo", &names), None);
    assert_eq!(split("plugin.demo.", &names), None);
    assert_eq!(split("", &names), None);
}

#[test]
fn split_plugin_id_prefers_the_longest_name() {
    let names = vec!["demo".to_string(), "demo-extra".to_string()];
    assert_eq!(split("plugin.demo-extra.item", &names), Some((1, "item".to_string())));
    assert_eq!(split("plugin.demo.item", &names), Some((0, "item".to_string())));
}

#[test]
fn discovery_finds_only_executable_regular_files() {
    let dir = vec![
        found("zeta", true, 0o755),
        found("alpha", true, 0o755),
        found("not-executable", true, 0o644),
        found("subdir", false, 0o755),
    ];
    let defs = discover(&dir);
    let names: Vec<&str> = defs.iter().map(|d| d.file_name.as_str()).collect();
    // Executables only, sorted by file name.
    assert_eq!(names, vec!["alpha", "zeta"]);
}

#[test]
fn discovery_of_a_missing_directory_is_empty() {
    assert!(discover(&vec![]).is_empty());
}

#[test]
fn host_starts_empty_and_discovery_spawns_nothing() {
    let mut host = HostState::new();
    host.start(&vec![found("demo", true, 0o755)]);
    assert_eq!(host.defs.len(), 1);
    // Discovery alone never spawns: no live plugins, no blacklist.
    assert!(host.live.is_empty());
    assert!(host.blacklist.is_empty());
}

#[test]
fn query_for_unknown_keyword_is_empty() {
    let mut host = HostState::new();
    host.start(&vec![]);
    assert_eq!(host.path_for_keyword("nope", 0), KeywordSearch::Missing);
}

#[test]
fn activate_of_foreign_id_is_an_err_not_a_panic() {
    let mut host = HostState::new();
    host.start(&vec![]);
    assert!(host.activate("app.safari").is_err());
    assert!(host.activate("plugin.ghost.item").is_err());
    assert!(host.activate("").is_err());
    assert_eq!(host.activate("a\"b").unwrap_err(), "no plugin owns id \"a\\\"b\"");
}

#[test]
fn a_plugin_runs_from_its_handshake_on() {
    let mut host = HostState::new();
    host.start(&vec![found("demo.py", true, 0o755), found("other", true, 0o755)]);
    let path = "/plugins/demo.py";
    assert_eq!(host.next_to_start(0), Some(0));
    assert_eq!(host.ensure_live(path), Need::Spawn { file_name: "demo.py".to_string() });
    assert_eq!(host.path_for_keyword("demo", 0), KeywordSearch::Spawn(0));
    assert_eq!(host.spawned(path, answers("demo", "demo")), Ok(()));
    assert_eq!(host.next_to_start(0), Some(1));
    assert_eq!(host.next_to_start(2), None);
    assert_eq!(host.ensure_live(path), Need::Ready);
    assert_eq!(host.keywords(), vec![("demo".to_string(), "demo".to_string())]);
    assert_eq!(host.path_for_keyword("demo", 0), KeywordSearch::Found(path.to_string()));
    assert_eq!(host.name_of(path), Some("demo".to_string()));
    // The handshake used the first request id.
    assert_eq!(host.next_request(path), Some(2));
    assert_eq!(host.next_request(path), Some(3));
    assert_eq!(host.next_request("/nowhere"), None);
    assert_eq!(
        host.activate("plugin.demo.echo"),
        Ok((path.to_string(), "echo".to_string()))
    );
}

#[test]
fn a_failed_handshake_gives_the_plugin_up() {
    let mut host = HostState::new();
    host.start(&vec![found("garbage", true, 0o755)]);
    let path = "/plugins/garbage";
    let (why, line) = host.spawned(path, Handshake::NoLine("bad".to_string())).unwrap_err();
    assert_eq!(why, "bad");
    assert!(line.contains(path) && line.contains("bad"), "{line}");
    assert_eq!(host.blacklist.len(), 1);
    assert!(host.disabled(path));
    assert!(matches!(host.ensure_live(path), Need::Disabled(_)));
    // Given up for the session: nothing asks it again.
    assert_eq!(host.path_for_keyword("x", 0), KeywordSearch::Missing);
    assert!(host.keywords().is_empty());
    assert!(host.live.is_empty());
}

#[test]
fn a_dead_plugin_is_started_once_more_and_then_given_up() {
    let mut host = HostState::new();
    host.start(&vec![found("dies", true, 0o755)]);
    let path = "/plugins/dies";
    assert_eq!(host.spawned(path, answers("dies", "dies")), Ok(()));
    let eof = || CallFail::fatal("plugin stdout ended: end of stream".to_string());
    assert_eq!(host.call_plugin(path, Attempt::First, eof()), AfterFail::Retry(Attempt::Second));
    assert!(host.live.is_empty());
    assert_eq!(host.spawned(path, answers("dies", "dies")), Ok(()));
    assert!(matches!(host.call_plugin(path, Attempt::Second, eof()), AfterFail::GiveUp(_, _)));
    assert_eq!(host.blacklist.len(), 1);
    assert!(host.live.is_empty());
}

#[test]
fn an_error_response_does_not_kill_the_plugin() {
    let mut host = HostState::new();
    host.start(&vec![found("demo", true, 0o755)]);
    let path = "/plugins/demo";
    assert_eq!(host.spawned(path, answers("demo", "demo")), Ok(()));
    let fail = call::<()>(
        Reply::Remote { code: -32601, message: "method not found".to_string() },
        2,
    )
    .unwrap_err();
    assert!(fail.msg.contains("-32601"), "{}", fail.msg);
    assert_eq!(
        host.call_plugin(path, Attempt::First, fail),
        AfterFail::Fail("plugin error -32601: method not found".to_string())
    );
    assert_eq!(host.live.len(), 1);
    assert!(host.blacklist.is_empty());
}

#[test]
fn replies_must_match_their_request() {
    assert_eq!(call(Reply::Result { id: 5, value: "v" }, 5), Ok("v"));
    let fail = call(Reply::Result { id: 6, value: "v" }, 5).unwrap_err();
    assert!(fail.fatal);
    assert_eq!(fail.msg, "response id 6 does not match request id 5");
    let fail = call::<()>(Reply::WriteFailed("pipe".to_string()), 5).unwrap_err();
    assert_eq!(fail, CallFail::fatal("stdin write failed: pipe".to_string()));
    let fail = call::<()>(Reply::BadResponse("json".to_string()), 5).unwrap_err();
    assert_eq!(fail, CallFail::fatal("protocol violation: json".to_string()));
    let fail = call::<()>(Reply::NoLine("gone".to_string()), 5).unwrap_err();
    assert_eq!(fail, CallFail::fatal("gone".to_string()));
}

#[test]
fn manifests_are_taken_with_a_safe_name() {
    let got = accept_manifest(
        Handshake::Response { id: 1, manifest: Ok(manifest("my.plugin", "mp")) },
        "file.py",
    );
    assert_eq!(got, Ok(manifest("my-plugin", "mp")));
    let err = accept_manifest(Handshake::Response { id: 9, manifest: Ok(manifest("a", "b")) }, "f");
    assert_eq!(err, Err("manifest response id 9 does not match request id 1".to_string()));
    let err = accept_manifest(Handshake::Response { id: 1, manifest: Err("e".to_string()) }, "f");
    assert_eq!(err, Err("bad manifest: e".to_string()));
    let err = accept_manifest(Handshake::BadResponse("e".to_string()), "f");
    assert_eq!(err, Err("bad manifest response: e".to_string()));
    let err = accept_manifest(Handshake::NotStarted("e".to_string()), "f");
    assert_eq!(err, Err("cannot spawn: e".to_string()));
    let err = accept_manifest(Handshake::WriteFailed("e".to_string()), "f");
    assert_eq!(err, Err("stdin write failed: e".to_string()));
    assert_eq!(accept_manifest(Handshake::NoLine("e".to_string()), "f"), Err("e".to_string()));
}

#[test]
fn lines_are_bounded_text() {
    assert_eq!(read_line(Ok(b"hello\r\n".to_vec())), Ok("hello".to_string()));
    assert_eq!(read_line(Ok("h\u{e9}\n".as_bytes().to_vec())), Ok("h\u{e9}".to_string()));
    assert_eq!(read_line(Ok(vec![])), Err("end of stream".to_string()));
    assert_eq!(read_line(Ok(vec![0xff, b'\n'])), Err("response is not UTF-8".to_string()));
    assert_eq!(read_line(Err("pipe".to_string())), Err("read failed: pipe".to_string()));
    let mut long = vec![b'a'; MAX_LINE_BYTES];
    long.push(b'\n');
    assert!(read_line(Ok(long.clone())).is_ok());
    long.insert(0, b'a');
    assert_eq!(read_line(Ok(long)), Err("response line exceeds 1 MiB".to_string()));
}

#[test]
fn blank_lines_are_passed_over() {
    assert_eq!(recv_line(Received::Line("  ".to_string())), Wait::Again);
    assert_eq!(recv_line(Received::Line("{}".to_string())), Wait::Take("{}".to_string()));
    assert_eq!(
        recv_line(Received::Ended("end of stream".to_string())),
        Wait::Fail("plugin stdout ended: end of stream".to_string())
    );
    assert_eq!(recv_line(Received::Nothing), Wait::Fail("no response within 2s".to_string()));
}

#[test]
fn plugin_rows_are_cleaned() {
    let rows = query(
        "demo",
        &vec![PluginItem {
            id: "e\ncho".to_string(),
            title: "Echo:\t hi".to_string(),
            subtitle: "s\u{7}".to_string(),
        }],
    );
    assert_eq!(rows[0].id, "plugin.demo.echo");
    assert_eq!(rows[0].title, "Echo: hi");
    assert_eq!(rows[0].subtitle, "s");
    assert_eq!(rows[0].kind, ItemKind::Script);
    assert_eq!(
        query_failed("a\nb", "e"),
        "beckon: plugin query for keyword \"a\\nb\" failed: e"
    );
    assert_eq!(bad_result("demo", "e"), "beckon: plugin demo returned a bad query result: e");
    assert_eq!(forwarded("demo.py", "hi"), "beckon plugin[demo.py]: hi");
}

#[test]
fn rows_of_a_running_plugin_lead_back_to_it() {
    let mut host = HostState::new();
    host.start(&vec![found("a.py", true, 0o755), found("b.py", true, 0o755)]);
    // A name with dots is made safe, and an empty one gives way to the file's.
    assert_eq!(host.spawned("/plugins/a.py", answers("my.plugin", "a")), Ok(()));
    assert_eq!(host.spawned("/plugins/b.py", answers("", "b")), Ok(()));
    assert_eq!(host.name_of("/plugins/a.py"), Some("my-plugin".to_string()));
    assert_eq!(host.name_of("/plugins/b.py"), Some("b-py".to_string()));
    for (path, name) in [("/plugins/a.py", "my-plugin"), ("/plugins/b.py", "b-py")] {
        let item = PluginItem {
            id: "x.y\n.z".to_string(),
            title: String::new(),
            subtitle: String::new(),
        };
        let rows = query(name, &vec![item]);
        assert_eq!(host.activate(&rows[0].id), Ok((path.to_string(), "x.y.z".to_string())));
    }
    // Of two plugins with one name the first that runs answers.
    let mut twins = HostState::new();
    assert_eq!(twins.spawned("/plugins/one", answers("twin", "a")), Ok(()));
    assert_eq!(twins.spawned("/plugins/two", answers("twin", "b")), Ok(()));
    assert_eq!(
        twins.activate("plugin.twin.row"),
        Ok(("/plugins/one".to_string(), "row".to_string()))
    );
}
