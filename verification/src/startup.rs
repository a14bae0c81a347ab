//! Startup: what the launcher begins with, out of what could be read, and
//! what the log says of what could not.
//!
//! A store that is missing or broken never stops the launcher. It begins with
//! the defaults, and a broken one is named in the log.

use crate::engine::{self, Config, Engine, Entry, Work};
use crate::onboarding;
use crate::order::views;
use crate::paths;
use crate::router::{Item, ItemView};
use crate::scriptcmd::{self, Script};
use crate::system;
use crate::table::Table;
use crate::text;
use crate::walkthrough::Tour;
use crate::winmgmt;
use vstd::prelude::*;

verus! {

/// The file of what was used how often, below the store root.
pub const FRECENCY_FILE: &'static str = "frecency.txt";

/// The file of the snippets, below the store root.
pub const SNIPPETS_FILE: &'static str = "snippets.json";

/// The file of the quicklinks, below the store root.
pub const QUICKLINKS_FILE: &'static str = "quicklinks.json";

/// A line of the log, and whether it goes to the error stream.
#[derive(Clone, Debug, PartialEq, Eq)]
pub struct LogLine {
    pub error: bool,
    pub line: String,
}

/// What a [`LogLine`] holds.
#[verifier::ext_equal]
pub struct LogView {
    pub error: bool,
    pub line: Seq<char>,
}

impl View for LogLine {
    type V = LogView;

    open spec fn view(&self) -> LogView {
        LogView { error: self.error, line: self.line@ }
    }
}

/// How reading a store went.
pub enum Loaded<T> {
    Present(T),
    Missing,
    /// It does not read, for this reason.
    Broken(String),
}

/// What the log says of a store: nothing, unless it is broken.
pub open spec fn complaint<T>(
    loaded: Loaded<T>,
    what: Seq<char>,
    path: Seq<char>,
    remedy: Seq<char>,
) -> Seq<LogView> {
    match loaded {
        Loaded::Broken(why) => seq![
            LogView { error: true, line: what + path + (": "@ + why@ + remedy) },
        ],
        _ => Seq::empty(),
    }
}

/// The line for a store that does not read.
fn complain(what: &str, path: &str, why: &str, remedy: &str) -> (r: LogLine)
    ensures
        r@ == (LogView { error: true, line: what@ + path@ + (": "@ + why@ + remedy@) }),
{
    let head = text::join(what, path);
    LogLine { error: true, line: text::join(&head, &text::join3(": ", why, remedy)) }
}

/// How reading the store of uses went.
pub enum FrecencyRead {
    Missing,
    /// The file does not read.
    Unreadable(String),
    /// The file is no text.
    NotText(String),
    /// The text does not parse.
    Corrupt(String),
    Parsed,
}

/// What the log says of the store of uses.
pub open spec fn frecency_log(path: Seq<char>, read: FrecencyRead) -> Seq<LogView> {
    match read {
        FrecencyRead::Missing => Seq::empty(),
        FrecencyRead::Parsed => Seq::empty(),
        FrecencyRead::Unreadable(why) => seq![
            LogView {
                error: true,
                line: "beckon: cannot read frecency store "@ + path + (": "@ + why@
                    + "; starting fresh"@),
            },
        ],
        FrecencyRead::NotText(why) => seq![
            LogView {
                error: true,
                line: "beckon: frecency store "@ + path + (" is not UTF-8 ("@ + why@
                    + "); starting fresh"@),
            },
        ],
        FrecencyRead::Corrupt(why) => seq![
            LogView {
                error: true,
                line: "beckon: corrupt frecency store "@ + path + (": "@ + why@
                    + "; starting fresh"@),
            },
        ],
    }
}

/// Whether the launcher begins without any uses, and what the log says of it:
/// only a store that parses is gone on from.
pub fn load_frecency(path: &str, read: FrecencyRead) -> (r: (bool, Option<LogLine>))
    ensures
        r.0 == !(read is Parsed),
        match r.1 {
            Some(line) => frecency_log(path@, read) == seq![line@],
            None => frecency_log(path@, read) == Seq::<LogView>::empty(),
        },
{
    match read {
        FrecencyRead::Missing => (true, None),
        FrecencyRead::Parsed => (false, None),
        FrecencyRead::Unreadable(why) => (
            true,
            Some(complain("beckon: cannot read frecency store ", path, &why, "; starting fresh")),
        ),
        FrecencyRead::NotText(why) => {
            let head = text::join("beckon: frecency store ", path);
            let tail = text::join3(" is not UTF-8 (", &why, "); starting fresh");
            (true, Some(LogLine { error: true, line: text::join(&head, &tail) }))
        },
        FrecencyRead::Corrupt(why) => (
            true,
            Some(complain("beckon: corrupt frecency store ", path, &why, "; starting fresh")),
        ),
    }
}

/// What was read at startup.
pub struct Readings {
    pub apps: Vec<Item>,
    /// How long indexing the apps took.
    pub millis: u64,
    /// The store root, and why it could not be made where it could not.
    pub root: String,
    pub root_error: Option<String>,
    pub config_path: String,
    pub config: Loaded<Config>,
    /// The config to go by where there is none.
    pub default_config: Config,
    /// Why the scripts directory could not be set up, where it could not.
    pub scripts_error: Option<String>,
    pub scripts: Vec<Script>,
    /// The keyword and name of each plugin.
    pub plugin_keywords: Vec<(String, String)>,
    pub frecency: FrecencyRead,
    pub snippets: Loaded<()>,
    pub quicklinks: Loaded<()>,
    /// Whether the Accessibility permission is granted.
    pub trusted: bool,
    /// Whether the tour was finished once.
    pub tour_done: bool,
}

/// The line that says how many apps were indexed.
pub open spec fn indexed_line(apps: nat, millis: u64) -> LogView {
    LogView {
        error: false,
        line: "beckon: indexed "@ + text::decimal(apps) + (" apps in "@ + text::decimal(
            millis as nat,
        ) + " ms"@),
    }
}

/// The line that says whether the permission is granted.
pub open spec fn status_log(trusted: bool) -> LogView {
    LogView {
        error: false,
        line: "beckon: "@ + (if trusted {
            "Accessibility: granted"@
        } else {
            "Accessibility: not granted (window management and paste disabled)"@
        }),
    }
}

/// An error that there may be, as lines of the log.
pub open spec fn error_log(what: Seq<char>, error: Option<String>, remedy: Seq<char>) -> Seq<
    LogView,
> {
    match error {
        Some(why) => seq![LogView { error: true, line: what + why@ + remedy }],
        None => Seq::empty(),
    }
}

/// What the log says of the startup, in order.
pub open spec fn startup_log(r: Readings) -> Seq<LogView> {
    seq![indexed_line(r.apps@.len(), r.millis)] + error_log(
        "beckon: cannot create store root "@ + r.root@ + ": "@,
        r.root_error,
        "; frecency will not persist"@,
    ) + complaint(
        r.config,
        "beckon: cannot load config "@,
        r.config_path@,
        "; using defaults"@,
    ) + error_log(
        "beckon: cannot bootstrap the scripts directory: "@,
        r.scripts_error,
        Seq::empty(),
    ) + frecency_log(paths::joined_path(r.root@, FRECENCY_FILE@), r.frecency) + complaint(
        r.snippets,
        "beckon: corrupt snippet store "@,
        paths::joined_path(r.root@, SNIPPETS_FILE@),
        "; using defaults"@,
    ) + complaint(
        r.quicklinks,
        "beckon: corrupt quicklink store "@,
        paths::joined_path(r.root@, QUICKLINKS_FILE@),
        "; using defaults"@,
    ) + seq![status_log(r.trusted)]
}

/// What the launcher begins with.
pub struct Started {
    pub engine: Engine,
    pub log: Vec<LogLine>,
    /// Whether to begin without any uses.
    pub fresh_frecency: bool,
    /// Whether to begin with the default snippets.
    pub default_snippets: bool,
    /// Whether to begin with the default quicklinks.
    pub default_quicklinks: bool,
}

/// The commands: the system commands, the window actions, and the setup step
/// while the permission is missing.
pub open spec fn startup_commands(trusted: bool) -> Seq<ItemView> {
    system::listing() + winmgmt::listing() + onboarding::rows_for(trusted)
}

/// The rows of scripts, in the scripts' order.
pub open spec fn script_rows(scripts: Seq<Script>, home: Option<Seq<char>>) -> Seq<ItemView> {
    scripts.map_values(
        |s: Script| scriptcmd::item_view(s@, scriptcmd::shown_path(s.path@, home)),
    )
}

/// The rows of the scripts, and their keywords as implicit aliases.
pub fn script_snapshot(scripts: &Vec<Script>, home: Option<&str>) -> (r: (Vec<Item>, Table))
    ensures
        views(r.0@) == script_rows(
            scripts@,
            match home {
                Some(h) => Some(h@),
                None => None,
            },
        ),
        r.1@ == scriptcmd::keyword_map(scripts@),
{
    let rows = scriptcmd::items(scripts, home);
    proof {
        let h = match home {
            Some(h) => Some(h@),
            None => None,
        };
        assert(views(rows@) =~= script_rows(scripts@, h));
    }
    (rows, scriptcmd::script_keywords(scripts))
}

/// Pairs as a map; where a key comes twice, the last one counts.
pub open spec fn pairs_map(pairs: Seq<(String, String)>) -> Map<Seq<char>, Seq<char>>
    decreases pairs.len(),
{
    if pairs.len() == 0 {
        Map::empty()
    } else {
        pairs_map(pairs.drop_last()).insert(pairs.last().0@, pairs.last().1@)
    }
}

/// Pairs as a table.
fn table_of(pairs: &Vec<(String, String)>) -> (r: Table)
    ensures
        r@ == pairs_map(pairs@),
{
    let mut out = Table::new();
    let mut i: usize = 0;
    assert(pairs@.take(0) =~= Seq::empty());
    while i < pairs.len()
        invariant
            i <= pairs@.len(),
            out@ == pairs_map(pairs@.take(i as int)),
        decreases pairs@.len() - i,
    {
        proof {
            assert(pairs@.take(i + 1).drop_last() =~= pairs@.take(i as int));
        }
        out = out.insert(&pairs[i].0, &pairs[i].1);
        i = i + 1;
    }
    assert(pairs@.take(i as int) =~= pairs@);
    out
}

/// Adds a line to the log where there is one.
fn note(log: &mut Vec<LogLine>, line: Option<LogLine>)
    ensures
        views(final(log)@) == views(old(log)@) + (match line {
            Some(l) => seq![l@],
            None => Seq::empty(),
        }),
{
    let ghost before = views(log@);
    match line {
        Some(l) => {
            log.push(l);
            assert(views(log@) =~= before + seq![l@]);
        },
        None => {
            assert(views(log@) =~= before + Seq::empty());
        },
    }
}

/// The line for an error that there may be.
fn error_line(what: &str, error: &Option<String>, remedy: &str) -> (r: Option<LogLine>)
    ensures
        match r {
            Some(l) => error_log(what@, *error, remedy@) == seq![l@],
            None => error_log(what@, *error, remedy@) == Seq::<LogView>::empty(),
        },
{
    match error {
        Some(why) => Some(LogLine { error: true, line: text::join3(what, why, remedy) }),
        None => None,
    }
}

/// The line for a store, and whether it has to be begun with the defaults.
fn store_line(loaded: &Loaded<()>, what: &str, path: &str) -> (r: (bool, Option<LogLine>))
    ensures
        r.0 == !(loaded is Present),
        match r.1 {
            Some(l) => complaint(*loaded, what@, path@, "; using defaults"@) == seq![l@],
            None => complaint(*loaded, what@, path@, "; using defaults"@) == Seq::<
                LogView,
            >::empty(),
        },
{
    match loaded {
        Loaded::Present(_) => (false, None),
        Loaded::Missing => (true, None),
        Loaded::Broken(why) => (true, Some(complain(what, path, why, "; using defaults"))),
    }
}

/// What the launcher begins with, out of what was read.
pub fn init(r: Readings, home: Option<&str>) -> (s: Started)
    ensures
        s.engine.config == (match r.config {
            Loaded::Present(c) => c,
            _ => r.default_config,
        }),
        s.engine.apps == r.apps,
        views(s.engine.commands@) == startup_commands(r.trusted),
        views(s.engine.scripts@) == script_rows(
            r.scripts@,
            match home {
                Some(h) => Some(h@),
                None => None,
            },
        ),
        s.engine.script_keywords@ == scriptcmd::keyword_map(r.scripts@),
        s.engine.plugin_keywords@ == pairs_map(r.plugin_keywords@),
        s.engine.tour == (Tour { done: r.tour_done, step: None }),
        s.engine.results@.len() == 0,
        views(s.log@) == startup_log(r),
        s.fresh_frecency == !(r.frecency is Parsed),
        s.default_snippets == !(r.snippets is Present),
        s.default_quicklinks == !(r.quicklinks is Present),
{
    let mut log: Vec<LogLine> = Vec::new();
    let count = text::join("beckon: indexed ", &text::decimal_of(r.apps.len() as u64));
    let time = text::join3(" apps in ", &text::decimal_of(r.millis), " ms");
    note(&mut log, Some(LogLine { error: false, line: text::join(&count, &time) }));
    let ghost l1 = views(log@);
    assert(l1 =~= seq![indexed_line(r.apps@.len(), r.millis)]);

    let head = text::join3("beckon: cannot create store root ", &r.root, ": ");
    note(&mut log, error_line(&head, &r.root_error, "; frecency will not persist"));
    let ghost l2 = views(log@);

    let (config, config_line) = match r.config {
        Loaded::Present(c) => (c, None),
        Loaded::Missing => (r.default_config, None),
        Loaded::Broken(why) => (
            r.default_config,
            Some(
                complain(
                    "beckon: cannot load config ",
                    &r.config_path,
                    &why,
                    "; using defaults",
                ),
            ),
        ),
    };
    note(&mut log, config_line);
    let ghost l3 = views(log@);

    note(
        &mut log,
        error_line("beckon: cannot bootstrap the scripts directory: ", &r.scripts_error, ""),
    );
    let ghost l4 = views(log@);
    let (scripts, script_keywords) = script_snapshot(&r.scripts, home);

    let (fresh_frecency, frecency_line) = load_frecency(
        &paths::join_path(&r.root, FRECENCY_FILE),
        r.frecency,
    );
    note(&mut log, frecency_line);
    let ghost l5 = views(log@);

    let (default_snippets, snippets_line) = store_line(
        &r.snippets,
        "beckon: corrupt snippet store ",
        &paths::join_path(&r.root, SNIPPETS_FILE),
    );
    note(&mut log, snippets_line);
    let ghost l6 = views(log@);
    let (default_quicklinks, quicklinks_line) = store_line(
        &r.quicklinks,
        "beckon: corrupt quicklink store ",
        &paths::join_path(&r.root, QUICKLINKS_FILE),
    );
    note(&mut log, quicklinks_line);
    let ghost l7 = views(log@);

    let status = text::join("beckon: ", &onboarding::status_line(r.trusted));
    note(&mut log, Some(LogLine { error: false, line: status }));
    proof {
        reveal_strlit("");
        assert(""@ =~= Seq::empty());
        assert(l2 == l1 + error_log(head@, r.root_error, "; frecency will not persist"@));
        assert(l3 == l2 + complaint(
            r.config,
            "beckon: cannot load config "@,
            r.config_path@,
            "; using defaults"@,
        ));
        assert(l4 == l3 + error_log(
            "beckon: cannot bootstrap the scripts directory: "@,
            r.scripts_error,
            Seq::empty(),
        ));
        assert(l5 == l4 + frecency_log(paths::joined_path(r.root@, FRECENCY_FILE@), r.frecency));
        assert(views(log@) == l7 + seq![status_log(r.trusted)]);
        assert(views(log@) == startup_log(r));
    }
    let (system, windows, setup) = (
        system::items(),
        winmgmt::items(),
        onboarding::items_for(r.trusted),
    );
    let plugin_keywords = table_of(&r.plugin_keywords);
    let engine = Engine::new(
        config,
        r.apps,
        system,
        windows,
        setup,
        scripts,
        script_keywords,
        plugin_keywords,
        r.tour_done,
    );
    assert(views(engine.commands@) =~= startup_commands(r.trusted));
    Started { engine, log, fresh_frecency, default_snippets, default_quicklinks }
}

/// The error where recording a use could not be saved.
pub fn not_saved(path: &str, why: &str) -> (r: String)
    ensures
        r@ == "cannot save frecency to "@ + path@ + (": "@ + why@),
{
    text::join3("cannot save frecency to ", path, &text::join(": ", why))
}

/// What the log says after the summon chord was registered, or was not. It
/// names the chord by its label.
pub fn registered(label: &str, outcome: Result<(), i32>) -> (r: LogLine)
    ensures
        match outcome {
            Ok(_) => r@ == (LogView {
                error: false,
                line: "beckon: ready; press "@ + label@ + " to summon the panel"@,
            }),
            Err(status) => r@ == (LogView {
                error: true,
                line: "beckon: hotkey registration failed (OSStatus "@ + text::signed_decimal(
                    status as int,
                ) + ("); is "@ + label@ + " taken?"@),
            }),
        },
{
    match outcome {
        Ok(_) => LogLine {
            error: false,
            line: text::join3("beckon: ready; press ", label, " to summon the panel"),
        },
        Err(status) => LogLine {
            error: true,
            line: text::join3(
                "beckon: hotkey registration failed (OSStatus ",
                &text::signed_decimal_of(status as i64),
                &text::join3("); is ", label, " taken?"),
            ),
        },
    }
}

/// A broken store is named in the log and never stops the launcher; a missing
/// one goes without a word.
pub proof fn law_only_broken_stores_are_named<T>(
    loaded: Loaded<T>,
    what: Seq<char>,
    path: Seq<char>,
    remedy: Seq<char>,
)
    ensures
        complaint(loaded, what, path, remedy).len() == (if loaded is Broken {
            1nat
        } else {
            0
        }),
{
}

/// The first letters of a command's id tell which source it comes from.
proof fn lemma_command_prefixes(trusted: bool, i: int)
    requires
        0 <= i < startup_commands(trusted).len(),
    ensures
        ({
            let id = startup_commands(trusted)[i].id;
            let n = system::listing().len();
            let m = n + winmgmt::listing().len();
            &&& id.len() > 7
            &&& i < n ==> id == system::listing()[i].id && id[0] == 's'
            &&& n <= i < m ==> "window."@.is_prefix_of(id) && id[0] == 'w' && (exists|
                a: winmgmt::Action,
            |
                winmgmt::action_id(a) == id)
            &&& m <= i ==> id == onboarding::ACCESSIBILITY_ID@ && "onboarding."@.is_prefix_of(id)
                && id[0] == 'o'
        }),
{
    reveal_strlit("window.");
    reveal_strlit("onboarding.");
    reveal_strlit("onboarding.accessibility");
    reveal_strlit("settings.");
    reveal_strlit("window.left-half");
    reveal_strlit("window.right-half");
    reveal_strlit("window.top-half");
    reveal_strlit("window.bottom-half");
    reveal_strlit("window.left-third");
    reveal_strlit("window.center-third");
    reveal_strlit("window.right-third");
    reveal_strlit("window.left-two-thirds");
    reveal_strlit("window.right-two-thirds");
    reveal_strlit("window.top-left-quarter");
    reveal_strlit("window.top-right-quarter");
    reveal_strlit("window.bottom-left-quarter");
    reveal_strlit("window.bottom-right-quarter");
    reveal_strlit("window.maximize");
    reveal_strlit("window.center");
    reveal_strlit("window.next-display");
    reveal_strlit("window.previous-display");
    reveal_strlit("system.sleep");
    reveal_strlit("system.lock-screen");
    reveal_strlit("system.empty-trash");
    reveal_strlit("system.toggle-dark-mode");
    reveal_strlit("system.toggle-mute");
    reveal_strlit("system.volume-up");
    reveal_strlit("system.volume-down");
    reveal_strlit("system.quit-frontmost");
    reveal_strlit("system.restart-finder");
    let id = startup_commands(trusted)[i].id;
    let n = system::listing().len() as int;
    let m = n + winmgmt::listing().len();
    if i < n {
        assert(id == system::listing()[i].id);
        let k = system::spec_table().len() as int;
        if i < k {
            assert(id == system::spec_table()[i].id);
        } else {
            assert(id == "settings."@ + system::pane_table()[i - k].slug);
        }
    } else if i < m {
        let a = winmgmt::actions()[i - n];
        assert(id == winmgmt::listing()[i - n].id);
        assert(id == winmgmt::action_id(a));
        assert(id.subrange(0, 7) =~= "window."@);
    } else {
        assert(id == onboarding::rows_for(trusted)[i - m].id);
        assert(id.subrange(0, 11) =~= "onboarding."@);
    }
}

/// Activating a listed command leads to the source that knows its id.
pub proof fn law_commands_reach_their_source(trusted: bool, i: int, id: String)
    requires
        0 <= i < startup_commands(trusted).len(),
        id@ == startup_commands(trusted)[i].id,
    ensures
        match engine::work_of(Entry::Command { id }) {
            Some(Work::WindowAction { id: w }) => w == id && exists|a: winmgmt::Action|
                winmgmt::action_id(a) == id@,
            Some(Work::Setup { id: s }) => s == id && id@ == onboarding::ACCESSIBILITY_ID@,
            Some(Work::System { id: s }) => s == id && system::mechanism_of(id@) is Some,
            _ => false,
        },
{
    lemma_command_prefixes(trusted, i);
    reveal_strlit("window.");
    reveal_strlit("onboarding.");
    if i < system::listing().len() {
        system::law_every_item_has_a_mechanism(i);
        assert("window."@[0] == 'w' && "onboarding."@[0] == 'o');
    } else if i < system::listing().len() + winmgmt::listing().len() {
    } else {
        assert("window."@[0] == 'w');
    }
}

/// No two commands of the launcher share an id.
pub proof fn law_command_ids_are_unique(trusted: bool, i: int, j: int)
    requires
        0 <= i < j < startup_commands(trusted).len(),
    ensures
        startup_commands(trusted)[i].id != startup_commands(trusted)[j].id,
{
    lemma_command_prefixes(trusted, i);
    lemma_command_prefixes(trusted, j);
    let n = system::listing().len() as int;
    let m = n + winmgmt::listing().len();
    if j < n {
        system::law_ids_are_unique(i, j);
    } else if n <= i && j < m {
        let (a, b) = (winmgmt::actions()[i - n], winmgmt::actions()[j - n]);
        assert(startup_commands(trusted)[i].id == winmgmt::action_id(a));
        assert(startup_commands(trusted)[j].id == winmgmt::action_id(b));
        if winmgmt::action_id(a) == winmgmt::action_id(b) {
            winmgmt::law_action_ids_are_unique(a, b);
        }
    }
}

/// The line for a broken store goes to the error stream and holds, in this order,
/// what failed, the store's path, the reason and what follows from it. The store
/// of uses has a line of its own for each way in which it can be broken.
pub proof fn law_lines_name_the_store_and_the_reason<T>(
    what: Seq<char>,
    path: Seq<char>,
    why: String,
    remedy: Seq<char>,
)
    ensures
        complaint::<T>(Loaded::Broken(why), what, path, remedy) == seq![
            LogView { error: true, line: what + path + ": "@ + why@ + remedy },
        ],
        frecency_log(path, FrecencyRead::Missing).len() == 0,
        frecency_log(path, FrecencyRead::Parsed).len() == 0,
        frecency_log(path, FrecencyRead::Unreadable(why)) == seq![
            LogView {
                error: true,
                line: "beckon: cannot read frecency store "@ + path + ": "@ + why@
                    + "; starting fresh"@,
            },
        ],
        frecency_log(path, FrecencyRead::NotText(why)) == seq![
            LogView {
                error: true,
                line: "beckon: frecency store "@ + path + " is not UTF-8 ("@ + why@
                    + "); starting fresh"@,
            },
        ],
        frecency_log(path, FrecencyRead::Corrupt(why)) == seq![
            LogView {
                error: true,
                line: "beckon: corrupt frecency store "@ + path + ": "@ + why@
                    + "; starting fresh"@,
            },
        ],
        error_log(what, None, remedy).len() == 0,
        error_log(what, Some(why), remedy) == seq![
            LogView { error: true, line: what + why@ + remedy },
        ],
{
    assert(what + path + (": "@ + why@ + remedy) =~= what + path + ": "@ + why@ + remedy);
    let (a, b, c, fresh) = (
        "beckon: cannot read frecency store "@,
        "beckon: frecency store "@,
        "beckon: corrupt frecency store "@,
        "; starting fresh"@,
    );
    assert(a + path + (": "@ + why@ + fresh) =~= a + path + ": "@ + why@ + fresh);
    assert(c + path + (": "@ + why@ + fresh) =~= c + path + ": "@ + why@ + fresh);
    assert(b + path + (" is not UTF-8 ("@ + why@ + "); starting fresh"@) =~= b + path
        + " is not UTF-8 ("@ + why@ + "); starting fresh"@);
}

/// Where the lines of a log stand that is put together of a first line, six
/// parts of one line at most, and a last line.
proof fn lemma_log_places(
    first: LogView,
    p: Seq<LogView>,
    q: Seq<LogView>,
    r: Seq<LogView>,
    s: Seq<LogView>,
    t: Seq<LogView>,
    u: Seq<LogView>,
    last: LogView,
)
    requires
        p.len() <= 1 && q.len() <= 1 && r.len() <= 1 && s.len() <= 1 && t.len() <= 1 && u.len()
            <= 1,
        forall|i: int| 0 <= i < p.len() ==> (#[trigger] p[i]).error,
        forall|i: int| 0 <= i < q.len() ==> (#[trigger] q[i]).error,
        forall|i: int| 0 <= i < r.len() ==> (#[trigger] r[i]).error,
        forall|i: int| 0 <= i < s.len() ==> (#[trigger] s[i]).error,
        forall|i: int| 0 <= i < t.len() ==> (#[trigger] t[i]).error,
        forall|i: int| 0 <= i < u.len() ==> (#[trigger] u[i]).error,
    ensures
        ({
            let log = seq![first] + p + q + r + s + t + u + seq![last];
            let (a, b, c, d, e) = (
                1 + p.len(),
                1 + p.len() + q.len(),
                1 + p.len() + q.len() + r.len(),
                1 + p.len() + q.len() + r.len() + s.len(),
                1 + p.len() + q.len() + r.len() + s.len() + t.len(),
            );
            &&& log.len() == e + u.len() + 1
            &&& log[0] == first && log.last() == last
            &&& p.len() == 1 ==> log[1] == p[0]
            &&& q.len() == 1 ==> log[a as int] == q[0]
            &&& r.len() == 1 ==> log[b as int] == r[0]
            &&& s.len() == 1 ==> log[c as int] == s[0]
            &&& t.len() == 1 ==> log[d as int] == t[0]
            &&& u.len() == 1 ==> log[e as int] == u[0]
            &&& forall|i: int| 0 < i < log.len() - 1 ==> (#[trigger] log[i]).error
        }),
{
    let x = seq![first];
    lemma_log_grows(x, p);
    lemma_log_grows(x + p, q);
    lemma_log_grows(x + p + q, r);
    lemma_log_grows(x + p + q + r, s);
    lemma_log_grows(x + p + q + r + s, t);
    lemma_log_grows(x + p + q + r + s + t, u);
    let inner = x + p + q + r + s + t + u;
    let log = inner + seq![last];
    assert(forall|i: int| 0 <= i < inner.len() ==> log[i] == #[trigger] inner[i]);
    assert(log.last() == last);
    assert(inner[0] == first);
    assert forall|i: int| 0 < i < log.len() - 1 implies (#[trigger] log[i]).error by {
        assert(inner[i].error);
    }
}

/// A part of one line at most goes behind the lines of a log.
proof fn lemma_log_grows(x: Seq<LogView>, y: Seq<LogView>)
    requires
        x.len() >= 1 && y.len() <= 1,
        forall|i: int| 0 < i < x.len() ==> (#[trigger] x[i]).error,
        forall|i: int| 0 <= i < y.len() ==> (#[trigger] y[i]).error,
    ensures
        (x + y).len() == x.len() + y.len(),
        forall|i: int| 0 <= i < x.len() ==> #[trigger] (x + y)[i] == x[i],
        y.len() == 1 ==> (x + y)[x.len() as int] == y[0],
        forall|i: int| 0 < i < (x + y).len() ==> (#[trigger] (x + y)[i]).error,
{
}

/// The log begins with how many apps were indexed in how many milliseconds and
/// ends with whether the permission is granted; between these stands a line on
/// the error stream for each thing that did not read, and nothing else: the
/// store root, the config, the scripts, the uses, the snippets and the
/// quicklinks.
pub proof fn law_the_log_tells_every_failure(r: Readings)
    ensures
        ({
            let log = startup_log(r);
            let (a, b, c, d, e, f) = (
                told(r.root_error is Some),
                told(r.config is Broken),
                told(r.scripts_error is Some),
                told(!(r.frecency is Missing || r.frecency is Parsed)),
                told(r.snippets is Broken),
                told(r.quicklinks is Broken),
            );
            &&& log.len() == 2 + a + b + c + d + e + f
            &&& log[0] == indexed_line(r.apps@.len(), r.millis)
            &&& log.last() == status_log(r.trusted)
            &&& forall|i: int| 0 < i < log.len() - 1 ==> (#[trigger] log[i]).error
            &&& r.root_error matches Some(why) ==> log[1].line
                == "beckon: cannot create store root "@ + r.root@ + ": "@ + why@
                + "; frecency will not persist"@
            &&& r.config matches Loaded::Broken(why) ==> log[1 + a].line
                == "beckon: cannot load config "@ + r.config_path@ + ": "@ + why@
                + "; using defaults"@
            &&& r.scripts_error matches Some(why) ==> log[1 + a + b].line
                == "beckon: cannot bootstrap the scripts directory: "@ + why@
            &&& d == 1 ==> log[1 + a + b + c] == frecency_log(
                paths::joined_path(r.root@, "frecency.txt"@),
                r.frecency,
            )[0]
            &&& r.snippets matches Loaded::Broken(why) ==> log[1 + a + b + c + d].line
                == "beckon: corrupt snippet store "@ + paths::joined_path(
                r.root@,
                "snippets.json"@,
            ) + ": "@ + why@ + "; using defaults"@
            &&& r.quicklinks matches Loaded::Broken(why) ==> log[1 + a + b + c + d + e].line
                == "beckon: corrupt quicklink store "@ + paths::joined_path(
                r.root@,
                "quicklinks.json"@,
            ) + ": "@ + why@ + "; using defaults"@
        }),
{
    let p = error_log(
        "beckon: cannot create store root "@ + r.root@ + ": "@,
        r.root_error,
        "; frecency will not persist"@,
    );
    let q = complaint(
        r.config,
        "beckon: cannot load config "@,
        r.config_path@,
        "; using defaults"@,
    );
    let s = error_log(
        "beckon: cannot bootstrap the scripts directory: "@,
        r.scripts_error,
        Seq::empty(),
    );
    let t = frecency_log(paths::joined_path(r.root@, FRECENCY_FILE@), r.frecency);
    let u = complaint(
        r.snippets,
        "beckon: corrupt snippet store "@,
        paths::joined_path(r.root@, SNIPPETS_FILE@),
        "; using defaults"@,
    );
    let v = complaint(
        r.quicklinks,
        "beckon: corrupt quicklink store "@,
        paths::joined_path(r.root@, QUICKLINKS_FILE@),
        "; using defaults"@,
    );
    let first = indexed_line(r.apps@.len(), r.millis);
    let last = status_log(r.trusted);
    lemma_log_places(first, p, q, s, t, u, v, last);
    assert(startup_log(r) == seq![first] + p + q + s + t + u + v + seq![last]);
    lemma_complaint_line(
        r.config,
        "beckon: cannot load config "@,
        r.config_path@,
        "; using defaults"@,
    );
    lemma_complaint_line(
        r.snippets,
        "beckon: corrupt snippet store "@,
        paths::joined_path(r.root@, SNIPPETS_FILE@),
        "; using defaults"@,
    );
    lemma_complaint_line(
        r.quicklinks,
        "beckon: corrupt quicklink store "@,
        paths::joined_path(r.root@, QUICKLINKS_FILE@),
        "; using defaults"@,
    );
    if let Some(why) = r.scripts_error {
        let h = "beckon: cannot bootstrap the scripts directory: "@ + why@;
        assert(h + Seq::<char>::empty() =~= h);
    }
}

/// How many lines a thing takes that is told of where it is so.
pub open spec fn told(is_so: bool) -> int {
    if is_so {
        1
    } else {
        0
    }
}

/// The line for a broken store, its parts one after the other.
proof fn lemma_complaint_line<T>(
    loaded: Loaded<T>,
    what: Seq<char>,
    path: Seq<char>,
    remedy: Seq<char>,
)
    ensures
        complaint(loaded, what, path, remedy).len() == told(loaded is Broken),
        loaded matches Loaded::Broken(why) ==> complaint(loaded, what, path, remedy)[0].line == what
            + path + ": "@ + why@ + remedy && complaint(loaded, what, path, remedy)[0].error,
{
    if let Loaded::Broken(why) = loaded {
        assert(what + path + (": "@ + why@ + remedy) =~= what + path + ": "@ + why@ + remedy);
    }
}

/// The first and the last line of the log, word for word.
pub proof fn law_the_log_counts_apps_and_tells_the_permission(apps: nat, millis: u64)
    ensures
        indexed_line(apps, millis) == (LogView {
            error: false,
            line: "beckon: indexed "@ + text::decimal(apps) + " apps in "@ + text::decimal(
                millis as nat,
            ) + " ms"@,
        }),
        status_log(true) == (LogView { error: false, line: "beckon: Accessibility: granted"@ }),
        status_log(false) == (LogView {
            error: false,
            line: "beckon: Accessibility: not granted (window management and paste disabled)"@,
        }),
{
    reveal_strlit("beckon: ");
    reveal_strlit("Accessibility: granted");
    reveal_strlit("Accessibility: not granted (window management and paste disabled)");
    reveal_strlit("beckon: Accessibility: granted");
    reveal_strlit("beckon: Accessibility: not granted (window management and paste disabled)");
    assert("beckon: "@ + "Accessibility: granted"@ =~= "beckon: Accessibility: granted"@);
    assert("beckon: "@ + "Accessibility: not granted (window management and paste disabled)"@
        =~= "beckon: Accessibility: not granted (window management and paste disabled)"@);
    let (n, m) = (text::decimal(apps), text::decimal(millis as nat));
    assert("beckon: indexed "@ + n + (" apps in "@ + m + " ms"@) =~= "beckon: indexed "@ + n
        + " apps in "@ + m + " ms"@);
}

/// The commands are the system's, then the window actions, and last the row that
/// offers the permission, which is there only while it is missing.
pub proof fn law_the_permission_is_offered_last()
    ensures
        startup_commands(true) == system::listing() + winmgmt::listing(),
        startup_commands(false).drop_last() == startup_commands(true),
        startup_commands(false).last().id == "onboarding.accessibility"@,
{
    assert(startup_commands(true) =~= system::listing() + winmgmt::listing());
    assert(startup_commands(false).drop_last() =~= startup_commands(true));
}

/// Every script has its row, in the scripts' order.
pub proof fn law_every_script_has_its_row(scripts: Seq<Script>, home: Option<Seq<char>>, i: int)
    requires
        0 <= i < scripts.len(),
    ensures
        script_rows(scripts, home).len() == scripts.len(),
        script_rows(scripts, home)[i].id == "script."@ + scripts[i].file_name@,
        script_rows(scripts, home)[i].title == scripts[i].title@,
{
}

/// A key stands for what its last pair says, whatever pairs with other keys
/// follow, and a key without a pair for nothing.
pub proof fn law_the_last_pair_counts(
    a: Seq<(String, String)>,
    pair: (String, String),
    b: Seq<(String, String)>,
    key: Seq<char>,
)
    requires
        forall|i: int| 0 <= i < b.len() ==> (#[trigger] b[i]).0@ != key,
    ensures
        pair.0@ == key ==> pairs_map(a.push(pair) + b).contains_key(key) && pairs_map(
            a.push(pair) + b,
        )[key] == pair.1@,
        !pairs_map(b).contains_key(key),
    decreases b.len(),
{
    let all = a.push(pair) + b;
    if b.len() == 0 {
        assert(all =~= a.push(pair));
        assert(all.last() == pair);
    } else {
        let t = b.drop_last();
        assert forall|i: int| 0 <= i < t.len() implies (#[trigger] t[i]).0@ != key by {
            assert(t[i] == b[i]);
        }
        law_the_last_pair_counts(a, pair, t, key);
        assert(all.drop_last() =~= a.push(pair) + t);
        assert(all.last() == b.last());
        assert(b[b.len() - 1].0@ != key);
    }
}

} // verus!
