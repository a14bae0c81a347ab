//! The launcher engine: which rows a query lists, and what activating a row
//! leads to.
//!
//! A query is answered in steps. [`Engine::refresh_results`] applies aliases,
//! which may decide the rows already. [`Engine::pipeline_rows`] says what else
//! is wanted: what a path leads to, the rows of one source, or an answer to
//! free text. The program fetches what is wanted and hands it to the matching
//! `*_rows` method, which shapes the rows and remembers one activation entry
//! for each. [`Engine::handle_activate`] maps a row to the
//! work that it asks for, and [`follow`] says what comes after, given how that
//! work went.

use crate::hotkey;
use crate::order::views;
use crate::pathnav::{self, PathAction};
use crate::plugins::PluginAction;
use crate::router::{Item, ItemKind};
use crate::table::Table;
use crate::text;
use crate::ui::{RowData, RowView};
use crate::walkthrough::{self, Tour};
use vstd::prelude::*;

verus! {

/// What activating a result row does. One entry per row, in row order.
#[derive(Clone, Debug, PartialEq, Eq)]
pub enum Entry {
    /// Launch the app bundle at `path`, then record a use of `id`.
    App { id: String, path: String },
    /// Copy a computed result to the clipboard.
    Calc { display: String },
    /// Run a command, then record a use of `id`.
    Command { id: String },
    /// Put a clipboard history entry back and paste it.
    Clip { id: String },
    /// Focus another app's window.
    Window { id: String },
    /// Open a file search hit.
    File { id: String },
    /// Press a menu item of the frontmost app.
    Menu { id: String },
    /// Paste a glyph.
    Emoji { glyph: String },
    /// Expand a snippet and paste the expansion.
    Snippet { id: u64 },
    /// Open a filled quicklink.
    Link { id: u64, url: String },
    /// Run a script command.
    Script { id: String },
    /// Ask a plugin what to do.
    Plugin { id: String },
    /// Do something with a path.
    Path { action: PathAction },
    /// Begin the tour, or go on with it.
    Tour,
    /// Nothing: the row only says something.
    Hint,
}

impl Entry {
    /// A copy of the entry.
    pub fn copied(&self) -> (r: Entry)
        ensures
            r == *self,
    {
        match self {
            Entry::App { id, path } => Entry::App { id: id.clone(), path: path.clone() },
            Entry::Calc { display } => Entry::Calc { display: display.clone() },
            Entry::Command { id } => Entry::Command { id: id.clone() },
            Entry::Clip { id } => Entry::Clip { id: id.clone() },
            Entry::Window { id } => Entry::Window { id: id.clone() },
            Entry::File { id } => Entry::File { id: id.clone() },
            Entry::Menu { id } => Entry::Menu { id: id.clone() },
            Entry::Emoji { glyph } => Entry::Emoji { glyph: glyph.clone() },
            Entry::Snippet { id } => Entry::Snippet { id: *id },
            Entry::Link { id, url } => Entry::Link { id: *id, url: url.clone() },
            Entry::Script { id } => Entry::Script { id: id.clone() },
            Entry::Plugin { id } => Entry::Plugin { id: id.clone() },
            Entry::Path { action } => Entry::Path { action: action.copied() },
            Entry::Tour => Entry::Tour,
            Entry::Hint => Entry::Hint,
        }
    }
}

/// The entry of a ranked item: apps launch, scripts run, everything else is a
/// command.
pub open spec fn entry_of(item: Item) -> Entry {
    match item.kind {
        ItemKind::App => Entry::App { id: item.id, path: item.subtitle },
        ItemKind::Script => Entry::Script { id: item.id },
        _ => Entry::Command { id: item.id },
    }
}

/// The entry of a ranked item: apps launch, scripts run, everything else is a
/// command.
pub fn entry_for(item: &Item) -> (r: Entry)
    ensures
        r == entry_of(*item),
{
    match item.kind {
        ItemKind::App => Entry::App { id: item.id.clone(), path: item.subtitle.clone() },
        ItemKind::Script => Entry::Script { id: item.id.clone() },
        _ => Entry::Command { id: item.id.clone() },
    }
}

/// The row of an item.
pub open spec fn row_of(item: Item) -> RowData {
    RowData { title: item.title, subtitle: item.subtitle }
}

/// The row of an item.
fn row_for(item: &Item) -> (r: RowData)
    ensures
        r == row_of(*item),
{
    RowData { title: item.title.clone(), subtitle: item.subtitle.clone() }
}

/// The summon chord as the config names it.
#[derive(Clone, Debug, PartialEq, Eq)]
pub struct HotkeyConfig {
    pub key: String,
    pub modifiers: Vec<String>,
}

/// The parts of the config that the engine goes by.
pub struct Config {
    /// Aliases: a first word, and the item id or text that it stands for.
    pub aliases: Table,
    /// Trigger keywords, in lower case, and the source that each opens.
    pub triggers: Table,
    /// How many rows a list shows at most.
    pub max_results: usize,
    pub hotkey: HotkeyConfig,
}

/// The launcher's state.
pub struct Engine {
    pub config: Config,
    /// The installed apps.
    pub apps: Vec<Item>,
    /// System commands, window actions and setup steps.
    pub commands: Vec<Item>,
    /// Script commands.
    pub scripts: Vec<Item>,
    /// Script keywords as implicit aliases.
    pub script_keywords: Table,
    /// Plugin trigger keywords, consulted after the config's.
    pub plugin_keywords: Table,
    /// How far the user is in the tour.
    pub tour: Tour,
    /// What activating each row of the table does.
    pub results: Vec<Entry>,
}

/// What an alias makes of a query.
#[derive(Debug, Clone, PartialEq, Eq)]
pub enum AliasOutcome {
    /// The alias names an item id: show that item.
    Item(String),
    /// The alias stands for text: the whole rewritten query.
    Rewrite(String),
    /// The first word is no alias.
    Miss,
}

/// What an [`AliasOutcome`] holds.
#[verifier::ext_equal]
pub enum AliasView {
    Item(Seq<char>),
    Rewrite(Seq<char>),
    Miss,
}

impl View for AliasOutcome {
    type V = AliasView;

    open spec fn view(&self) -> AliasView {
        match self {
            AliasOutcome::Item(id) => AliasView::Item(id@),
            AliasOutcome::Rewrite(q) => AliasView::Rewrite(q@),
            AliasOutcome::Miss => AliasView::Miss,
        }
    }
}

/// What the first word of a query stands for: the config's aliases come
/// first, then the script keywords.
pub open spec fn alias_target(
    aliases: Map<Seq<char>, Seq<char>>,
    script_keywords: Map<Seq<char>, Seq<char>>,
    query: Seq<char>,
) -> Option<Seq<char>> {
    let word = text::first_word(query);
    if word.len() == 0 {
        None
    } else if aliases.contains_key(word) {
        Some(aliases[word])
    } else if script_keywords.contains_key(word) {
        Some(script_keywords[word])
    } else {
        None
    }
}

/// What aliases make of a query. A target that holds a full stop names an
/// item, and the rest of the query does not count; any other target takes the
/// place of the first word.
pub open spec fn alias_view(
    aliases: Map<Seq<char>, Seq<char>>,
    script_keywords: Map<Seq<char>, Seq<char>>,
    query: Seq<char>,
) -> AliasView {
    let rest = text::after_first_word(query);
    match alias_target(aliases, script_keywords, query) {
        None => AliasView::Miss,
        Some(target) => if target.contains('.') {
            AliasView::Item(target)
        } else if rest.len() == 0 {
            AliasView::Rewrite(target)
        } else {
            AliasView::Rewrite(target + " "@ + rest)
        },
    }
}

/// What aliases make of a query: the first word is looked up as it stands,
/// first among the config's aliases, then among the script keywords.
pub fn alias_outcome(aliases: &Table, script_keywords: &Table, trimmed: &str) -> (r: AliasOutcome)
    ensures
        r@ == alias_view(aliases@, script_keywords@, trimmed@),
{
    let (first, rest) = match text::split_word(trimmed) {
        Some(p) => p,
        None => {
            return AliasOutcome::Miss;
        },
    };
    let target = match aliases.get(&first) {
        Some(t) => t,
        None => match script_keywords.get(&first) {
            Some(t) => t,
            None => {
                return AliasOutcome::Miss;
            },
        },
    };
    if text::contains_char(target, '.') {
        return AliasOutcome::Item(target.clone());
    }
    if rest.as_str().is_empty() {
        AliasOutcome::Rewrite(target.clone())
    } else {
        AliasOutcome::Rewrite(text::join3(target, " ", &rest))
    }
}

/// A config alias shadows a script keyword of the same name.
pub proof fn law_config_aliases_shadow_script_keywords(
    aliases: Map<Seq<char>, Seq<char>>,
    a: Map<Seq<char>, Seq<char>>,
    b: Map<Seq<char>, Seq<char>>,
    query: Seq<char>,
)
    requires
        aliases.contains_key(text::first_word(query)),
    ensures
        alias_view(aliases, a, query) == alias_view(aliases, b, query),
{
}

/// A query whose first word is neither an alias nor a script keyword is left
/// alone, whatever stands further on in it.
pub proof fn law_aliases_match_the_whole_first_word_only(
    aliases: Map<Seq<char>, Seq<char>>,
    script_keywords: Map<Seq<char>, Seq<char>>,
    query: Seq<char>,
)
    requires
        !aliases.contains_key(text::first_word(query)),
        !script_keywords.contains_key(text::first_word(query)),
    ensures
        alias_view(aliases, script_keywords, query) == AliasView::Miss,
{
}

/// The sources that a trigger keyword opens.
#[derive(Clone, Copy, Debug, PartialEq, Eq, Structural)]
pub enum Source {
    Clip,
    Win,
    File,
    Menu,
    Emoji,
    Snip,
    Go,
}

/// The source with a given name.
pub open spec fn source_named(name: Seq<char>) -> Option<Source> {
    if name == "clip"@ {
        Some(Source::Clip)
    } else if name == "win"@ {
        Some(Source::Win)
    } else if name == "file"@ {
        Some(Source::File)
    } else if name == "menu"@ {
        Some(Source::Menu)
    } else if name == "emoji"@ {
        Some(Source::Emoji)
    } else if name == "snip"@ {
        Some(Source::Snip)
    } else if name == "go"@ {
        Some(Source::Go)
    } else {
        None
    }
}

/// The source with a given name.
fn source_of(name: &str) -> (r: Option<Source>)
    ensures
        r == source_named(name@),
{
    if text::same(name, "clip") {
        Some(Source::Clip)
    } else if text::same(name, "win") {
        Some(Source::Win)
    } else if text::same(name, "file") {
        Some(Source::File)
    } else if text::same(name, "menu") {
        Some(Source::Menu)
    } else if text::same(name, "emoji") {
        Some(Source::Emoji)
    } else if text::same(name, "snip") {
        Some(Source::Snip)
    } else if text::same(name, "go") {
        Some(Source::Go)
    } else {
        None
    }
}

/// What has to be fetched to answer a query.
#[derive(Debug)]
pub enum Request {
    /// What is at a path.
    Path { path: String },
    /// The rows of a source that match `query`.
    Source { source: Source, query: String },
    /// A plugin's rows for its keyword and `query`.
    Plugin { keyword: String, query: String },
    /// What free text gives: a developer transform, a calculation or a
    /// search.
    Text { query: String },
}

/// What a [`Request`] holds.
#[verifier::ext_equal]
pub enum RequestView {
    Path(Seq<char>),
    Source(Source, Seq<char>),
    Plugin(Seq<char>, Seq<char>),
    Text(Seq<char>),
}

impl View for Request {
    type V = RequestView;

    open spec fn view(&self) -> RequestView {
        match self {
            Request::Path { path } => RequestView::Path(path@),
            Request::Source { source, query } => RequestView::Source(*source, query@),
            Request::Plugin { keyword, query } => RequestView::Plugin(keyword@, query@),
            Request::Text { query } => RequestView::Text(query@),
        }
    }
}

/// How a query is answered: with rows that are decided, or by passing on a
/// text, which is no alias, to [`Engine::pipeline_rows`].
#[derive(Debug)]
pub enum Answer {
    Rows(Vec<RowData>),
    Pipeline(String),
}

/// What a trigger keyword opens: a source of the config's table, and only
/// where the table does not name the keyword a plugin.
pub open spec fn keyword_request(
    triggers: Map<Seq<char>, Seq<char>>,
    plugin_keywords: Map<Seq<char>, Seq<char>>,
    keyword: Seq<char>,
    rest: Seq<char>,
) -> Option<RequestView> {
    if triggers.contains_key(keyword) {
        match source_named(triggers[keyword]) {
            Some(source) => Some(RequestView::Source(source, rest)),
            None => None,
        }
    } else if plugin_keywords.contains_key(keyword) {
        Some(RequestView::Plugin(keyword, rest))
    } else {
        None
    }
}

/// A keyword of the config's table is never taken over by a plugin.
pub proof fn law_triggers_shadow_plugins(
    triggers: Map<Seq<char>, Seq<char>>,
    plugin_keywords: Map<Seq<char>, Seq<char>>,
    keyword: Seq<char>,
    rest: Seq<char>,
)
    requires
        triggers.contains_key(keyword),
    ensures
        keyword_request(triggers, plugin_keywords, keyword, rest) == keyword_request(
            triggers,
            Map::empty(),
            keyword,
            rest,
        ),
{
}

/// What a query that is not an alias asks for: one that is shaped like a path
/// asks for what is there; else its first word, in lower case, may be a trigger
/// keyword; everything else is free text.
pub open spec fn pipeline_request(
    triggers: Map<Seq<char>, Seq<char>>,
    plugin_keywords: Map<Seq<char>, Seq<char>>,
    raw: Seq<char>,
    path: Option<Seq<char>>,
) -> RequestView {
    let t = text::trimmed(raw);
    let word = text::first_word(t);
    let found = keyword_request(
        triggers,
        plugin_keywords,
        text::lowercase(word),
        text::after_first_word(t),
    );
    if path is Some {
        RequestView::Path(path->0)
    } else if word.len() > 0 && found is Some {
        found->0
    } else {
        RequestView::Text(raw)
    }
}

/// The empty query is neither an alias nor a trigger: it is answered as free
/// text, and so with what the empty panel lists.
pub proof fn law_the_empty_query_is_free_text(
    aliases: Map<Seq<char>, Seq<char>>,
    script_keywords: Map<Seq<char>, Seq<char>>,
    triggers: Map<Seq<char>, Seq<char>>,
    plugin_keywords: Map<Seq<char>, Seq<char>>,
)
    ensures
        alias_view(aliases, script_keywords, Seq::empty()) == AliasView::Miss,
        pipeline_request(triggers, plugin_keywords, Seq::empty(), None) == RequestView::Text(
            Seq::empty(),
        ),
{
}

/// A query that is shaped like a path is answered with what is there, whatever
/// the trigger keywords are; no other query is.
pub proof fn law_paths_come_before_triggers(
    triggers: Map<Seq<char>, Seq<char>>,
    plugin_keywords: Map<Seq<char>, Seq<char>>,
    raw: Seq<char>,
    path: Option<Seq<char>>,
)
    ensures
        match path {
            Some(p) => pipeline_request(triggers, plugin_keywords, raw, path) == RequestView::Path(
                p,
            ),
            None => pipeline_request(triggers, plugin_keywords, raw, path) !is Path,
        },
{
}

/// The first item with an id.
pub open spec fn first_with_id(items: Seq<Item>, id: Seq<char>) -> Option<Item>
    decreases items.len(),
{
    if items.len() == 0 {
        None
    } else if items[0].id@ == id {
        Some(items[0])
    } else {
        first_with_id(items.skip(1), id)
    }
}

/// The first item with an id in two lists is in the first list, or else in
/// the second.
proof fn lemma_first_in_concat(a: Seq<Item>, b: Seq<Item>, id: Seq<char>)
    ensures
        first_with_id(a + b, id) == (match first_with_id(a, id) {
            Some(i) => Some(i),
            None => first_with_id(b, id),
        }),
    decreases a.len(),
{
    if a.len() == 0 {
        assert(a + b =~= b);
    } else {
        assert((a + b).skip(1) =~= a.skip(1) + b);
        lemma_first_in_concat(a.skip(1), b, id);
    }
}

/// The first item of a list with an id.
fn find_item<'a>(items: &'a Vec<Item>, id: &str) -> (r: Option<&'a Item>)
    ensures
        match r {
            Some(i) => first_with_id(items@, id@) == Some(*i),
            None => first_with_id(items@, id@) is None,
        },
{
    let mut i: usize = 0;
    assert(items@.skip(0) =~= items@);
    while i < items.len()
        invariant
            i <= items@.len(),
            first_with_id(items@, id@) == first_with_id(items@.skip(i as int), id@),
        decreases items@.len() - i,
    {
        if text::same(&items[i].id, id) {
            return Some(&items[i]);
        }
        assert(items@.skip(i as int).skip(1) =~= items@.skip(i + 1));
        i = i + 1;
    }
    None
}

impl Engine {
    /// The items that a search ranks: apps, commands and scripts.
    pub open spec fn pool_items(self) -> Seq<Item> {
        self.apps@ + self.commands@ + self.scripts@
    }

    /// The items that an alias can name, in the order in which they are
    /// looked through.
    pub open spec fn named_items(self) -> Seq<Item> {
        self.commands@ + self.apps@ + self.scripts@
    }

    /// Whether two states differ in the activation entries at most.
    pub open spec fn same_but_results(self, other: Engine) -> bool {
        self.same_sources(other) && self.tour == other.tour
    }

    /// Whether two states list from the same sources: they differ in the tour
    /// and the activation entries at most.
    pub open spec fn same_sources(self, other: Engine) -> bool {
        &&& self.config == other.config
        &&& self.apps == other.apps
        &&& self.commands == other.commands
        &&& self.scripts == other.scripts
        &&& self.script_keywords == other.script_keywords
        &&& self.plugin_keywords == other.plugin_keywords
    }

    /// A launcher with nothing listed yet. The commands are the system
    /// commands, the window actions and the setup steps.
    pub fn new(
        config: Config,
        apps: Vec<Item>,
        system: Vec<Item>,
        windows: Vec<Item>,
        setup: Vec<Item>,
        scripts: Vec<Item>,
        script_keywords: Table,
        plugin_keywords: Table,
        tour_done: bool,
    ) -> (r: Engine)
        ensures
            r.config == config,
            r.apps == apps,
            r.commands@ == system@ + windows@ + setup@,
            r.scripts == scripts,
            r.script_keywords == script_keywords,
            r.plugin_keywords == plugin_keywords,
            r.tour == (Tour { done: tour_done, step: None }),
            r.results@.len() == 0,
    {
        let mut commands = system;
        let mut windows = windows;
        let mut setup = setup;
        commands.append(&mut windows);
        commands.append(&mut setup);
        Engine {
            config,
            apps,
            commands,
            scripts,
            script_keywords,
            plugin_keywords,
            tour: Tour::new(tour_done),
            results: Vec::new(),
        }
    }

    /// Takes over fresh snapshots as the panel is summoned; what is listed
    /// follows with the next query.
    pub fn summon(&mut self, apps: Vec<Item>, scripts: Vec<Item>, script_keywords: Table)
        ensures
            final(self).apps == apps,
            final(self).scripts == scripts,
            final(self).script_keywords == script_keywords,
            final(self).config == old(self).config,
            final(self).commands == old(self).commands,
            final(self).plugin_keywords == old(self).plugin_keywords,
            final(self).tour == old(self).tour,
            final(self).results == old(self).results,
    {
        self.apps = apps;
        self.scripts = scripts;
        self.script_keywords = script_keywords;
    }

    /// What a trigger keyword opens. None where the first word is none, and
    /// the query is free text. The keyword comes in lower case.
    pub fn keyword_rows(&self, keyword: &str, rest: &str) -> (r: Option<Request>)
        ensures
            match r {
                Some(q) => keyword_request(
                    self.config.triggers@,
                    self.plugin_keywords@,
                    keyword@,
                    rest@,
                ) == Some(q@),
                None => keyword_request(
                    self.config.triggers@,
                    self.plugin_keywords@,
                    keyword@,
                    rest@,
                ) is None,
            },
    {
        match self.config.triggers.get(keyword) {
            Some(name) => match source_of(name) {
                Some(source) => Some(Request::Source { source, query: text::copy(rest) }),
                None => None,
            },
            None => if self.plugin_keywords.contains_key(keyword) {
                Some(Request::Plugin { keyword: text::copy(keyword), query: text::copy(rest) })
            } else {
                None
            },
        }
    }

    /// What a query asks for once aliases are out of the way. `path` is the
    /// path that it stands for, where it is shaped like one.
    pub fn pipeline_rows(&self, raw: &str, path: Option<String>) -> (r: Request)
        ensures
            r@ == pipeline_request(
                self.config.triggers@,
                self.plugin_keywords@,
                raw@,
                text::opt_view(path),
            ),
    {
        if let Some(path) = path {
            return Request::Path { path };
        }
        let t = text::trim(raw);
        match text::split_word(&t) {
            Some((word, rest)) => match self.keyword_rows(&text::to_lowercase(&word), &rest) {
                Some(q) => q,
                None => Request::Text { query: text::copy(raw) },
            },
            None => Request::Text { query: text::copy(raw) },
        }
    }

    /// The one row for an alias that names an item: commands are looked
    /// through first, then apps, then scripts. None where nothing has the id.
    pub fn alias_item_rows(&mut self, id: &str) -> (r: Option<Vec<RowData>>)
        ensures
            old(self).same_but_results(*final(self)),
            match first_with_id(old(self).named_items(), id@) {
                Some(item) => r matches Some(rows) && rows@ == seq![row_of(item)] && final(self).results@ == seq![entry_of(item)],
                None => r is None && final(self).results == old(self).results,
            },
    {
        proof {
            lemma_first_in_concat(self.commands@, self.apps@, id@);
            lemma_first_in_concat(self.commands@ + self.apps@, self.scripts@, id@);
        }
        let found = match find_item(&self.commands, id) {
            Some(i) => Some(i),
            None => match find_item(&self.apps, id) {
                Some(i) => Some(i),
                None => find_item(&self.scripts, id),
            },
        };
        match found {
            Some(item) => {
                let row = row_for(item);
                let entry = entry_for(item);
                self.results = vec![entry];
                Some(vec![row])
            },
            None => None,
        }
    }

    /// How a query is answered. Typing leaves the tour, and one word offers it.
    /// Else aliases come first: one that names an item shows that item alone,
    /// one that stands for text rewrites the query once, and a stale one is
    /// passed over.
    pub fn refresh_results(&mut self, raw: &str) -> (r: Answer)
        ensures
            old(self).same_sources(*final(self)),
            final(self).tour == old(self).tour.left(),
            text::trimmed(raw@) == walkthrough::TOUR_WORD@ ==> {
                &&& r matches Answer::Rows(rows)
                &&& views(rows@) == seq![tour_offer()]
                &&& final(self).results@ == seq![Entry::Tour]
            },
            text::trimmed(raw@) != walkthrough::TOUR_WORD@ ==> ({
                let s = *old(self);
                let trimmed = text::trimmed(raw@);
                match alias_view(s.config.aliases@, s.script_keywords@, trimmed) {
                    AliasView::Item(id) => match first_with_id(s.named_items(), id) {
                        Some(item) => r matches Answer::Rows(rows) && rows@ == seq![row_of(item)]
                            && final(self).results@ == seq![entry_of(item)],
                        None => r matches Answer::Pipeline(q) && q@ == trimmed
                            && final(self).results == s.results,
                    },
                    AliasView::Rewrite(q2) => r matches Answer::Pipeline(q) && q@ == q2
                        && final(self).results == s.results,
                    AliasView::Miss => r matches Answer::Pipeline(q) && q@ == trimmed
                        && final(self).results == s.results,
                }
            }),
    {
        let trimmed = text::trim(raw);
        self.tour.leave();
        if text::same(&trimmed, walkthrough::TOUR_WORD) {
            self.results = vec![Entry::Tour];
            let rows = vec![offer_row()];
            assert(views(rows@) =~= seq![tour_offer()]);
            return Answer::Rows(rows);
        }
        match alias_outcome(&self.config.aliases, &self.script_keywords, &trimmed) {
            AliasOutcome::Item(id) => match self.alias_item_rows(&id) {
                Some(rows) => Answer::Rows(rows),
                None => Answer::Pipeline(trimmed),
            },
            AliasOutcome::Rewrite(q) => Answer::Pipeline(q),
            AliasOutcome::Miss => Answer::Pipeline(trimmed),
        }
    }
}

/// What free text reads as, once the calculator has judged it.
#[derive(Debug, PartialEq, Eq)]
pub enum Intent {
    /// Nothing was typed.
    Empty,
    /// A search for these words.
    Search(String),
    /// A calculation, and its result where it evaluates.
    Calc { expr: String, value: Option<String> },
}

/// How free text is answered: with rows, or by ranking the pool against a
/// query.
#[derive(Debug)]
pub enum TextAnswer {
    Rows(Vec<RowData>),
    Search(String),
}

/// The row of a computed result.
pub open spec fn result_row(result: Seq<char>, asked: Seq<char>) -> RowView {
    RowView { title: result, subtitle: asked + " (press Return to copy)"@ }
}

/// The sources whose rows are items with ids.
#[derive(Clone, Copy, Debug, PartialEq, Eq, Structural)]
pub enum Trigger {
    Clip,
    Window,
    File,
    Menu,
    Plugin,
}

/// The entry of an item from a source.
pub open spec fn trigger_entry(trigger: Trigger, id: String) -> Entry {
    match trigger {
        Trigger::Clip => Entry::Clip { id },
        Trigger::Window => Entry::Window { id },
        Trigger::File => Entry::File { id },
        Trigger::Menu => Entry::Menu { id },
        Trigger::Plugin => Entry::Plugin { id },
    }
}

/// The entry of an item from a source.
fn entry_from(trigger: Trigger, id: String) -> (r: Entry)
    ensures
        r == trigger_entry(trigger, id),
{
    match trigger {
        Trigger::Clip => Entry::Clip { id },
        Trigger::Window => Entry::Window { id },
        Trigger::File => Entry::File { id },
        Trigger::Menu => Entry::Menu { id },
        Trigger::Plugin => Entry::Plugin { id },
    }
}

/// An emoji search hit.
#[derive(Debug, Clone, PartialEq, Eq)]
pub struct EmojiHit {
    pub glyph: String,
    pub name: String,
    pub keywords: String,
}

/// A snippet search hit.
#[derive(Debug, Clone, PartialEq, Eq)]
pub struct SnippetHit {
    pub id: u64,
    pub name: String,
    pub keyword: String,
    pub body: String,
}

/// A quicklink search hit, with its URL filled in.
#[derive(Debug, Clone, PartialEq, Eq)]
pub struct LinkHit {
    pub id: u64,
    pub name: String,
    pub url: String,
}

/// The smaller of two lengths.
pub open spec fn at_most(len: nat, cap: usize) -> nat {
    if len <= cap {
        len
    } else {
        cap as nat
    }
}

/// The row of a snippet: its name, and its keyword with the head of its body.
pub open spec fn snippet_row(hit: SnippetHit) -> RowView {
    let head = hit.body@.take(at_most(hit.body@.len(), 40) as int);
    RowView { title: hit.name@, subtitle: hit.keyword@ + " \u{b7} "@ + head }
}

/// The row of an emoji: glyph and name, and the keywords it is found by.
pub open spec fn emoji_row(hit: EmojiHit) -> RowView {
    RowView { title: hit.glyph@ + " "@ + hit.name@, subtitle: hit.keywords@ }
}

/// The row that offers the tour.
pub open spec fn tour_offer() -> RowView {
    RowView { title: walkthrough::OFFER_TITLE@, subtitle: walkthrough::OFFER_SUBTITLE@ }
}

/// The row that offers the tour.
fn offer_row() -> (r: RowData)
    ensures
        r@ == tour_offer(),
{
    RowData::new(walkthrough::OFFER_TITLE, walkthrough::OFFER_SUBTITLE)
}

/// Whether an entry stands for an action on a path.
pub open spec fn acts_on_path(entry: Entry, action: pathnav::ActionView) -> bool {
    entry matches Entry::Path { action: a } && a@ == action
}

/// The row of a quicklink: its name and the filled URL.
pub open spec fn link_row(hit: LinkHit) -> RowView {
    RowView { title: hit.name@, subtitle: hit.url@ }
}

impl Engine {
    /// Answers free text. A developer transform comes first, where the text
    /// is one and gives something; then a calculation that evaluates; all
    /// else is a search.
    pub fn text_rows(&mut self, raw: &str, transform: Option<String>, intent: Intent) -> (r:
        TextAnswer)
        ensures
            old(self).same_but_results(*final(self)),
            match transform {
                Some(out) => r matches TextAnswer::Rows(rows) && rows@.len() == 1 && rows@[0]@
                    == result_row(out@, text::trimmed(raw@)) && final(self).results@
                    == seq![Entry::Calc { display: out }],
                None => match intent {
                    Intent::Empty => r matches TextAnswer::Search(q) && q@.len() == 0 && final(
                        self).results == old(self).results,
                    Intent::Search(words) => r == TextAnswer::Search(words) && final(self).results
                        == old(self).results,
                    Intent::Calc { expr, value: Some(v) } => r matches TextAnswer::Rows(rows)
                        && rows@.len() == 1 && rows@[0]@ == result_row(v@, expr@) && final(
                        self).results@ == seq![Entry::Calc { display: v }],
                    Intent::Calc { expr, value: None } => r == TextAnswer::Search(expr) && final(
                        self).results == old(self).results,
                },
            },
    {
        match transform {
            Some(out) => {
                let t = text::trim(raw);
                let row = RowData {
                    title: text::copy(&out),
                    subtitle: text::join(&t, " (press Return to copy)"),
                };
                self.results = vec![Entry::Calc { display: out }];
                TextAnswer::Rows(vec![row])
            },
            None => match intent {
                Intent::Empty => TextAnswer::Search(String::new()),
                Intent::Search(words) => TextAnswer::Search(words),
                Intent::Calc { expr, value: Some(v) } => {
                    let row = RowData {
                        title: text::copy(&v),
                        subtitle: text::join(&expr, " (press Return to copy)"),
                    };
                    self.results = vec![Entry::Calc { display: v }];
                    TextAnswer::Rows(vec![row])
                },
                Intent::Calc { expr, value: None } => TextAnswer::Search(expr),
            },
        }
    }

    /// The items that a search ranks: apps, commands and scripts.
    pub fn pool(&self) -> (r: Vec<Item>)
        ensures
            r@ == self.pool_items(),
    {
        let mut out: Vec<Item> = Vec::new();
        push_items(&mut out, &self.apps);
        push_items(&mut out, &self.commands);
        push_items(&mut out, &self.scripts);
        assert(out@ =~= self.pool_items());
        out
    }

    /// Lists the best of the items that are ranked for a query, as many as the
    /// config shows. Where the query offers the tour, that row stands in front
    /// of them.
    pub fn search_rows(&mut self, query: &str, ranked: &Vec<Item>) -> (rows: Vec<RowData>)
        ensures
            old(self).same_but_results(*final(self)),
            ({
                let lead: int = if old(self).tour.offers(query@) {
                    1
                } else {
                    0
                };
                &&& rows@.len() == at_most(
                    (lead + ranked@.len()) as nat,
                    old(self).config.max_results,
                )
                &&& final(self).results@.len() == rows@.len()
                &&& lead == 1 && rows@.len() > 0 ==> rows@[0]@ == tour_offer()
                &&& lead == 1 && rows@.len() > 0 ==> final(self).results@[0] == Entry::Tour
                &&& forall|i: int|
                    lead <= i < rows@.len() ==> #[trigger] rows@[i] == row_of(ranked@[i - lead])
                &&& forall|i: int|
                    lead <= i < rows@.len() ==> #[trigger] final(self).results@[i] == entry_of(
                        ranked@[i - lead],
                    )
            }),
    {
        let mut rows: Vec<RowData> = Vec::new();
        let mut results: Vec<Entry> = Vec::new();
        let offered = self.tour.is_offered(query);
        let ghost lead: int = if offered {
            1
        } else {
            0
        };
        if offered && self.config.max_results > 0 {
            rows.push(offer_row());
            results.push(Entry::Tour);
        }
        let mut i: usize = 0;
        while i < ranked.len() && rows.len() < self.config.max_results
            invariant
                i <= ranked@.len(),
                0 <= lead <= 1,
                self.config.max_results > 0 ==> rows@.len() == i + lead,
                self.config.max_results == 0 ==> rows@.len() == 0 && i == 0,
                rows@.len() <= self.config.max_results,
                results@.len() == rows@.len(),
                lead == 1 && rows@.len() > 0 ==> rows@[0]@ == tour_offer() && results@[0]
                    == Entry::Tour,
                forall|k: int|
                    lead <= k < rows@.len() ==> #[trigger] rows@[k] == row_of(ranked@[k - lead]),
                forall|k: int|
                    lead <= k < results@.len() ==> #[trigger] results@[k] == entry_of(
                        ranked@[k - lead],
                    ),
            decreases ranked@.len() - i,
        {
            rows.push(row_for(&ranked[i]));
            results.push(entry_for(&ranked[i]));
            i = i + 1;
        }
        self.results = results;
        rows
    }

    /// Lists what a source gave, in the source's own order.
    pub fn trigger_rows(&mut self, items: &Vec<Item>, trigger: Trigger) -> (rows: Vec<RowData>)
        ensures
            old(self).same_but_results(*final(self)),
            rows@.len() == items@.len(),
            final(self).results@.len() == items@.len(),
            forall|i: int| 0 <= i < rows@.len() ==> #[trigger] rows@[i] == row_of(items@[i]),
            forall|i: int|
                0 <= i < rows@.len() ==> #[trigger] final(self).results@[i] == trigger_entry(
                    trigger,
                    items@[i].id,
                ),
    {
        let mut rows: Vec<RowData> = Vec::new();
        let mut results: Vec<Entry> = Vec::new();
        let mut i: usize = 0;
        while i < items.len()
            invariant
                i <= items@.len(),
                rows@.len() == i,
                results@.len() == i,
                forall|k: int| 0 <= k < i ==> #[trigger] rows@[k] == row_of(items@[k]),
                forall|k: int|
                    0 <= k < i ==> #[trigger] results@[k] == trigger_entry(trigger, items@[k].id),
            decreases items@.len() - i,
        {
            rows.push(row_for(&items[i]));
            results.push(entry_from(trigger, items[i].id.clone()));
            i = i + 1;
        }
        self.results = results;
        rows
    }

    /// Lists file search hits. A search that finds nothing while the index is
    /// still being built says so, in a row that activating does nothing for.
    pub fn file_rows(&mut self, items: &Vec<Item>, query: &str, ready: bool) -> (rows: Vec<RowData>)
        ensures
            old(self).same_but_results(*final(self)),
            final(self).results@.len() == items@.len(),
            forall|i: int|
                0 <= i < items@.len() ==> #[trigger] final(self).results@[i] == (Entry::File {
                    id: items@[i].id,
                }),
            if items@.len() == 0 && query@.len() > 0 && !ready {
                rows@.len() == 1 && rows@[0]@ == (RowView {
                    title: "Indexing files..."@,
                    subtitle: "results appear as the walk finishes"@,
                })
            } else {
                rows@.len() == items@.len() && forall|i: int|
                    0 <= i < rows@.len() ==> #[trigger] rows@[i] == row_of(items@[i])
            },
    {
        let mut rows = self.trigger_rows(items, Trigger::File);
        if rows.len() == 0 && !query.is_empty() && !ready {
            rows.push(RowData::new("Indexing files...", "results appear as the walk finishes"));
        }
        rows
    }

    /// Lists what a path leads to, as many rows as the config shows.
    pub fn path_rows(&mut self, found: pathnav::Found) -> (rows: Vec<RowData>)
        ensures
            old(self).same_but_results(*final(self)),
            ({
                let view = pathnav::found_view(found, old(self).config.max_results);
                &&& rows@.len() == view.len()
                &&& final(self).results@.len() == view.len()
                &&& forall|i: int|
                    0 <= i < rows@.len() ==> #[trigger] rows@[i]@ == (RowView {
                        title: view[i].title,
                        subtitle: view[i].subtitle,
                    })
                &&& forall|i: int|
                    0 <= i < rows@.len() ==> acts_on_path(
                        #[trigger] final(self).results@[i],
                        view[i].action,
                    )
            }),
    {
        let found = pathnav::found_rows(found, self.config.max_results);
        let ghost view = views(found@);
        let mut rows: Vec<RowData> = Vec::new();
        let mut results: Vec<Entry> = Vec::new();
        let mut i: usize = 0;
        while i < found.len()
            invariant
                i <= found@.len(),
                rows@.len() == i,
                results@.len() == i,
                view == views(found@),
                forall|k: int|
                    0 <= k < i ==> #[trigger] rows@[k]@ == (RowView {
                        title: view[k].title,
                        subtitle: view[k].subtitle,
                    }),
                forall|k: int|
                    0 <= k < i ==> acts_on_path(#[trigger] results@[k], view[k].action),
            decreases found@.len() - i,
        {
            let f = &found[i];
            assert(view[i as int] == f@);
            rows.push(RowData::new(&f.title, &f.subtitle));
            results.push(Entry::Path { action: f.action.copied() });
            i = i + 1;
        }
        self.results = results;
        rows
    }

    /// Lists emoji search hits.
    pub fn emoji_rows(&mut self, hits: &Vec<EmojiHit>) -> (rows: Vec<RowData>)
        ensures
            old(self).same_but_results(*final(self)),
            rows@.len() == hits@.len(),
            final(self).results@.len() == hits@.len(),
            forall|i: int| 0 <= i < rows@.len() ==> #[trigger] rows@[i]@ == emoji_row(hits@[i]),
            forall|i: int|
                0 <= i < rows@.len() ==> #[trigger] final(self).results@[i] == (Entry::Emoji {
                    glyph: hits@[i].glyph,
                }),
    {
        let mut rows: Vec<RowData> = Vec::new();
        let mut results: Vec<Entry> = Vec::new();
        let mut i: usize = 0;
        while i < hits.len()
            invariant
                i <= hits@.len(),
                rows@.len() == i,
                results@.len() == i,
                forall|k: int| 0 <= k < i ==> #[trigger] rows@[k]@ == emoji_row(hits@[k]),
                forall|k: int|
                    0 <= k < i ==> #[trigger] results@[k] == (Entry::Emoji {
                        glyph: hits@[k].glyph,
                    }),
            decreases hits@.len() - i,
        {
            let e = &hits[i];
            rows.push(
                RowData {
                    title: text::join3(&e.glyph, " ", &e.name),
                    subtitle: text::copy(&e.keywords),
                },
            );
            results.push(Entry::Emoji { glyph: e.glyph.clone() });
            i = i + 1;
        }
        self.results = results;
        rows
    }

    /// Lists snippet search hits, as many as the config shows.
    pub fn snippet_rows(&mut self, hits: &Vec<SnippetHit>) -> (rows: Vec<RowData>)
        ensures
            old(self).same_but_results(*final(self)),
            rows@.len() == at_most(hits@.len(), old(self).config.max_results),
            final(self).results@.len() == rows@.len(),
            forall|i: int| 0 <= i < rows@.len() ==> #[trigger] rows@[i]@ == snippet_row(hits@[i]),
            forall|i: int|
                0 <= i < rows@.len() ==> #[trigger] final(self).results@[i] == (Entry::Snippet {
                    id: hits@[i].id,
                }),
    {
        let mut rows: Vec<RowData> = Vec::new();
        let mut results: Vec<Entry> = Vec::new();
        let mut i: usize = 0;
        while i < hits.len() && i < self.config.max_results
            invariant
                i <= at_most(hits@.len(), self.config.max_results),
                rows@.len() == i,
                results@.len() == i,
                forall|k: int| 0 <= k < i ==> #[trigger] rows@[k]@ == snippet_row(hits@[k]),
                forall|k: int|
                    0 <= k < i ==> #[trigger] results@[k] == (Entry::Snippet { id: hits@[k].id }),
            decreases hits@.len() - i,
        {
            let s = &hits[i];
            let head = text::head(&s.body, 40);
            rows.push(
                RowData {
                    title: text::copy(&s.name),
                    subtitle: text::join3(&s.keyword, " \u{b7} ", &head),
                },
            );
            results.push(Entry::Snippet { id: s.id });
            i = i + 1;
        }
        self.results = results;
        rows
    }

    /// Lists quicklink search hits, as many as the config shows.
    pub fn quicklink_rows(&mut self, hits: &Vec<LinkHit>) -> (rows: Vec<RowData>)
        ensures
            old(self).same_but_results(*final(self)),
            rows@.len() == at_most(hits@.len(), old(self).config.max_results),
            final(self).results@.len() == rows@.len(),
            forall|i: int| 0 <= i < rows@.len() ==> #[trigger] rows@[i]@ == link_row(hits@[i]),
            forall|i: int|
                0 <= i < rows@.len() ==> #[trigger] final(self).results@[i] == (Entry::Link {
                    id: hits@[i].id,
                    url: hits@[i].url,
                }),
    {
        let mut rows: Vec<RowData> = Vec::new();
        let mut results: Vec<Entry> = Vec::new();
        let mut i: usize = 0;
        while i < hits.len() && i < self.config.max_results
            invariant
                i <= at_most(hits@.len(), self.config.max_results),
                rows@.len() == i,
                results@.len() == i,
                forall|k: int| 0 <= k < i ==> #[trigger] rows@[k]@ == link_row(hits@[k]),
                forall|k: int|
                    0 <= k < i ==> #[trigger] results@[k] == (Entry::Link {
                        id: hits@[k].id,
                        url: hits@[k].url,
                    }),
            decreases hits@.len() - i,
        {
            let q = &hits[i];
            rows.push(RowData::new(&q.name, &q.url));
            results.push(Entry::Link { id: q.id, url: q.url.clone() });
            i = i + 1;
        }
        self.results = results;
        rows
    }
}

/// How the tour goes on.
#[derive(Debug, PartialEq, Eq)]
pub enum TourMove {
    /// The panel shows a step: its rows.
    Step(Vec<RowData>),
    /// The tour is finished.
    Finished,
}

impl Engine {
    /// Begins the tour or goes on with it, and lists the step that it comes to.
    /// The first row of a step goes on; the others only say something.
    pub fn go_on_tour(&mut self) -> (r: TourMove)
        ensures
            old(self).same_sources(*final(self)),
            final(self).tour == old(self).tour.gone_on(),
            match final(self).tour.step {
                Some(i) if i < walkthrough::tour().len() => {
                    let step = walkthrough::rows_of(i as int);
                    &&& r matches TourMove::Step(rows)
                    &&& rows@.len() == step.len()
                    &&& final(self).results@.len() == step.len()
                    &&& forall|k: int|
                        0 <= k < rows@.len() ==> #[trigger] rows@[k]@ == (RowView {
                            title: step[k].0,
                            subtitle: step[k].1,
                        })
                    &&& forall|k: int|
                        0 <= k < rows@.len() ==> #[trigger] final(self).results@[k] == (
                        if step[k].2 {
                            Entry::Tour
                        } else {
                            Entry::Hint
                        })
                },
                _ => r is Finished && final(self).results@.len() == 0,
            },
    {
        self.tour.go_on();
        let mut rows: Vec<RowData> = Vec::new();
        let mut results: Vec<Entry> = Vec::new();
        let step = match self.tour.step {
            Some(i) => walkthrough::step_rows(i),
            None => None,
        };
        let lines = match step {
            Some(lines) => lines,
            None => {
                self.results = results;
                return TourMove::Finished;
            },
        };
        let ghost shown = views(lines@);
        let mut k: usize = 0;
        while k < lines.len()
            invariant
                k <= lines@.len(),
                shown == views(lines@),
                rows@.len() == k,
                results@.len() == k,
                forall|j: int|
                    0 <= j < k ==> #[trigger] rows@[j]@ == (RowView {
                        title: shown[j].0,
                        subtitle: shown[j].1,
                    }),
                forall|j: int|
                    0 <= j < k ==> #[trigger] results@[j] == (if shown[j].2 {
                        Entry::Tour
                    } else {
                        Entry::Hint
                    }),
            decreases lines@.len() - k,
        {
            let line = &lines[k];
            assert(shown[k as int] == line@);
            rows.push(RowData::new(&line.0, &line.1));
            if line.2 {
                results.push(Entry::Tour);
            } else {
                results.push(Entry::Hint);
            }
            k = k + 1;
        }
        self.results = results;
        TourMove::Step(rows)
    }
}

/// Appends copies of items.
fn push_items(out: &mut Vec<Item>, items: &Vec<Item>)
    ensures
        final(out)@ == old(out)@ + items@,
{
    let ghost before = out@;
    let mut i: usize = 0;
    assert(before + items@.take(0) =~= before);
    while i < items.len()
        invariant
            i <= items@.len(),
            out@ == before + items@.take(i as int),
        decreases items@.len() - i,
    {
        out.push(items[i].copied());
        i = i + 1;
        assert(before + items@.take(i as int) =~= (before + items@.take(i - 1)).push(
            items@[i - 1],
        ));
    }
    assert(items@.take(i as int) =~= items@);
}

/// What a quicklink query splits into: the first word picks the link, the rest
/// fills it.
pub open spec fn quicklink_parts(query: Seq<char>) -> (Seq<char>, Seq<char>) {
    match text::split_at_space(query) {
        Some((name, rest)) => (name, text::trimmed(rest)),
        None => (query, Seq::empty()),
    }
}

/// Splits a quicklink query: the first word picks the link, the rest fills it.
pub fn quicklink_query(query: &str) -> (r: (String, String))
    ensures
        (r.0@, r.1@) == quicklink_parts(query@),
{
    match text::split_space(query) {
        Some((name, rest)) => (name, text::trim(&rest)),
        None => (text::copy(query), String::new()),
    }
}

/// The work that a row asks for, done by the program. What follows from its
/// outcome is said by [`follow`].
#[derive(Debug, PartialEq, Eq)]
pub enum Work {
    /// Launch the app at `path`.
    Launch { id: String, path: String },
    /// Put `text` on the clipboard.
    Copy { text: String, next: AfterCopy },
    /// Run a window action.
    WindowAction { id: String },
    /// Run a setup step.
    Setup { id: String },
    /// Run a system command.
    System { id: String },
    /// Put a history entry on the clipboard.
    Clip { id: String },
    /// Focus a window.
    Focus { id: String },
    /// Open a file.
    File { id: String },
    /// Press a menu item.
    Menu { id: String },
    /// Expand a snippet.
    Expand { id: u64 },
    /// Run a script.
    Script { id: String },
    /// Ask a plugin.
    Plugin { id: String },
    /// Open a URL, that of quicklink `link` where it is one.
    Open { url: String, link: Option<u64> },
    /// Open a path with its default app.
    OpenPath { path: String },
    /// Select a path in a Finder window.
    Reveal { path: String },
    /// Preview a path.
    QuickLook { path: String },
    /// Make the query that browses on into a path.
    Drill { path: String },
    /// Go on with the tour.
    Tour,
}

/// What follows once a text is on the clipboard.
#[derive(Debug, PartialEq, Eq)]
pub enum AfterCopy {
    /// The panel goes away.
    Hide,
    /// The panel goes away and the text is pasted into the frontmost app.
    Paste,
    /// A use of `id` is recorded, and the panel goes away.
    Record { id: String },
}

/// Something to do at once, without an outcome that matters.
#[derive(Debug, PartialEq, Eq)]
pub enum Effect {
    /// Record a use of an item now.
    RecordUse(String),
    /// Record a use of a snippet now.
    RecordSnippet(u64),
    /// Record a use of a quicklink.
    RecordLink(u64),
    /// Tell the clipboard watcher that the last write was beckon's own.
    NoteOwnWrite,
    /// Hide the panel and clear the query.
    Dismiss,
    /// Paste into the frontmost app.
    Paste,
    /// Put this query into the panel and list its rows.
    SetQuery(String),
    /// Empty the query and show these rows.
    ShowRows(Vec<RowData>),
    /// Empty the query and list what the empty panel lists.
    ClearQuery,
    /// Record that the tour was finished.
    MarkTourDone,
    /// Offer the prompt for the Accessibility permission.
    OfferTrust,
    /// Report a failure.
    Report(Failure),
}

/// What went wrong during an activation.
#[derive(Debug, PartialEq, Eq)]
pub enum Failure {
    Launch(String),
    Pasteboard,
    Command { id: String, error: String },
    Clip(String),
    Focus(String),
    File(String),
    Menu(String),
    SnippetGone(u64),
    Expansion(String),
    Script { id: String, error: String },
    Url(String),
    Plugin(String),
    Paste(String),
    Reveal(String),
    QuickLook(String),
}

/// The line that reports a failure.
pub open spec fn failure_line(f: Failure) -> Seq<char> {
    match f {
        Failure::Launch(e) => "beckon: launch failed: "@ + e@,
        Failure::Pasteboard => "beckon: pasteboard write failed"@,
        Failure::Command { id, error } => "beckon: command "@ + id@ + (" failed: "@ + error@),
        Failure::Clip(e) => "beckon: clipboard copy failed: "@ + e@,
        Failure::Focus(e) => "beckon: window focus failed: "@ + e@,
        Failure::File(e) => "beckon: open failed: "@ + e@,
        Failure::Menu(e) => "beckon: menu press failed: "@ + e@,
        Failure::SnippetGone(id) => "beckon: snippet "@ + text::decimal(id as nat) + " vanished"@,
        Failure::Expansion(e) => "beckon: snippet expansion failed: "@ + e@,
        Failure::Script { id, error } => "beckon: script "@ + id@ + (" failed: "@ + error@),
        Failure::Url(url) => "beckon: could not open "@ + url@,
        Failure::Plugin(e) => "beckon: plugin activation failed: "@ + e@,
        Failure::Paste(e) => "beckon: paste skipped: "@ + e@,
        Failure::Reveal(path) => "beckon: could not reveal "@ + path@,
        Failure::QuickLook(e) => "beckon: quick look failed: "@ + e@,
    }
}

impl Failure {
    /// The line that reports the failure.
    pub fn line(&self) -> (r: String)
        ensures
            r@ == failure_line(*self),
    {
        match self {
            Failure::Launch(e) => text::join("beckon: launch failed: ", e),
            Failure::Pasteboard => text::copy("beckon: pasteboard write failed"),
            Failure::Command { id, error } => text::join3(
                "beckon: command ",
                id,
                &text::join(" failed: ", error),
            ),
            Failure::Clip(e) => text::join("beckon: clipboard copy failed: ", e),
            Failure::Focus(e) => text::join("beckon: window focus failed: ", e),
            Failure::File(e) => text::join("beckon: open failed: ", e),
            Failure::Menu(e) => text::join("beckon: menu press failed: ", e),
            Failure::SnippetGone(id) => text::join3(
                "beckon: snippet ",
                &text::decimal_of(*id),
                " vanished",
            ),
            Failure::Expansion(e) => text::join("beckon: snippet expansion failed: ", e),
            Failure::Script { id, error } => text::join3(
                "beckon: script ",
                id,
                &text::join(" failed: ", error),
            ),
            Failure::Url(url) => text::join("beckon: could not open ", url),
            Failure::Plugin(e) => text::join("beckon: plugin activation failed: ", e),
            Failure::Paste(e) => text::join("beckon: paste skipped: ", e),
            Failure::Reveal(path) => text::join("beckon: could not reveal ", path),
            Failure::QuickLook(e) => text::join("beckon: quick look failed: ", e),
        }
    }
}

/// The work that an entry asks for, if any.
pub open spec fn work_of(entry: Entry) -> Option<Work> {
    match entry {
        Entry::App { id, path } => Some(Work::Launch { id, path }),
        Entry::Calc { display } => Some(Work::Copy { text: display, next: AfterCopy::Hide }),
        Entry::Command { id } => Some(
            if "window."@.is_prefix_of(id@) {
                Work::WindowAction { id }
            } else if "onboarding."@.is_prefix_of(id@) {
                Work::Setup { id }
            } else {
                Work::System { id }
            },
        ),
        Entry::Clip { id } => Some(Work::Clip { id }),
        Entry::Window { id } => Some(Work::Focus { id }),
        Entry::File { id } => Some(Work::File { id }),
        Entry::Menu { id } => Some(Work::Menu { id }),
        Entry::Emoji { glyph } => Some(Work::Copy { text: glyph, next: AfterCopy::Paste }),
        Entry::Snippet { id } => Some(Work::Expand { id }),
        Entry::Link { id, url } => Some(Work::Open { url, link: Some(id) }),
        Entry::Script { id } => Some(Work::Script { id }),
        Entry::Plugin { id } => Some(Work::Plugin { id }),
        Entry::Path { action } => path_work(action),
        Entry::Tour => Some(Work::Tour),
        Entry::Hint => None,
    }
}

/// The work that an action on a path asks for: a hint asks for none.
pub open spec fn path_work(action: PathAction) -> Option<Work> {
    match action {
        PathAction::Open(path) => Some(Work::OpenPath { path }),
        PathAction::Reveal(path) => Some(Work::Reveal { path }),
        PathAction::QuickLook(path) => Some(Work::QuickLook { path }),
        PathAction::CopyPath(path) => Some(Work::Copy { text: path, next: AfterCopy::Hide }),
        PathAction::Drill(path) => Some(Work::Drill { path }),
        PathAction::Nothing => None,
    }
}

/// The work that an action on a path asks for.
fn work_on_path(action: PathAction) -> (r: Option<Work>)
    ensures
        r == path_work(action),
{
    match action {
        PathAction::Open(path) => Some(Work::OpenPath { path }),
        PathAction::Reveal(path) => Some(Work::Reveal { path }),
        PathAction::QuickLook(path) => Some(Work::QuickLook { path }),
        PathAction::CopyPath(path) => Some(Work::Copy { text: path, next: AfterCopy::Hide }),
        PathAction::Drill(path) => Some(Work::Drill { path }),
        PathAction::Nothing => None,
    }
}

impl Engine {
    /// The work that activating the row at `index` asks for. A row without an
    /// entry asks for nothing, and neither does a hint.
    pub fn handle_activate(&self, index: usize) -> (r: Option<Work>)
        ensures
            r == (if index < self.results@.len() {
                work_of(self.results@[index as int])
            } else {
                None
            }),
    {
        if index >= self.results.len() {
            return None;
        }
        match self.results[index].copied() {
            Entry::App { id, path } => Some(Work::Launch { id, path }),
            Entry::Calc { display } => Some(Work::Copy { text: display, next: AfterCopy::Hide }),
            Entry::Command { id } => if text::starts_with(&id, "window.") {
                Some(Work::WindowAction { id })
            } else if text::starts_with(&id, "onboarding.") {
                Some(Work::Setup { id })
            } else {
                Some(Work::System { id })
            },
            Entry::Clip { id } => Some(Work::Clip { id }),
            Entry::Window { id } => Some(Work::Focus { id }),
            Entry::File { id } => Some(Work::File { id }),
            Entry::Menu { id } => Some(Work::Menu { id }),
            Entry::Emoji { glyph } => Some(Work::Copy { text: glyph, next: AfterCopy::Paste }),
            Entry::Snippet { id } => Some(Work::Expand { id }),
            Entry::Link { id, url } => Some(Work::Open { url, link: Some(id) }),
            Entry::Script { id } => Some(Work::Script { id }),
            Entry::Plugin { id } => Some(Work::Plugin { id }),
            Entry::Path { action } => work_on_path(action),
            Entry::Tour => Some(Work::Tour),
            Entry::Hint => None,
        }
    }
}

/// What came of a piece of work.
#[derive(Debug, PartialEq, Eq)]
pub enum Outcome {
    /// It was done, or failed for this reason.
    Ran(Result<(), String>),
    /// Whether the clipboard took the text.
    Copied(bool),
    /// What a snippet expanded to.
    Expanded(Expansion),
    /// What a script put out, or why it failed.
    Scripted(Result<String, String>),
    /// What a plugin wants done, or why it does not answer.
    Answered(Result<PluginAction, String>),
    /// Whether the URL or the path was opened, or the path revealed.
    Opened(bool),
    /// The query that browses on.
    Drilled(String),
    /// What the tour came to.
    Toured(TourMove),
}

/// What came of expanding a snippet.
#[derive(Debug, PartialEq, Eq)]
pub enum Expansion {
    /// The snippet is no longer there.
    Gone,
    /// Its body does not expand.
    Failed(String),
    /// The expanded text.
    Text(String),
}

/// Whether an outcome is one that the work can have.
pub open spec fn fits(work: Work, outcome: Outcome) -> bool {
    match work {
        Work::Copy { .. } => outcome is Copied,
        Work::Expand { .. } => outcome is Expanded,
        Work::Script { .. } => outcome is Scripted,
        Work::Plugin { .. } => outcome is Answered,
        Work::Open { .. } => outcome is Opened,
        Work::OpenPath { .. } => outcome is Opened,
        Work::Reveal { .. } => outcome is Opened,
        Work::Drill { .. } => outcome is Drilled,
        Work::Tour => outcome is Toured,
        _ => outcome is Ran,
    }
}

/// What follows a launch: a recorded use and the panel gone, or a report and
/// the panel left up.
pub open spec fn launched(id: String, outcome: Result<(), String>) -> Seq<Effect> {
    match outcome {
        Ok(_) => seq![Effect::RecordUse(id), Effect::Dismiss],
        Err(e) => seq![Effect::Report(Failure::Launch(e))],
    }
}

/// What follows a launch.
pub fn after_launch(id: String, outcome: Result<(), String>) -> (r: Vec<Effect>)
    ensures
        r@ == launched(id, outcome),
{
    match outcome {
        Ok(_) => vec![Effect::RecordUse(id), Effect::Dismiss],
        Err(e) => vec![Effect::Report(Failure::Launch(e))],
    }
}

/// What follows a write to the clipboard.
pub open spec fn copied_effects(next: AfterCopy, copied: bool) -> Seq<Effect> {
    if !copied {
        seq![Effect::Report(Failure::Pasteboard)]
    } else {
        match next {
            AfterCopy::Hide => seq![Effect::NoteOwnWrite, Effect::Dismiss],
            AfterCopy::Paste => seq![Effect::NoteOwnWrite, Effect::Dismiss, Effect::Paste],
            AfterCopy::Record { id } => seq![
                Effect::NoteOwnWrite,
                Effect::RecordUse(id),
                Effect::Dismiss,
            ],
        }
    }
}

/// What follows a write to the clipboard. The panel hides before a paste, so
/// that the keystroke reaches the app that the user is in.
pub fn after_copy(next: AfterCopy, copied: bool) -> (r: Vec<Effect>)
    ensures
        r@ == copied_effects(next, copied),
{
    if !copied {
        return vec![Effect::Report(Failure::Pasteboard)];
    }
    match next {
        AfterCopy::Hide => vec![Effect::NoteOwnWrite, Effect::Dismiss],
        AfterCopy::Paste => vec![Effect::NoteOwnWrite, Effect::Dismiss, Effect::Paste],
        AfterCopy::Record { id } => vec![
            Effect::NoteOwnWrite,
            Effect::RecordUse(id),
            Effect::Dismiss,
        ],
    }
}

/// What follows a command, given whether the Accessibility permission is
/// granted.
pub open spec fn commanded(id: String, outcome: Result<(), String>, trusted: bool) -> Seq<Effect> {
    match outcome {
        Ok(_) => seq![Effect::RecordUse(id), Effect::Dismiss],
        Err(error) => if "window."@.is_prefix_of(id@) && !trusted {
            seq![Effect::Report(Failure::Command { id, error }), Effect::OfferTrust]
        } else {
            seq![Effect::Report(Failure::Command { id, error })]
        },
    }
}

/// What follows a command. A window action that failed for want of the
/// Accessibility permission offers the prompt for it.
pub fn after_command(id: String, outcome: Result<(), String>, trusted: bool) -> (r: Vec<Effect>)
    ensures
        r@ == commanded(id, outcome, trusted),
{
    match outcome {
        Ok(_) => vec![Effect::RecordUse(id), Effect::Dismiss],
        Err(error) => {
            let offer = text::starts_with(&id, "window.") && !trusted;
            let mut out = vec![Effect::Report(Failure::Command { id, error })];
            if offer {
                out.push(Effect::OfferTrust);
            }
            out
        },
    }
}

/// What follows putting a history entry on the clipboard.
pub open spec fn clipped(outcome: Result<(), String>) -> Seq<Effect> {
    match outcome {
        Ok(_) => seq![Effect::Dismiss, Effect::Paste],
        Err(e) => seq![Effect::Report(Failure::Clip(e))],
    }
}

/// What follows putting a history entry on the clipboard: the panel hides and
/// the entry is pasted.
pub fn after_clip(outcome: Result<(), String>) -> (r: Vec<Effect>)
    ensures
        r@ == clipped(outcome),
{
    match outcome {
        Ok(_) => vec![Effect::Dismiss, Effect::Paste],
        Err(e) => vec![Effect::Report(Failure::Clip(e))],
    }
}

/// What follows work that leaves nothing else to do: the panel goes away, or
/// the failure is reported.
pub open spec fn finished(outcome: Result<(), String>, failure: spec_fn(String) -> Failure) -> Seq<
    Effect,
> {
    match outcome {
        Ok(_) => seq![Effect::Dismiss],
        Err(e) => seq![Effect::Report(failure(e))],
    }
}

/// What follows focusing a window.
pub fn after_focus(outcome: Result<(), String>) -> (r: Vec<Effect>)
    ensures
        r@ == finished(outcome, |e: String| Failure::Focus(e)),
{
    match outcome {
        Ok(_) => vec![Effect::Dismiss],
        Err(e) => vec![Effect::Report(Failure::Focus(e))],
    }
}

/// What follows opening a file.
pub fn after_file(outcome: Result<(), String>) -> (r: Vec<Effect>)
    ensures
        r@ == finished(outcome, |e: String| Failure::File(e)),
{
    match outcome {
        Ok(_) => vec![Effect::Dismiss],
        Err(e) => vec![Effect::Report(Failure::File(e))],
    }
}

/// What follows pressing a menu item.
pub fn after_menu(outcome: Result<(), String>) -> (r: Vec<Effect>)
    ensures
        r@ == finished(outcome, |e: String| Failure::Menu(e)),
{
    match outcome {
        Ok(_) => vec![Effect::Dismiss],
        Err(e) => vec![Effect::Report(Failure::Menu(e))],
    }
}

/// What follows expanding a snippet.
pub open spec fn expanded(id: u64, outcome: Expansion) -> (Seq<Effect>, Option<Work>) {
    match outcome {
        Expansion::Gone => (seq![Effect::Report(Failure::SnippetGone(id))], None),
        Expansion::Failed(e) => (seq![Effect::Report(Failure::Expansion(e))], None),
        Expansion::Text(t) => (
            seq![Effect::RecordSnippet(id)],
            Some(Work::Copy { text: t, next: AfterCopy::Paste }),
        ),
    }
}

/// What follows expanding a snippet: its use is recorded before the text is
/// copied and pasted.
pub fn after_expand(id: u64, outcome: Expansion) -> (r: (Vec<Effect>, Option<Work>))
    ensures
        (r.0@, r.1) == expanded(id, outcome),
{
    match outcome {
        Expansion::Gone => (vec![Effect::Report(Failure::SnippetGone(id))], None),
        Expansion::Failed(e) => (vec![Effect::Report(Failure::Expansion(e))], None),
        Expansion::Text(t) => (
            vec![Effect::RecordSnippet(id)],
            Some(Work::Copy { text: t, next: AfterCopy::Paste }),
        ),
    }
}

/// What follows a script.
pub open spec fn scripted(id: String, outcome: Result<String, String>) -> (
    Seq<Effect>,
    Option<Work>,
) {
    match outcome {
        Ok(out) => if out@.len() == 0 {
            (seq![Effect::RecordUse(id), Effect::Dismiss], None)
        } else {
            (Seq::empty(), Some(Work::Copy { text: out, next: AfterCopy::Record { id } }))
        },
        Err(error) => (seq![Effect::Report(Failure::Script { id, error })], None),
    }
}

/// What follows a script: output goes to the clipboard, silence ends it, and
/// a failure leaves the panel up.
pub fn after_script(id: String, outcome: Result<String, String>) -> (r: (Vec<Effect>, Option<Work>))
    ensures
        (r.0@, r.1) == scripted(id, outcome),
{
    match outcome {
        Ok(out) => if out.as_str().is_empty() {
            (vec![Effect::RecordUse(id), Effect::Dismiss], None)
        } else {
            (Vec::new(), Some(Work::Copy { text: out, next: AfterCopy::Record { id } }))
        },
        Err(error) => (vec![Effect::Report(Failure::Script { id, error })], None),
    }
}

/// What follows a plugin's answer.
pub open spec fn answered(outcome: Result<PluginAction, String>) -> (Seq<Effect>, Option<Work>) {
    match outcome {
        Ok(PluginAction::Nothing) => (seq![Effect::Dismiss], None),
        Ok(PluginAction::Copy(t)) => (
            Seq::empty(),
            Some(Work::Copy { text: t, next: AfterCopy::Hide }),
        ),
        Ok(PluginAction::Paste(t)) => (
            Seq::empty(),
            Some(Work::Copy { text: t, next: AfterCopy::Paste }),
        ),
        Ok(PluginAction::Open(url)) => (Seq::empty(), Some(Work::Open { url, link: None })),
        Err(e) => (seq![Effect::Report(Failure::Plugin(e))], None),
    }
}

/// What follows a plugin's answer.
pub fn after_plugin(outcome: Result<PluginAction, String>) -> (r: (Vec<Effect>, Option<Work>))
    ensures
        (r.0@, r.1) == answered(outcome),
{
    match outcome {
        Ok(PluginAction::Nothing) => (vec![Effect::Dismiss], None),
        Ok(PluginAction::Copy(t)) => (
            Vec::new(),
            Some(Work::Copy { text: t, next: AfterCopy::Hide }),
        ),
        Ok(PluginAction::Paste(t)) => (
            Vec::new(),
            Some(Work::Copy { text: t, next: AfterCopy::Paste }),
        ),
        Ok(PluginAction::Open(url)) => (Vec::new(), Some(Work::Open { url, link: None })),
        Err(e) => (vec![Effect::Report(Failure::Plugin(e))], None),
    }
}

/// What follows opening a URL.
pub open spec fn opened_effects(url: String, link: Option<u64>, opened: bool) -> Seq<Effect> {
    if !opened {
        seq![Effect::Report(Failure::Url(url))]
    } else {
        match link {
            Some(id) => seq![Effect::RecordLink(id), Effect::Dismiss],
            None => seq![Effect::Dismiss],
        }
    }
}

/// What follows opening a URL: a quicklink's use is recorded.
pub fn after_open(url: String, link: Option<u64>, opened: bool) -> (r: Vec<Effect>)
    ensures
        r@ == opened_effects(url, link, opened),
{
    if !opened {
        return vec![Effect::Report(Failure::Url(url))];
    }
    match link {
        Some(id) => vec![Effect::RecordLink(id), Effect::Dismiss],
        None => vec![Effect::Dismiss],
    }
}

/// What follows revealing a path.
pub open spec fn revealed(path: String, shown: bool) -> Seq<Effect> {
    if shown {
        seq![Effect::Dismiss]
    } else {
        seq![Effect::Report(Failure::Reveal(path))]
    }
}

/// What follows revealing a path.
pub fn after_reveal(path: String, shown: bool) -> (r: Vec<Effect>)
    ensures
        r@ == revealed(path, shown),
{
    if shown {
        vec![Effect::Dismiss]
    } else {
        vec![Effect::Report(Failure::Reveal(path))]
    }
}

/// What follows starting a preview.
pub fn after_quick_look(outcome: Result<(), String>) -> (r: Vec<Effect>)
    ensures
        r@ == finished(outcome, |e: String| Failure::QuickLook(e)),
{
    match outcome {
        Ok(_) => vec![Effect::Dismiss],
        Err(e) => vec![Effect::Report(Failure::QuickLook(e))],
    }
}

/// What follows going into a path: the panel stays up and shows the query that
/// browses on, which [`pathnav::drill_query`] gives.
pub fn after_drill(query: String) -> (r: Vec<Effect>)
    ensures
        r@ == seq![Effect::SetQuery(query)],
{
    vec![Effect::SetQuery(query)]
}

/// What follows going on with the tour.
pub open spec fn toured(to: TourMove) -> Seq<Effect> {
    match to {
        TourMove::Step(rows) => seq![Effect::ShowRows(rows)],
        TourMove::Finished => seq![Effect::MarkTourDone, Effect::ClearQuery],
    }
}

/// What follows going on with the tour: the panel stays up and shows the step,
/// or the end is recorded and the panel is empty again.
pub fn after_tour(to: TourMove) -> (r: Vec<Effect>)
    ensures
        r@ == toured(to),
{
    match to {
        TourMove::Step(rows) => vec![Effect::ShowRows(rows)],
        TourMove::Finished => vec![Effect::MarkTourDone, Effect::ClearQuery],
    }
}

/// What follows a paste: a refusal is reported, and the text stays on the
/// clipboard.
pub fn after_paste(outcome: Result<(), String>) -> (r: Vec<Effect>)
    ensures
        r@ == (match outcome {
            Ok(_) => Seq::<Effect>::empty(),
            Err(e) => seq![Effect::Report(Failure::Paste(e))],
        }),
{
    match outcome {
        Ok(_) => Vec::new(),
        Err(e) => vec![Effect::Report(Failure::Paste(e))],
    }
}

/// What follows a piece of work: things to do at once, and more work where
/// there is any.
pub open spec fn followed(work: Work, outcome: Outcome, trusted: bool) -> (
    Seq<Effect>,
    Option<Work>,
) {
    match (work, outcome) {
        (Work::Launch { id, path }, Outcome::Ran(o)) => (launched(id, o), None),
        (Work::Copy { text, next }, Outcome::Copied(c)) => (copied_effects(next, c), None),
        (Work::WindowAction { id }, Outcome::Ran(o)) => (commanded(id, o, trusted), None),
        (Work::Setup { id }, Outcome::Ran(o)) => (commanded(id, o, trusted), None),
        (Work::System { id }, Outcome::Ran(o)) => (commanded(id, o, trusted), None),
        (Work::Clip { id }, Outcome::Ran(o)) => (clipped(o), None),
        (Work::Focus { id }, Outcome::Ran(o)) => (finished(o, |e: String| Failure::Focus(e)), None),
        (Work::File { id }, Outcome::Ran(o)) => (finished(o, |e: String| Failure::File(e)), None),
        (Work::Menu { id }, Outcome::Ran(o)) => (finished(o, |e: String| Failure::Menu(e)), None),
        (Work::Expand { id }, Outcome::Expanded(x)) => expanded(id, x),
        (Work::Script { id }, Outcome::Scripted(o)) => scripted(id, o),
        (Work::Plugin { id }, Outcome::Answered(o)) => answered(o),
        (Work::Open { url, link }, Outcome::Opened(o)) => (opened_effects(url, link, o), None),
        (Work::OpenPath { path }, Outcome::Opened(o)) => (opened_effects(path, None, o), None),
        (Work::Reveal { path }, Outcome::Opened(o)) => (revealed(path, o), None),
        (Work::QuickLook { path }, Outcome::Ran(o)) => (
            finished(o, |e: String| Failure::QuickLook(e)),
            None,
        ),
        (Work::Drill { path }, Outcome::Drilled(query)) => (seq![Effect::SetQuery(query)], None),
        (Work::Tour, Outcome::Toured(to)) => (toured(to), None),
        _ => (Seq::empty(), None),
    }
}

/// What follows a piece of work. `trusted` says whether the Accessibility
/// permission is granted.
pub fn follow(work: Work, outcome: Outcome, trusted: bool) -> (r: (Vec<Effect>, Option<Work>))
    requires
        fits(work, outcome),
    ensures
        (r.0@, r.1) == followed(work, outcome, trusted),
{
    match (work, outcome) {
        (Work::Launch { id, path }, Outcome::Ran(o)) => (after_launch(id, o), None),
        (Work::Copy { text, next }, Outcome::Copied(c)) => (after_copy(next, c), None),
        (Work::WindowAction { id }, Outcome::Ran(o)) => (after_command(id, o, trusted), None),
        (Work::Setup { id }, Outcome::Ran(o)) => (after_command(id, o, trusted), None),
        (Work::System { id }, Outcome::Ran(o)) => (after_command(id, o, trusted), None),
        (Work::Clip { id }, Outcome::Ran(o)) => (after_clip(o), None),
        (Work::Focus { id }, Outcome::Ran(o)) => (after_focus(o), None),
        (Work::File { id }, Outcome::Ran(o)) => (after_file(o), None),
        (Work::Menu { id }, Outcome::Ran(o)) => (after_menu(o), None),
        (Work::Expand { id }, Outcome::Expanded(x)) => after_expand(id, x),
        (Work::Script { id }, Outcome::Scripted(o)) => after_script(id, o),
        (Work::Plugin { id }, Outcome::Answered(o)) => after_plugin(o),
        (Work::Open { url, link }, Outcome::Opened(o)) => (after_open(url, link, o), None),
        (Work::OpenPath { path }, Outcome::Opened(o)) => (after_open(path, None, o), None),
        (Work::Reveal { path }, Outcome::Opened(o)) => (after_reveal(path, o), None),
        (Work::QuickLook { path }, Outcome::Ran(o)) => (after_quick_look(o), None),
        (Work::Drill { path }, Outcome::Drilled(query)) => (after_drill(query), None),
        (Work::Tour, Outcome::Toured(to)) => (after_tour(to), None),
        _ => (Vec::new(), None),
    }
}

/// Whether a piece of work came off.
pub open spec fn succeeded(outcome: Outcome) -> bool {
    match outcome {
        Outcome::Ran(o) => o is Ok,
        Outcome::Copied(done) => done,
        Outcome::Expanded(x) => x is Text,
        Outcome::Scripted(o) => o is Ok,
        Outcome::Answered(o) => o is Ok,
        Outcome::Opened(done) => done,
        Outcome::Drilled(_) => true,
        Outcome::Toured(_) => true,
    }
}

/// Whether an effect reports a failure.
pub open spec fn reports(e: Effect) -> bool {
    e is Report
}

/// The panel goes away exactly when the work came off, no more work follows and
/// the user neither browses on nor takes the tour, and a failure is reported
/// exactly when it did not come off: an error leaves the panel up.
pub proof fn law_only_success_hides_the_panel(work: Work, outcome: Outcome, trusted: bool)
    requires
        fits(work, outcome),
    ensures
        followed(work, outcome, trusted).0.contains(Effect::Dismiss) <==> succeeded(outcome)
            && followed(work, outcome, trusted).1 is None && work !is Drill && work !is Tour,
        (exists|i: int|
            0 <= i < followed(work, outcome, trusted).0.len() && #[trigger] reports(
                followed(work, outcome, trusted).0[i],
            )) <==> !succeeded(outcome),
{
    let (s, next) = followed(work, outcome, trusted);
    if !succeeded(outcome) {
        assert(reports(s[0]));
    } else if next is None && work !is Drill && work !is Tour {
        assert(s[0] == Effect::Dismiss || s[1] == Effect::Dismiss || s[2] == Effect::Dismiss);
    }
}

/// Work that leads to more work leads to a copy or an opened URL, after which
/// there is none: every activation comes to an end.
pub proof fn law_activations_end(
    work: Work,
    outcome: Outcome,
    second: Outcome,
    trusted: bool,
)
    requires
        fits(work, outcome),
    ensures
        followed(work, outcome, trusted).1 matches Some(next) ==> {
            &&& next is Copy || next is Open
            &&& fits(next, second) ==> followed(next, second, trusted).1 is None
        },
{
}

/// The own clipboard write is noted before anything else follows, so that the
/// history never captures it.
pub proof fn law_own_writes_are_noted_first(next: AfterCopy)
    ensures
        copied_effects(next, true)[0] == Effect::NoteOwnWrite,
{
}

/// A paste comes after the panel is gone, so that the keystroke reaches the
/// app that the user is in.
pub proof fn law_the_panel_hides_before_a_paste(
    work: Work,
    outcome: Outcome,
    trusted: bool,
    i: int,
)
    requires
        fits(work, outcome),
        0 <= i < followed(work, outcome, trusted).0.len(),
        followed(work, outcome, trusted).0[i] == Effect::Paste,
    ensures
        0 < i && followed(work, outcome, trusted).0[i - 1] == Effect::Dismiss,
{
}

/// Return on the row that offers the tour, and on the first row of a step, goes
/// on; the other rows of a step do nothing. The end of the tour, and nothing
/// else, is recorded.
pub proof fn law_the_tour_is_recorded_when_it_ends(to: TourMove, trusted: bool)
    ensures
        work_of(Entry::Tour) == Some(Work::Tour),
        work_of(Entry::Hint) is None,
        followed(Work::Tour, Outcome::Toured(to), trusted).0.contains(Effect::MarkTourDone) <==> to
            is Finished,
{
    if to is Finished {
        assert(toured(to)[0] == Effect::MarkTourDone);
    }
}

/// Return on a row of the path view does what the row says: the first four of
/// a path that exists open, reveal, preview and copy it, and any further row
/// browses on with the panel up.
pub proof fn law_path_rows_lead_to_their_work(
    target: pathnav::Target,
    entries: Seq<pathnav::DirEntry>,
    limit: usize,
    i: int,
    entry: Entry,
    query: String,
    trusted: bool,
)
    requires
        limit >= 4,
        0 <= i < pathnav::existing_view(target, entries, limit).len(),
        acts_on_path(entry, pathnav::existing_view(target, entries, limit)[i].action),
    ensures
        work_of(entry) matches Some(work) && {
            &&& i == 0 ==> (work matches Work::OpenPath { path } && path@ == target.path@)
            &&& i == 1 ==> (work matches Work::Reveal { path } && path@ == target.path@)
            &&& i == 2 ==> (work matches Work::QuickLook { path } && path@ == target.path@)
            &&& i == 3 ==> (work matches Work::Copy { text, next } && text@ == target.path@ && next
                == AfterCopy::Hide)
            &&& i >= 4 ==> work is Drill && followed(work, Outcome::Drilled(query), trusted) == (
                seq![Effect::SetQuery(query)],
                None::<Work>,
            )
        },
{
    pathnav::law_existing_paths_offer_four_actions(target, entries, limit, i);
}

/// How the startup log names a modifier.
pub open spec fn modifier_label(m: Seq<char>) -> Seq<char> {
    if m == "cmd"@ {
        "Cmd"@
    } else if m == "opt"@ {
        "Option"@
    } else if m == "ctrl"@ {
        "Ctrl"@
    } else if m == "shift"@ {
        "Shift"@
    } else {
        m
    }
}

/// The chord's parts: the modifiers, and the key with its first letter in
/// upper case.
pub open spec fn chord_parts(modifiers: Seq<String>, key: Seq<char>) -> Seq<Seq<char>> {
    modifiers.map_values(|m: String| modifier_label(m@)).push(text::capitalized(key))
}

/// The chord as the startup log names it, such as "Option+Space".
pub fn chord_label(hk: &HotkeyConfig) -> (r: String)
    ensures
        r@ == text::joined(chord_parts(hk.modifiers@, hk.key@), "+"@),
{
    let mut parts: Vec<String> = Vec::new();
    let mut i: usize = 0;
    while i < hk.modifiers.len()
        invariant
            i <= hk.modifiers@.len(),
            parts@.len() == i,
            forall|k: int|
                0 <= k < i ==> #[trigger] parts@[k]@ == modifier_label(hk.modifiers@[k]@),
        decreases hk.modifiers@.len() - i,
    {
        let m = &hk.modifiers[i];
        let label = if text::same(m, "cmd") {
            text::copy("Cmd")
        } else if text::same(m, "opt") {
            text::copy("Option")
        } else if text::same(m, "ctrl") {
            text::copy("Ctrl")
        } else if text::same(m, "shift") {
            text::copy("Shift")
        } else {
            text::copy(m)
        };
        parts.push(label);
        i = i + 1;
    }
    parts.push(text::capitalize(&hk.key));
    proof {
        assert(views(parts@) =~= chord_parts(hk.modifiers@, hk.key@));
    }
    text::join_all(&parts, "+")
}

/// The summon chord for registration: the keycode, the modifier mask and the
/// label. `key_code` is what the config's key maps to. A key without a code and
/// a chord without modifiers, which would swallow a plain keypress, fall back
/// to those of Option+Space.
pub fn hotkey_chord(hk: &HotkeyConfig, key_code: Option<u16>) -> (r: (u32, u32, String))
    ensures
        r.0 == (match key_code {
            Some(c) => c as u32,
            None => hotkey::KEY_CODE,
        }),
        r.1 == (if hotkey::modifier_mask(views(hk.modifiers@)) == 0 {
            hotkey::MODIFIERS as int
        } else {
            hotkey::modifier_mask(views(hk.modifiers@))
        }),
        r.2@ == text::joined(chord_parts(hk.modifiers@, hk.key@), "+"@),
{
    let code: u32 = match key_code {
        Some(c) => c as u32,
        None => hotkey::KEY_CODE,
    };
    let mask: u32 = hotkey::carbon_modifiers(&hk.modifiers);
    let held: u32 = if mask == 0 {
        hotkey::MODIFIERS
    } else {
        mask
    };
    (code, held, chord_label(hk))
}

/// The mix that stands in for system entropy where that cannot be read.
pub open spec fn entropy_mix(nanos: u64, pid: u32, now: u64) -> u64 {
    nanos ^ ((pid as u64) << 32) ^ now
}

/// Byte `i` of a number, the lowest first.
pub open spec fn byte_of(n: u64, i: int) -> u8 {
    (n >> ((8 * i) as u64)) as u8
}

/// Sixteen bytes that stand in for system entropy: the clock and the process
/// id, mixed, in two rotations.
pub fn fallback_entropy(nanos: u64, pid: u32, now: u64) -> (r: [u8; 16])
    ensures
        ({
            let mix = entropy_mix(nanos, pid, now);
            let turned = (mix << 29) | (mix >> 35);
            forall|i: int|
                0 <= i < 16 ==> #[trigger] r@[i] == (if i < 8 {
                    byte_of(mix, i)
                } else {
                    byte_of(turned, i - 8)
                })
        }),
{
    let a: u64 = nanos ^ ((pid as u64) << 32) ^ now;
    let b: u64 = (a << 29) | (a >> 35);
    [
        (a >> 0) as u8,
        (a >> 8) as u8,
        (a >> 16) as u8,
        (a >> 24) as u8,
        (a >> 32) as u8,
        (a >> 40) as u8,
        (a >> 48) as u8,
        (a >> 56) as u8,
        (b >> 0) as u8,
        (b >> 8) as u8,
        (b >> 16) as u8,
        (b >> 24) as u8,
        (b >> 32) as u8,
        (b >> 40) as u8,
        (b >> 48) as u8,
        (b >> 56) as u8,
    ]
}

/// A plugin's answer is done as it says: a text to copy goes to the clipboard as
/// it is, and the panel goes away without a paste; a text to paste goes there
/// and is pasted once the panel is gone; an address is opened; and nothing more
/// is done for an answer that asks for nothing. What goes wrong is reported.
pub proof fn law_plugin_answers_are_carried_out(id: String, t: String, trusted: bool)
    ensures
        ({
            let after = |answer: Result<PluginAction, String>|
                followed(Work::Plugin { id }, Outcome::Answered(answer), trusted);
            let (copy, paste, open) = (
                after(Ok(PluginAction::Copy(t))),
                after(Ok(PluginAction::Paste(t))),
                after(Ok(PluginAction::Open(t))),
            );
            &&& copy.0.len() == 0 && (copy.1 matches Some(w) && w is Copy && w->Copy_text == t
                && followed(w, Outcome::Copied(true), trusted).0 == seq![
                Effect::NoteOwnWrite,
                Effect::Dismiss,
            ])
            &&& paste.0.len() == 0 && (paste.1 matches Some(w) && w is Copy && w->Copy_text == t
                && followed(w, Outcome::Copied(true), trusted).0 == seq![
                Effect::NoteOwnWrite,
                Effect::Dismiss,
                Effect::Paste,
            ])
            &&& open.0.len() == 0 && (open.1 matches Some(w) && w is Open && w->Open_url == t
                && followed(w, Outcome::Opened(true), trusted).0 == seq![Effect::Dismiss])
            &&& after(Ok(PluginAction::Nothing)) == (seq![Effect::Dismiss], None::<Work>)
            &&& after(Err(t)) == (seq![Effect::Report(Failure::Plugin(t))], None::<Work>)
        }),
{
}

/// Each of the seven names of the trigger table opens its own source, with the
/// rest of the query; a name that is none of them leaves the query free text.
pub proof fn law_trigger_names_open_their_sources(
    triggers: Map<Seq<char>, Seq<char>>,
    plugin_keywords: Map<Seq<char>, Seq<char>>,
    raw: Seq<char>,
)
    requires
        text::first_word(text::trimmed(raw)).len() > 0,
        triggers.contains_key(text::lowercase(text::first_word(text::trimmed(raw)))),
    ensures
        ({
            let name = triggers[text::lowercase(text::first_word(text::trimmed(raw)))];
            let rest = text::after_first_word(text::trimmed(raw));
            let asked = pipeline_request(triggers, plugin_keywords, raw, None);
            &&& name == "clip"@ ==> asked == RequestView::Source(Source::Clip, rest)
            &&& name == "win"@ ==> asked == RequestView::Source(Source::Win, rest)
            &&& name == "file"@ ==> asked == RequestView::Source(Source::File, rest)
            &&& name == "menu"@ ==> asked == RequestView::Source(Source::Menu, rest)
            &&& name == "emoji"@ ==> asked == RequestView::Source(Source::Emoji, rest)
            &&& name == "snip"@ ==> asked == RequestView::Source(Source::Snip, rest)
            &&& name == "go"@ ==> asked == RequestView::Source(Source::Go, rest)
            &&& asked is Source || asked == RequestView::Text(raw)
            &&& asked is Text ==> name != "clip"@ && name != "win"@ && name != "file"@ && name
                != "menu"@ && name != "emoji"@ && name != "snip"@ && name != "go"@
        }),
{
    reveal_strlit("clip");
    reveal_strlit("win");
    reveal_strlit("file");
    reveal_strlit("menu");
    reveal_strlit("emoji");
    reveal_strlit("snip");
    reveal_strlit("go");
    assert("clip"@[0] == 'c' && "win"@[0] == 'w' && "file"@[0] == 'f' && "menu"@[0] == 'm'
        && "emoji"@[0] == 'e' && "snip"@[0] == 's' && "go"@[0] == 'g');
}

/// A first word that the trigger table does not hold asks the plugin that it is
/// the keyword of, with the rest of the query; where it is none, the query is
/// free text as it was typed.
pub proof fn law_plugin_keywords_ask_their_plugin(
    triggers: Map<Seq<char>, Seq<char>>,
    plugin_keywords: Map<Seq<char>, Seq<char>>,
    raw: Seq<char>,
)
    requires
        !triggers.contains_key(text::lowercase(text::first_word(text::trimmed(raw)))),
    ensures
        ({
            let word = text::first_word(text::trimmed(raw));
            let asked = pipeline_request(triggers, plugin_keywords, raw, None);
            if word.len() > 0 && plugin_keywords.contains_key(text::lowercase(word)) {
                asked == RequestView::Plugin(
                    text::lowercase(word),
                    text::after_first_word(text::trimmed(raw)),
                )
            } else {
                asked == RequestView::Text(raw)
            }
        }),
{
}

/// An alias shows the item whose id it stands for, which is any text with a full
/// stop; any other text takes the place of the first word, before the rest of
/// the query. Script keywords do the same where the config has no such alias.
pub proof fn law_aliases_stand_for_their_target(
    aliases: Map<Seq<char>, Seq<char>>,
    script_keywords: Map<Seq<char>, Seq<char>>,
    query: Seq<char>,
    target: Seq<char>,
)
    requires
        ({
            let word = text::first_word(query);
            &&& word.len() > 0
            &&& if aliases.contains_key(word) {
                aliases[word] == target
            } else {
                script_keywords.contains_key(word) && script_keywords[word] == target
            }
        }),
    ensures
        ({
            let made = alias_view(aliases, script_keywords, query);
            let rest = text::after_first_word(query);
            &&& (exists|i: int| 0 <= i < target.len() && #[trigger] target[i] == '.') ==> made
                == AliasView::Item(target)
            &&& (forall|i: int| 0 <= i < target.len() ==> #[trigger] target[i] != '.') ==> made
                == AliasView::Rewrite(
                if rest.len() == 0 {
                    target
                } else {
                    target.push(' ') + rest
                },
            )
        }),
{
    reveal_strlit(" ");
    let rest = text::after_first_word(query);
    assert(target + " "@ + rest =~= target.push(' ') + rest);
    if exists|i: int| 0 <= i < target.len() && #[trigger] target[i] == '.' {
        assert(target.contains('.'));
    }
}

/// The item that an id names is the first that has it, and there is none exactly
/// where no item has it.
pub proof fn law_ids_name_the_first_item_that_has_them(items: Seq<Item>, id: Seq<char>)
    ensures
        match first_with_id(items, id) {
            Some(found) => exists|k: int|
                {
                    &&& 0 <= k < items.len()
                    &&& #[trigger] items[k] == found
                    &&& found.id@ == id
                    &&& forall|j: int| 0 <= j < k ==> (#[trigger] items[j]).id@ != id
                },
            None => forall|j: int| 0 <= j < items.len() ==> (#[trigger] items[j]).id@ != id,
        },
    decreases items.len(),
{
    if items.len() > 0 && items[0].id@ != id {
        let rest = items.skip(1);
        law_ids_name_the_first_item_that_has_them(rest, id);
        if first_with_id(rest, id) is Some {
            let k = choose|k: int|
                {
                    &&& 0 <= k < rest.len()
                    &&& #[trigger] rest[k] == first_with_id(rest, id)->0
                    &&& rest[k].id@ == id
                    &&& forall|j: int| 0 <= j < k ==> (#[trigger] rest[j]).id@ != id
                };
            assert(items[k + 1] == rest[k]);
            assert forall|j: int| 0 <= j < k + 1 implies (#[trigger] items[j]).id@ != id by {
                if j > 0 {
                    assert(rest[j - 1] == items[j]);
                }
            }
        } else {
            assert forall|j: int| 0 <= j < items.len() implies (#[trigger] items[j]).id@ != id by {
                if j > 0 {
                    assert(rest[j - 1] == items[j]);
                }
            }
        }
    } else if items.len() > 0 {
        assert(items[0].id@ == id);
    }
}

/// A search ranks every app, every command and every script, and nothing else;
/// an alias finds a command before an app and an app before a script of the
/// same id.
pub proof fn law_every_item_is_searched_and_named(e: Engine, id: Seq<char>)
    ensures
        e.pool_items().len() == e.apps@.len() + e.commands@.len() + e.scripts@.len(),
        forall|i: Item|
            #[trigger] e.pool_items().contains(i) <==> e.apps@.contains(i) || e.commands@.contains(i)
                || e.scripts@.contains(i),
        first_with_id(e.named_items(), id) == (if first_with_id(e.commands@, id) is Some {
            first_with_id(e.commands@, id)
        } else if first_with_id(e.apps@, id) is Some {
            first_with_id(e.apps@, id)
        } else {
            first_with_id(e.scripts@, id)
        }),
{
    lemma_first_in_concat(e.commands@, e.apps@, id);
    lemma_first_in_concat(e.commands@ + e.apps@, e.scripts@, id);
    let (a, b, c) = (e.apps@, e.commands@, e.scripts@);
    let all = e.pool_items();
    assert forall|i: Item| #[trigger] all.contains(i) <==> a.contains(i) || b.contains(i)
        || c.contains(i) by {
        if a.contains(i) {
            let k = choose|k: int| 0 <= k < a.len() && a[k] == i;
            assert(all[k] == i);
        }
        if b.contains(i) {
            let k = choose|k: int| 0 <= k < b.len() && b[k] == i;
            assert(all[a.len() + k] == i);
        }
        if c.contains(i) {
            let k = choose|k: int| 0 <= k < c.len() && c[k] == i;
            assert(all[a.len() + b.len() + k] == i);
        }
        if all.contains(i) {
            let k = choose|k: int| 0 <= k < all.len() && all[k] == i;
            if k < a.len() {
                assert(a[k] == i);
            } else if k < a.len() + b.len() {
                assert(b[k - a.len()] == i);
            } else {
                assert(c[k - a.len() - b.len()] == i);
            }
        }
    }
}

/// Return on an item that a search lists launches the app at the item's path,
/// runs the script, or does the command; and its row shows the item's title and
/// subtitle.
pub proof fn law_listed_items_lead_to_their_work(item: Item)
    ensures
        row_of(item).title == item.title && row_of(item).subtitle == item.subtitle,
        ({
            let work = work_of(entry_of(item));
            match item.kind {
                ItemKind::App => work == Some(Work::Launch { id: item.id, path: item.subtitle }),
                ItemKind::Script => work == Some(Work::Script { id: item.id }),
                _ => {
                    let starts = |p: Seq<char>| p.is_prefix_of(item.id@);
                    if starts("window."@) {
                        work == Some(Work::WindowAction { id: item.id })
                    } else if starts("onboarding."@) {
                        work == Some(Work::Setup { id: item.id })
                    } else {
                        work == Some(Work::System { id: item.id })
                    }
                },
            }
        }),
{
}

/// Return on a row of a source does with the row's item what the source is for:
/// a history entry is put back, a window focused, a file opened, a menu item
/// pressed, and a plugin asked.
pub proof fn law_source_rows_lead_to_their_work(id: String)
    ensures
        work_of(trigger_entry(Trigger::Clip, id)) == Some(Work::Clip { id }),
        work_of(trigger_entry(Trigger::Window, id)) == Some(Work::Focus { id }),
        work_of(trigger_entry(Trigger::File, id)) == Some(Work::File { id }),
        work_of(trigger_entry(Trigger::Menu, id)) == Some(Work::Menu { id }),
        work_of(trigger_entry(Trigger::Plugin, id)) == Some(Work::Plugin { id }),
{
}

/// Return on an emoji pastes the glyph, and Return on a result copies it: the
/// text goes to the clipboard as it is, and the panel goes away.
pub proof fn law_glyphs_are_pasted_and_results_copied(t: String, trusted: bool)
    ensures
        ({
            let emoji = work_of(Entry::Emoji { glyph: t });
            let result = work_of(Entry::Calc { display: t });
            &&& emoji matches Some(w) && w is Copy && w->Copy_text == t && followed(
                w,
                Outcome::Copied(true),
                trusted,
            ) == (seq![Effect::NoteOwnWrite, Effect::Dismiss, Effect::Paste], None::<Work>)
            &&& result matches Some(w) && w is Copy && w->Copy_text == t && followed(
                w,
                Outcome::Copied(true),
                trusted,
            ) == (seq![Effect::NoteOwnWrite, Effect::Dismiss], None::<Work>)
        }),
{
}

/// Return on a snippet records its use, copies what it expands to and pastes it.
/// One that is gone or does not expand copies nothing.
pub proof fn law_snippets_are_expanded_and_pasted(id: u64, t: String, trusted: bool)
    ensures
        work_of(Entry::Snippet { id }) == Some(Work::Expand { id }),
        ({
            let after = |x: Expansion| followed(Work::Expand { id }, Outcome::Expanded(x), trusted);
            let done = after(Expansion::Text(t));
            &&& done.0 == seq![Effect::RecordSnippet(id)]
            &&& done.1 matches Some(w) && w is Copy && w->Copy_text == t && followed(
                w,
                Outcome::Copied(true),
                trusted,
            ).0 == seq![Effect::NoteOwnWrite, Effect::Dismiss, Effect::Paste]
            &&& after(Expansion::Gone) == (
                seq![Effect::Report(Failure::SnippetGone(id))],
                None::<Work>,
            )
            &&& after(Expansion::Failed(t)) == (
                seq![Effect::Report(Failure::Expansion(t))],
                None::<Work>,
            )
        }),
{
}

/// What a script puts out is copied, and its use recorded with the panel gone; a
/// silent one is recorded and the panel goes away.
pub proof fn law_script_output_is_copied(id: String, out: String, trusted: bool)
    ensures
        work_of(Entry::Script { id }) == Some(Work::Script { id }),
        ({
            let ran = followed(Work::Script { id }, Outcome::Scripted(Ok(out)), trusted);
            if out@.len() == 0 {
                ran == (seq![Effect::RecordUse(id), Effect::Dismiss], None::<Work>)
            } else {
                &&& ran.0.len() == 0
                &&& ran.1 matches Some(w) && w is Copy && w->Copy_text == out && followed(
                    w,
                    Outcome::Copied(true),
                    trusted,
                ) == (
                    seq![Effect::NoteOwnWrite, Effect::RecordUse(id), Effect::Dismiss],
                    None::<Work>,
                )
            }
        }),
        followed(Work::Script { id }, Outcome::Scripted(Err(out)), trusted) == (
            seq![Effect::Report(Failure::Script { id, error: out })],
            None::<Work>,
        ),
{
}

/// Return on a quicklink opens its filled address and records the link's use; an
/// address that does not open is reported and no use recorded.
pub proof fn law_quicklinks_are_opened(id: u64, url: String, trusted: bool)
    ensures
        work_of(Entry::Link { id, url }) matches Some(w) && {
            &&& w is Open && w->Open_url == url
            &&& followed(w, Outcome::Opened(true), trusted) == (
                seq![Effect::RecordLink(id), Effect::Dismiss],
                None::<Work>,
            )
            &&& followed(w, Outcome::Opened(false), trusted) == (
                seq![Effect::Report(Failure::Url(url))],
                None::<Work>,
            )
        },
{
}

/// Launching an app and doing a command record the use of their own id and let
/// the panel go; where they fail the error is reported under that id and no use
/// recorded. Only a window action that fails without the Accessibility
/// permission leads to the offer of it.
pub proof fn law_uses_are_recorded_on_success(
    work: Work,
    id: String,
    error: String,
    trusted: bool,
)
    requires
        match work {
            Work::Launch { id: i, path: _ } => i == id,
            Work::WindowAction { id: i } => i == id,
            Work::Setup { id: i } => i == id,
            Work::System { id: i } => i == id,
            _ => false,
        },
    ensures
        followed(work, Outcome::Ran(Ok(())), trusted) == (
            seq![Effect::RecordUse(id), Effect::Dismiss],
            None::<Work>,
        ),
        ({
            let (effects, next) = followed(work, Outcome::Ran(Err(error)), trusted);
            let offered = work !is Launch && !trusted && "window."@.is_prefix_of(id@);
            &&& next is None
            &&& effects.len() == (if offered {
                2nat
            } else {
                1
            })
            &&& effects[0] == Effect::Report(
                if work is Launch {
                    Failure::Launch(error)
                } else {
                    Failure::Command { id, error }
                },
            )
            &&& offered ==> effects[1] == Effect::OfferTrust
        }),
{
}

/// A history entry that is put back is pasted once the panel is gone; focusing a
/// window, opening a file, pressing a menu item, revealing and previewing only
/// let the panel go. Each reports its own failure.
pub proof fn law_plain_work_ends_with_the_panel_gone(id: String, e: String, trusted: bool)
    ensures
        ({
            let done = |w: Work| followed(w, Outcome::Ran(Ok(())), trusted);
            let failed = |w: Work| followed(w, Outcome::Ran(Err(e)), trusted);
            let gone = (seq![Effect::Dismiss], None::<Work>);
            let told = |f: Failure| (seq![Effect::Report(f)], None::<Work>);
            &&& done(Work::Clip { id }) == (seq![Effect::Dismiss, Effect::Paste], None::<Work>)
            &&& done(Work::Focus { id }) == gone && done(Work::File { id }) == gone
            &&& done(Work::Menu { id }) == gone && done(Work::QuickLook { path: id }) == gone
            &&& failed(Work::Clip { id }) == told(Failure::Clip(e))
            &&& failed(Work::Focus { id }) == told(Failure::Focus(e))
            &&& failed(Work::File { id }) == told(Failure::File(e))
            &&& failed(Work::Menu { id }) == told(Failure::Menu(e))
            &&& failed(Work::QuickLook { path: id }) == told(Failure::QuickLook(e))
            &&& followed(Work::OpenPath { path: id }, Outcome::Opened(true), trusted) == gone
            &&& followed(Work::Reveal { path: id }, Outcome::Opened(true), trusted) == gone
            &&& followed(Work::OpenPath { path: id }, Outcome::Opened(false), trusted) == told(
                Failure::Url(id),
            )
            &&& followed(Work::Reveal { path: id }, Outcome::Opened(false), trusted) == told(
                Failure::Reveal(id),
            )
        }),
{
}

/// A clipboard that does not take the text leaves the panel up, and nothing is
/// pasted or recorded.
pub proof fn law_a_refused_copy_does_nothing_more(t: String, next: AfterCopy, trusted: bool)
    ensures
        followed(Work::Copy { text: t, next }, Outcome::Copied(false), trusted) == (
            seq![Effect::Report(Failure::Pasteboard)],
            None::<Work>,
        ),
{
}

/// A line that reports a failure begins with the program's name and ends in what
/// went wrong; a command and a script are named in it, each failure by words of
/// its own.
pub proof fn law_failures_say_what_went_wrong(id: String, e: String, snippet: u64)
    ensures
        failure_line(Failure::Pasteboard) == "beckon: pasteboard write failed"@,
        failure_line(Failure::SnippetGone(snippet)) == "beckon: snippet "@ + text::decimal(
            snippet as nat,
        ) + " vanished"@,
        failure_line(Failure::Launch(e)) == "beckon: launch failed: "@ + e@,
        failure_line(Failure::Command { id, error: e }) == "beckon: command "@ + id@ + " failed: "@
            + e@,
        failure_line(Failure::Clip(e)) == "beckon: clipboard copy failed: "@ + e@,
        failure_line(Failure::Focus(e)) == "beckon: window focus failed: "@ + e@,
        failure_line(Failure::File(e)) == "beckon: open failed: "@ + e@,
        failure_line(Failure::Menu(e)) == "beckon: menu press failed: "@ + e@,
        failure_line(Failure::Expansion(e)) == "beckon: snippet expansion failed: "@ + e@,
        failure_line(Failure::Script { id, error: e }) == "beckon: script "@ + id@ + " failed: "@
            + e@,
        failure_line(Failure::Url(e)) == "beckon: could not open "@ + e@,
        failure_line(Failure::Plugin(e)) == "beckon: plugin activation failed: "@ + e@,
        failure_line(Failure::Paste(e)) == "beckon: paste skipped: "@ + e@,
        failure_line(Failure::QuickLook(e)) == "beckon: quick look failed: "@ + e@,
        failure_line(Failure::Reveal(e)) == "beckon: could not reveal "@ + e@,
{
    assert(failure_line(Failure::Command { id, error: e }) =~= "beckon: command "@ + id@
        + " failed: "@ + e@);
    assert(failure_line(Failure::Script { id, error: e }) =~= "beckon: script "@ + id@
        + " failed: "@ + e@);
}

/// The row of a result shows the result, and the text that it answers with what
/// Return does. The rows of hits show what each is found by: an emoji's glyph
/// before its name, a snippet's keyword before the head of its body, and a
/// link's address.
pub proof fn law_rows_show_their_hits(
    result: Seq<char>,
    asked: Seq<char>,
    emoji: EmojiHit,
    snippet: SnippetHit,
    link: LinkHit,
)
    ensures
        result_row(result, asked).title == result,
        result_row(result, asked).subtitle == asked + " (press Return to copy)"@,
        emoji_row(emoji).title == emoji.glyph@.push(' ') + emoji.name@,
        emoji_row(emoji).subtitle == emoji.keywords@,
        link_row(link).title == link.name@,
        link_row(link).subtitle == link.url@,
        snippet_row(snippet).title == snippet.name@,
        ({
            let shown = snippet_row(snippet).subtitle;
            let n = snippet.keyword@.len() + 3;
            &&& snippet.keyword@.is_prefix_of(shown)
            &&& shown.skip(n as int).is_prefix_of(snippet.body@)
            &&& shown.len() - n == (if snippet.body@.len() < 40 {
                snippet.body@.len() as int
            } else {
                40
            })
        }),
{
    reveal_strlit(" ");
    reveal_strlit(" \u{b7} ");
    assert(emoji.glyph@ + " "@ + emoji.name@ =~= emoji.glyph@.push(' ') + emoji.name@);
    let shown = snippet_row(snippet).subtitle;
    let n = (snippet.keyword@.len() + 3) as int;
    assert(snippet.keyword@ =~= shown.subrange(0, snippet.keyword@.len() as int));
    assert(shown.skip(n) =~= snippet.body@.subrange(0, shown.skip(n).len() as int));
}

/// A list is cut at the number of rows that it may show and no earlier.
pub proof fn law_lists_are_cut_at_their_cap(len: nat, cap: usize)
    ensures
        at_most(len, cap) <= len,
        at_most(len, cap) <= cap,
        at_most(len, cap) == len || at_most(len, cap) == cap,
{
}

/// A chord's label names each of its modifiers in their order, and the key last
/// with a capital letter.
pub proof fn law_chord_labels_name_every_key(modifiers: Seq<String>, key: Seq<char>, i: int)
    requires
        0 <= i < modifiers.len(),
    ensures
        ({
            let parts = chord_parts(modifiers, key);
            let m = modifiers[i]@;
            &&& parts.len() == modifiers.len() + 1
            &&& parts.last() == text::capitalized(key)
            &&& m == "cmd"@ ==> parts[i] == "Cmd"@
            &&& m == "opt"@ ==> parts[i] == "Option"@
            &&& m == "ctrl"@ ==> parts[i] == "Ctrl"@
            &&& m == "shift"@ ==> parts[i] == "Shift"@
            &&& m != "cmd"@ && m != "opt"@ && m != "ctrl"@ && m != "shift"@ ==> parts[i] == m
        }),
{
    reveal_strlit("cmd");
    reveal_strlit("opt");
    reveal_strlit("ctrl");
    reveal_strlit("shift");
    assert("cmd"@[0] == 'c' && "opt"@[0] == 'o' && "shift"@[0] == 's' && "ctrl"@[1] == 't'
        && "cmd"@[1] == 'm');
}

/// The bytes that stand in for system entropy depend on all that is mixed: two of
/// the three and the mix give the third.
pub proof fn law_every_part_of_the_mix_counts(nanos: u64, pid: u32, now: u64)
    ensures
        entropy_mix(nanos, pid, now) ^ now ^ ((pid as u64) << 32) == nanos,
        entropy_mix(nanos, pid, now) ^ nanos ^ ((pid as u64) << 32) == now,
        entropy_mix(nanos, pid, now) ^ nanos ^ now == ((pid as u64) << 32),
{
    let p = (pid as u64) << 32;
    assert((nanos ^ p ^ now) ^ now ^ p == nanos) by (bit_vector);
    assert((nanos ^ p ^ now) ^ nanos ^ p == now) by (bit_vector);
    assert((nanos ^ p ^ now) ^ nanos ^ now == p) by (bit_vector);
}

/// A quicklink query is the link's name alone, or the name, white space and what
/// fills the link; the name holds no white space and the filling is trimmed.
pub proof fn law_quicklink_queries_split_at_the_first_space(query: Seq<char>)
    ensures
        ({
            let (name, rest) = quicklink_parts(query);
            let n = name.len() as int;
            &&& n <= query.len() && name == query.take(n)
            &&& forall|i: int| 0 <= i < n ==> !text::is_space(#[trigger] query[i])
            &&& n < query.len() ==> text::is_space(query[n]) && rest == text::trimmed(
                query.skip(n + 1),
            )
            &&& n == query.len() ==> rest.len() == 0
        }),
{
    text::law_splitting_at_white_space(query);
    match text::split_at_space(query) {
        Some((name, rest)) => {
            let n = name.len() as int;
            assert(query.take(n) =~= name);
            assert(query.skip(n + 1) =~= rest);
            assert forall|i: int| 0 <= i < n implies !text::is_space(#[trigger] query[i]) by {
                assert(query[i] == name[i]);
            }
        },
        None => {
            assert(query.take(query.len() as int) =~= query);
        },
    }
}

/// Return on a row of a path does to the path what the row is named for; one that
/// browses on puts the query in the field and leaves the panel up.
pub proof fn law_path_actions_do_what_they_name(path: String, query: String, trusted: bool)
    ensures
        path_work(PathAction::Open(path)) == Some(Work::OpenPath { path }),
        path_work(PathAction::Reveal(path)) == Some(Work::Reveal { path }),
        path_work(PathAction::QuickLook(path)) == Some(Work::QuickLook { path }),
        path_work(PathAction::Drill(path)) == Some(Work::Drill { path }),
        path_work(PathAction::Nothing) is None,
        path_work(PathAction::CopyPath(path)) matches Some(w) && w is Copy && w->Copy_text == path
            && followed(w, Outcome::Copied(true), trusted) == (
            seq![Effect::NoteOwnWrite, Effect::Dismiss],
            None::<Work>,
        ),
        followed(Work::Drill { path }, Outcome::Drilled(query), trusted) == (
            seq![Effect::SetQuery(query)],
            None::<Work>,
        ),
{
}

/// Going on with the tour shows the step's rows; its end is recorded before the
/// query is cleared.
pub proof fn law_the_tour_shows_its_steps(to: TourMove, trusted: bool)
    ensures
        to matches TourMove::Step(rows) ==> followed(Work::Tour, Outcome::Toured(to), trusted) == (
            seq![Effect::ShowRows(rows)],
            None::<Work>,
        ),
        to is Finished ==> followed(Work::Tour, Outcome::Toured(to), trusted) == (
            seq![Effect::MarkTourDone, Effect::ClearQuery],
            None::<Work>,
        ),
{
}

/// The bytes of a number, the lowest first, make up the number.
pub proof fn law_bytes_make_up_the_number(n: u64)
    ensures
        byte_of(n, 0) + byte_of(n, 1) * 0x100 + byte_of(n, 2) * 0x1_0000 + byte_of(n, 3)
            * 0x100_0000 + byte_of(n, 4) * 0x1_0000_0000 + byte_of(n, 5) * 0x100_0000_0000 + byte_of(
            n,
            6,
        ) * 0x1_0000_0000_0000 + byte_of(n, 7) * 0x100_0000_0000_0000 == n,
{
    assert(((n >> 0u64) as u8) + ((n >> 8u64) as u8) * 0x100 + ((n >> 16u64) as u8) * 0x1_0000 + ((n
        >> 24u64) as u8) * 0x100_0000 + ((n >> 32u64) as u8) * 0x1_0000_0000 + ((n >> 40u64) as u8)
        * 0x100_0000_0000 + ((n >> 48u64) as u8) * 0x1_0000_0000_0000 + ((n >> 56u64) as u8)
        * 0x100_0000_0000_0000 == n) by (bit_vector);
}

/// An entry acts on a path exactly where its row does that action.
pub proof fn law_path_entries_hold_their_action(entry: Entry, action: pathnav::ActionView)
    requires
        acts_on_path(entry, action),
    ensures
        entry matches Entry::Path { action: held } && held@ == action,
{
}

/// What lists rows changes nothing but what Return leads to: the config, the
/// apps, the commands, the scripts and the keywords stay as they are, and the
/// tour too where rows are all that is listed.
pub proof fn law_listing_changes_the_results_alone(before: Engine, after: Engine)
    ensures
        before.same_sources(after) <==> {
            &&& after.config == before.config
            &&& after.apps == before.apps
            &&& after.commands == before.commands
            &&& after.scripts == before.scripts
            &&& after.script_keywords == before.script_keywords
            &&& after.plugin_keywords == before.plugin_keywords
        },
        before.same_but_results(after) <==> before.same_sources(after) && after.tour == before.tour,
{
}

/// The row that offers the tour, word for word.
pub proof fn law_the_offer_names_the_tour()
    ensures
        tour_offer().title == "\u{25B8} Take the walkthrough"@,
        tour_offer().subtitle == "a tour inside the panel"@,
{
}

} // verus!
