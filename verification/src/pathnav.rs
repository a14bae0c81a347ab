//! Path navigation: a keyboard file browser for queries that are shaped like
//! paths.
//!
//! A path that exists shows what can be done with it, followed by the
//! contents of a folder. A path that does not is completed against its
//! parent. A dead path says so.

use crate::order::{self, ints, sorted_positions, views, Ranked};
use crate::paths;
use crate::text;
use vstd::prelude::*;

verus! {

/// What activating a row of the path view does.
#[derive(Clone, Debug, PartialEq, Eq)]
pub enum PathAction {
    /// Open with the default app.
    Open(String),
    /// Select the item in a Finder window.
    Reveal(String),
    /// Preview without opening.
    QuickLook(String),
    /// Put the absolute path on the clipboard.
    CopyPath(String),
    /// Rewrite the query to this path and keep browsing.
    Drill(String),
    /// A hint; Return does nothing.
    Nothing,
}

/// What a [`PathAction`] holds.
#[verifier::ext_equal]
pub enum ActionView {
    Open(Seq<char>),
    Reveal(Seq<char>),
    QuickLook(Seq<char>),
    CopyPath(Seq<char>),
    Drill(Seq<char>),
    Nothing,
}

impl View for PathAction {
    type V = ActionView;

    open spec fn view(&self) -> ActionView {
        match self {
            PathAction::Open(p) => ActionView::Open(p@),
            PathAction::Reveal(p) => ActionView::Reveal(p@),
            PathAction::QuickLook(p) => ActionView::QuickLook(p@),
            PathAction::CopyPath(p) => ActionView::CopyPath(p@),
            PathAction::Drill(p) => ActionView::Drill(p@),
            PathAction::Nothing => ActionView::Nothing,
        }
    }
}

impl PathAction {
    /// A copy of the action.
    pub fn copied(&self) -> (r: PathAction)
        ensures
            r == *self,
    {
        match self {
            PathAction::Open(p) => PathAction::Open(p.clone()),
            PathAction::Reveal(p) => PathAction::Reveal(p.clone()),
            PathAction::QuickLook(p) => PathAction::QuickLook(p.clone()),
            PathAction::CopyPath(p) => PathAction::CopyPath(p.clone()),
            PathAction::Drill(p) => PathAction::Drill(p.clone()),
            PathAction::Nothing => PathAction::Nothing,
        }
    }
}

/// One row of the path view.
#[derive(Clone, Debug, PartialEq, Eq)]
pub struct PathRow {
    pub title: String,
    pub subtitle: String,
    pub action: PathAction,
}

/// What a [`PathRow`] holds.
#[verifier::ext_equal]
pub struct PathRowView {
    pub title: Seq<char>,
    pub subtitle: Seq<char>,
    pub action: ActionView,
}

impl View for PathRow {
    type V = PathRowView;

    open spec fn view(&self) -> PathRowView {
        PathRowView { title: self.title@, subtitle: self.subtitle@, action: self.action@ }
    }
}

/// The first rows of a list, at most `limit`.
pub open spec fn limited(rows: Seq<PathRowView>, limit: usize) -> Seq<PathRowView> {
    if rows.len() <= limit {
        rows
    } else {
        rows.take(limit as int)
    }
}

/// Drops the rows past `limit`.
fn cut(rows: &mut Vec<PathRow>, limit: usize)
    ensures
        views(final(rows)@) == limited(views(old(rows)@), limit),
{
    let ghost before = views(rows@);
    rows.truncate(limit);
    assert(views(rows@) =~= limited(before, limit));
}

/// The name that a path is shown under: its final component, or all of it.
pub open spec fn shown_name(path: Seq<char>) -> Seq<char> {
    match paths::last_component(path) {
        Some(n) => n,
        None => path,
    }
}

/// The name that a path is shown under.
pub fn name_of(path: &str) -> (r: String)
    ensures
        r@ == shown_name(path@),
{
    match paths::file_name(path) {
        Some(n) => n,
        None => text::copy(path),
    }
}

/// Whether a name is that of an app bundle.
pub open spec fn is_app(name: Seq<char>) -> bool {
    ".app"@.is_suffix_of(name)
}

/// The glyph in front of a name: one each for apps, folders and files.
pub open spec fn glyph(name: Seq<char>, is_dir: bool) -> Seq<char> {
    if is_app(name) {
        "\u{2318}"@
    } else if is_dir {
        "\u{1F4C1}"@
    } else {
        "\u{1F4C4}"@
    }
}

/// The glyph in front of a name.
pub fn glyph_for(name: &str, is_dir: bool) -> (r: &'static str)
    ensures
        r@ == glyph(name@, is_dir),
{
    if text::ends_with(name, ".app") {
        "\u{2318}"
    } else if is_dir {
        "\u{1F4C1}"
    } else {
        "\u{1F4C4}"
    }
}

/// What is known of a path that exists.
pub struct Target {
    pub path: String,
    pub is_dir: bool,
    /// What sort of thing it is, in a word or two.
    pub kind: String,
    /// Its size as text; it counts for files only.
    pub size: String,
    /// How many entries it holds; it counts for folders only.
    pub items: usize,
    /// The path as it is displayed.
    pub display: String,
}

/// How many entries a folder holds, in words.
pub open spec fn count_words(items: usize) -> Seq<char> {
    text::decimal(items as nat) + (if items == 1 {
        " item \u{b7} "@
    } else {
        " items \u{b7} "@
    })
}

/// The row that opens a path.
pub open spec fn open_row(t: Target) -> PathRowView {
    let name = shown_name(t.path@);
    let detail = if is_app(name) {
        Seq::empty()
    } else if t.is_dir {
        count_words(t.items)
    } else {
        t.size@ + " \u{b7} "@
    };
    PathRowView {
        title: if is_app(name) {
            "\u{2318} Launch "@ + name
        } else if t.is_dir {
            "\u{1F4C1} Open "@ + name + " in Finder"@
        } else {
            "\u{1F4C4} Open "@ + name
        },
        subtitle: t.kind@ + " \u{b7} "@ + (detail + t.display@),
        action: ActionView::Open(t.path@),
    }
}

/// The rows of what can be done with any path that exists: open it, reveal it,
/// preview it and copy it.
pub open spec fn action_rows(t: Target) -> Seq<PathRowView> {
    let reveal = PathRowView {
        title: "Reveal in Finder"@,
        subtitle: t.display@,
        action: ActionView::Reveal(t.path@),
    };
    let preview = PathRowView {
        title: "Quick Look"@,
        subtitle: "preview without opening"@,
        action: ActionView::QuickLook(t.path@),
    };
    let copy = PathRowView {
        title: "Copy Path"@,
        subtitle: t.path@,
        action: ActionView::CopyPath(t.path@),
    };
    seq![open_row(t), reveal, preview, copy]
}

/// Whether a path is that of a folder whose contents are listed: app bundles
/// are not.
pub open spec fn is_listed(t: Target) -> bool {
    t.is_dir && !is_app(shown_name(t.path@))
}

/// The rows for a path that exists: what can be done with it, and the contents
/// of a plain folder, hidden ones left out.
pub open spec fn existing_view(t: Target, entries: Seq<DirEntry>, limit: usize) -> Seq<
    PathRowView,
> {
    if is_listed(t) {
        limited(action_rows(t) + listing(entries, Seq::empty(), false), limit)
    } else {
        limited(action_rows(t), limit)
    }
}

/// The row that opens a path with the given name.
fn open_row_of(t: &Target, name: &str) -> (r: PathRow)
    requires
        name@ == shown_name(t.path@),
    ensures
        r@ == open_row(*t),
{
    let app = text::ends_with(name, ".app");
    let (title, detail) = if app {
        (text::join("\u{2318} Launch ", name), String::new())
    } else if t.is_dir {
        let noun = if t.items == 1 {
            " item \u{b7} "
        } else {
            " items \u{b7} "
        };
        (
            text::join3("\u{1F4C1} Open ", name, " in Finder"),
            text::join(&text::decimal_of(t.items as u64), noun),
        )
    } else {
        (text::join("\u{1F4C4} Open ", name), text::join(&t.size, " \u{b7} "))
    };
    PathRow {
        title,
        subtitle: text::join3(&t.kind, " \u{b7} ", &text::join(&detail, &t.display)),
        action: PathAction::Open(text::copy(&t.path)),
    }
}

/// The rows for a path that exists. `entries` are those of a folder.
pub fn existing_rows(t: &Target, entries: &Vec<DirEntry>, limit: usize) -> (r: Vec<PathRow>)
    ensures
        views(r@) == existing_view(*t, entries@, limit),
{
    let name = name_of(&t.path);
    let mut rows = vec![
        open_row_of(t, &name),
        PathRow {
            title: text::copy("Reveal in Finder"),
            subtitle: text::copy(&t.display),
            action: PathAction::Reveal(text::copy(&t.path)),
        },
        PathRow {
            title: text::copy("Quick Look"),
            subtitle: text::copy("preview without opening"),
            action: PathAction::QuickLook(text::copy(&t.path)),
        },
        PathRow {
            title: text::copy("Copy Path"),
            subtitle: text::copy(&t.path),
            action: PathAction::CopyPath(text::copy(&t.path)),
        },
    ];
    assert(views(rows@) =~= action_rows(*t));
    if t.is_dir && !text::ends_with(&name, ".app") {
        let mut more = list_dir(entries, "", false);
        let ghost listed = views(more@);
        rows.append(&mut more);
        proof {
            reveal_strlit("");
            assert(""@ =~= Seq::<char>::empty());
            assert(views(rows@) =~= action_rows(*t) + listed);
        }
    }
    cut(&mut rows, limit);
    rows
}

/// A directory entry as the listing finds it.
pub struct DirEntry {
    pub name: String,
    pub path: String,
    /// Whether it is a folder; none where that does not read.
    pub is_dir: Option<bool>,
    /// What sort of thing it is, in a word or two.
    pub kind: String,
    /// Its size as text; it counts for files only.
    pub size: String,
}

/// How well a name matches a leaf, both in lower case: in front, further in,
/// or not at all. An empty leaf matches everything in front.
pub open spec fn band_of(lower: Seq<char>, needle: Seq<char>) -> Option<u8> {
    if needle.len() == 0 || needle.is_prefix_of(lower) {
        Some(0)
    } else if text::occurs(lower, needle) {
        Some(1)
    } else {
        None
    }
}

/// How well a name matches a leaf, both in lower case.
pub fn band(lower: &str, needle: &str) -> (r: Option<u8>)
    ensures
        r == band_of(lower@, needle@),
{
    if needle.is_empty() || text::starts_with(lower, needle) {
        Some(0)
    } else if text::contains(lower, needle) {
        Some(1)
    } else {
        None
    }
}

/// The band of an entry, none where it is not listed: hidden entries are not
/// unless they are asked for, and neither are those that do not read. An empty
/// leaf puts all others in front.
pub open spec fn listed_band(e: DirEntry, leaf: Seq<char>, show_hidden: bool) -> Option<u8> {
    if ("."@.is_prefix_of(e.name@) && !show_hidden) || e.is_dir is None {
        None
    } else if leaf.len() == 0 {
        Some(0)
    } else {
        band_of(text::lowercase(e.name@), text::lowercase(leaf))
    }
}

/// What a listed entry is ordered by: its band, folders first, then its name.
pub struct Rank {
    pub band: u8,
    pub is_file: bool,
    pub name: String,
}

/// What a [`Rank`] holds.
#[verifier::ext_equal]
pub struct RankView {
    pub band: u8,
    pub is_file: bool,
    pub name: Seq<char>,
}

impl View for Rank {
    type V = RankView;

    open spec fn view(&self) -> RankView {
        RankView { band: self.band, is_file: self.is_file, name: self.name@ }
    }
}

impl Ranked for Rank {
    open spec fn ahead(a: RankView, b: RankView) -> bool {
        if a.band != b.band {
            a.band < b.band
        } else if a.is_file != b.is_file {
            !a.is_file
        } else {
            text::lex_before(a.name, b.name)
        }
    }

    proof fn lemma_asymmetric(a: RankView, b: RankView) {
        text::lemma_lex_trichotomy(a.name, b.name);
    }

    proof fn lemma_separates(a: RankView, b: RankView, c: RankView) {
        text::lemma_lex_separates(a.name, b.name, c.name);
    }

    fn is_ahead(&self, other: &Rank) -> bool {
        if self.band != other.band {
            self.band < other.band
        } else if self.is_file != other.is_file {
            !self.is_file
        } else {
            text::before(&self.name, &other.name)
        }
    }
}

/// The places of the listed entries.
pub open spec fn listed_places(entries: Seq<DirEntry>, leaf: Seq<char>, show_hidden: bool) -> Seq<
    int,
>
    decreases entries.len(),
{
    if entries.len() == 0 {
        Seq::empty()
    } else {
        let before = listed_places(entries.drop_last(), leaf, show_hidden);
        if listed_band(entries.last(), leaf, show_hidden) is Some {
            before.push(entries.len() - 1)
        } else {
            before
        }
    }
}

/// What a listed entry is ordered by.
pub open spec fn rank_of(e: DirEntry, leaf: Seq<char>, show_hidden: bool) -> RankView {
    RankView {
        band: listed_band(e, leaf, show_hidden)->0,
        is_file: !e.is_dir->0,
        name: e.name@,
    }
}

/// The places of the listed entries, in listing order.
pub open spec fn ordered_places(entries: Seq<DirEntry>, leaf: Seq<char>, show_hidden: bool) -> Seq<
    int,
> {
    let places = listed_places(entries, leaf, show_hidden);
    let ranks = places.map_values(|i: int| rank_of(entries[i], leaf, show_hidden));
    sorted_positions::<Rank>(ranks).map_values(|k: int| places[k])
}

/// The row of a listed entry: activating it goes into it.
pub open spec fn entry_row(e: DirEntry) -> PathRowView {
    let is_dir = e.is_dir->0;
    PathRowView {
        title: glyph(e.name@, is_dir) + " "@ + e.name@,
        subtitle: if is_dir {
            e.kind@
        } else {
            e.kind@ + " \u{b7} "@ + e.size@
        },
        action: ActionView::Drill(e.path@),
    }
}

/// The rows of a directory's entries.
pub open spec fn listing(entries: Seq<DirEntry>, leaf: Seq<char>, show_hidden: bool) -> Seq<
    PathRowView,
> {
    ordered_places(entries, leaf, show_hidden).map_values(|i: int| entry_row(entries[i]))
}

/// Lists a directory's entries that match a leaf: names that begin with it
/// before names that hold it, folders before files, then by name.
pub fn list_dir(entries: &Vec<DirEntry>, leaf: &str, show_hidden: bool) -> (r: Vec<PathRow>)
    ensures
        views(r@) == listing(entries@, leaf@, show_hidden),
{
    let whole = leaf.is_empty();
    let needle = text::to_lowercase(leaf);
    let mut places: Vec<usize> = Vec::new();
    let mut ranks: Vec<Rank> = Vec::new();
    let mut i: usize = 0;
    assert(entries@.take(0) =~= Seq::<DirEntry>::empty());
    assert(ints(places@) =~= Seq::<int>::empty());
    while i < entries.len()
        invariant
            i <= entries@.len(),
            whole == (leaf@.len() == 0),
            needle@ == text::lowercase(leaf@),
            ints(places@) == listed_places(entries@.take(i as int), leaf@, show_hidden),
            ranks@.len() == places@.len(),
            forall|k: int|
                0 <= k < places@.len() ==> #[trigger] places@[k] < entries@.len()
                    && entries@[places@[k] as int].is_dir is Some,
            forall|k: int|
                0 <= k < ranks@.len() ==> #[trigger] ranks@[k]@ == rank_of(
                    entries@[places@[k] as int],
                    leaf@,
                    show_hidden,
                ),
        decreases entries@.len() - i,
    {
        let e = &entries[i];
        let ghost before = ints(places@);
        proof {
            assert(entries@.take(i + 1).drop_last() =~= entries@.take(i as int));
        }
        if show_hidden || !text::starts_with(&e.name, ".") {
            if let Some(is_dir) = e.is_dir {
                let matched = if whole {
                    Some(0u8)
                } else {
                    band(&text::to_lowercase(&e.name), &needle)
                };
                if let Some(b) = matched {
                    places.push(i);
                    ranks.push(Rank { band: b, is_file: !is_dir, name: text::copy(&e.name) });
                    assert(ints(places@) =~= before.push(i as int));
                }
            }
        }
        i = i + 1;
    }
    assert(entries@.take(i as int) =~= entries@);
    let p = order::sort(&ranks);
    let mut out: Vec<PathRow> = Vec::new();
    let mut k: usize = 0;
    while k < p.len()
        invariant
            k <= p@.len(),
            out@.len() == k,
            ranks@.len() == places@.len(),
            forall|j: int|
                0 <= j < places@.len() ==> #[trigger] places@[j] < entries@.len()
                    && entries@[places@[j] as int].is_dir is Some,
            forall|j: int| 0 <= j < p@.len() ==> #[trigger] p@[j] < ranks@.len(),
            forall|j: int|
                0 <= j < k ==> #[trigger] out@[j]@ == entry_row(
                    entries@[places@[p@[j] as int] as int],
                ),
        decreases p@.len() - k,
    {
        let e = &entries[places[p[k]]];
        let is_dir = match e.is_dir {
            Some(d) => d,
            None => false,
        };
        out.push(
            PathRow {
                title: text::join3(glyph_for(&e.name, is_dir), " ", &e.name),
                subtitle: if is_dir {
                    text::copy(&e.kind)
                } else {
                    text::join3(&e.kind, " \u{b7} ", &e.size)
                },
                action: PathAction::Drill(text::copy(&e.path)),
            },
        );
        k = k + 1;
    }
    proof {
        let ps = listed_places(entries@, leaf@, show_hidden);
        let rs = ps.map_values(|i: int| rank_of(entries@[i], leaf@, show_hidden));
        assert(rs =~= views(ranks@)) by {
            assert forall|j: int| 0 <= j < rs.len() implies rs[j] == views(ranks@)[j] by {
                assert(ps[j] == places@[j]);
                assert(ranks@[j]@ == rank_of(entries@[places@[j] as int], leaf@, show_hidden));
            }
        }
        let want = listing(entries@, leaf@, show_hidden);
        assert(views(out@) =~= want) by {
            assert forall|j: int| 0 <= j < out@.len() implies views(out@)[j] == want[j] by {
                assert(ps[p@[j] as int] == ints(places@)[p@[j] as int]);
                assert(out@[j]@ == entry_row(entries@[places@[p@[j] as int] as int]));
            }
        }
    }
    out
}

/// The rows that complete a path against its parent, none where nothing
/// matches: hidden entries count only where the leaf itself begins with a dot.
pub fn completion_rows(entries: &Vec<DirEntry>, leaf: &str, limit: usize) -> (r: Option<
    Vec<PathRow>,
>)
    ensures
        ({
            let all = listing(entries@, leaf@, "."@.is_prefix_of(leaf@));
            match r {
                Some(rows) => all.len() > 0 && views(rows@) == limited(all, limit),
                None => all.len() == 0,
            }
        }),
{
    let mut rows = list_dir(entries, leaf, text::starts_with(leaf, "."));
    assert(views(rows@).len() == rows@.len());
    if rows.len() == 0 {
        return None;
    }
    cut(&mut rows, limit);
    Some(rows)
}

/// The parent and the leaf that a missing path is completed by, none where it
/// has none.
pub fn completion_target(path: &str) -> (r: Option<(String, String)>)
    ensures
        match (paths::parent_of(path@), paths::last_component(path@)) {
            (Some(parent), Some(leaf)) => r matches Some((p, l)) && p@ == parent && l@ == leaf,
            _ => r is None,
        },
        paths::ends_plainly(path@) && paths::final_piece(path@) != ".."@ ==> {
            &&& r matches Some((p, l))
            &&& p@ == paths::plain_parent(path@)
            &&& l@ == paths::final_piece(path@)
            &&& paths::joined_path(p@, l@) == path@
        },
{
    proof {
        if paths::ends_plainly(path@) && paths::final_piece(path@) != ".."@ {
            paths::law_parent_and_name_make_up_the_path(path@);
        }
    }
    match paths::parent(path) {
        Some(p) => match paths::file_name(path) {
            Some(l) => Some((p, l)),
            None => None,
        },
        None => None,
    }
}

/// What a query that is shaped like a path leads to.
pub enum Found {
    /// The path exists; these are the entries of a folder.
    Existing { target: Target, entries: Vec<DirEntry> },
    /// It does not; these entries of its parent may complete the leaf. None
    /// where there is no parent directory.
    Missing { completion: Option<(Vec<DirEntry>, String)>, display: String },
}

/// The row of a dead path.
pub open spec fn dead_row(display: Seq<char>) -> PathRowView {
    PathRowView {
        title: "No such path"@,
        subtitle: display,
        action: ActionView::Nothing,
    }
}

/// The rows for what a path leads to.
pub open spec fn found_view(found: Found, limit: usize) -> Seq<PathRowView> {
    match found {
        Found::Existing { target, entries } => existing_view(target, entries@, limit),
        Found::Missing { completion, display } => match completion {
            Some((entries, leaf)) => {
                let all = listing(entries@, leaf@, "."@.is_prefix_of(leaf@));
                if all.len() > 0 {
                    limited(all, limit)
                } else {
                    seq![dead_row(display@)]
                }
            },
            None => seq![dead_row(display@)],
        },
    }
}

/// The rows for a query that is shaped like a path. None stands for any other
/// query, which belongs elsewhere.
pub open spec fn rows_view(found: Option<Found>, limit: usize) -> Option<Seq<PathRowView>> {
    match found {
        None => None,
        Some(f) => Some(found_view(f, limit)),
    }
}

/// The row of a dead path.
fn dead(display: String) -> (r: Vec<PathRow>)
    ensures
        views(r@) == seq![dead_row(display@)],
{
    let rows = vec![
        PathRow {
            title: text::copy("No such path"),
            subtitle: display,
            action: PathAction::Nothing,
        },
    ];
    assert(views(rows@) =~= seq![dead_row(display@)]);
    rows
}

/// The rows for what a path leads to.
pub fn found_rows(found: Found, limit: usize) -> (r: Vec<PathRow>)
    ensures
        views(r@) == found_view(found, limit),
{
    match found {
        Found::Existing { target, entries } => existing_rows(&target, &entries, limit),
        Found::Missing { completion, display } => match completion {
            Some((entries, leaf)) => match completion_rows(&entries, &leaf, limit) {
                Some(rows) => rows,
                None => dead(display),
            },
            None => dead(display),
        },
    }
}

/// The rows for a query that is shaped like a path.
pub fn rows(found: Option<Found>, limit: usize) -> (r: Option<Vec<PathRow>>)
    ensures
        match r {
            Some(rows) => rows_view(found, limit) == Some(views(rows@)),
            None => rows_view(found, limit) is None,
        },
{
    match found {
        None => None,
        Some(f) => Some(found_rows(f, limit)),
    }
}

/// The query that going into a path rewrites to: folders get a trailing slash,
/// so that their contents are listed at once.
pub open spec fn drilled(path: Seq<char>, display: Seq<char>, is_dir: bool) -> Seq<char> {
    if is_dir && !is_app(path) {
        display + "/"@
    } else {
        display
    }
}

/// The query that going into a path rewrites to: folders get a trailing slash,
/// so that their contents are listed at once.
pub fn drill_query(path: &str, display: &str, is_dir: bool) -> (r: String)
    ensures
        r@ == drilled(path@, display@, is_dir),
{
    if is_dir && !text::ends_with(path, ".app") {
        text::join(display, "/")
    } else {
        text::copy(display)
    }
}

/// The path view never shows more rows than asked for, and says something
/// about every path where there is room for a row.
pub proof fn law_path_views_are_bounded_and_never_empty(found: Found, limit: usize)
    requires
        limit >= 1,
    ensures
        rows_view(Some(found), limit) matches Some(rows) && 1 <= rows.len() <= limit,
{
}

/// Any path that exists can be opened, revealed, previewed and copied, in this
/// order. The contents of a plain folder follow, and nothing follows for a file
/// or an app.
pub proof fn law_existing_paths_offer_four_actions(
    t: Target,
    entries: Seq<DirEntry>,
    limit: usize,
    i: int,
)
    requires
        limit >= 4,
        0 <= i < existing_view(t, entries, limit).len(),
    ensures
        ({
            let rows = existing_view(t, entries, limit);
            &&& 4 <= rows.len() <= limit
            &&& rows[0].action == ActionView::Open(t.path@)
            &&& rows[1].action == ActionView::Reveal(t.path@)
            &&& rows[2].action == ActionView::QuickLook(t.path@)
            &&& rows[3].action == ActionView::CopyPath(t.path@)
            &&& i >= 4 ==> is_listed(t) && rows[i].action is Drill
            &&& !is_listed(t) ==> rows.len() == 4
        }),
{
}

/// Whether an entry is listed among a folder's contents: one that is hidden or
/// does not read is not.
pub open spec fn is_visible(e: DirEntry) -> bool {
    !"."@.is_prefix_of(e.name@) && e.is_dir is Some
}

/// A folder's contents are all its visible entries, each once, folders before
/// files and each kind by name.
pub proof fn law_a_folder_lists_its_visible_entries(entries: Seq<DirEntry>)
    ensures
        ({
            let ps = ordered_places(entries, Seq::empty(), false);
            &&& listing(entries, Seq::empty(), false) == ps.map_values(
                |i: int| entry_row(entries[i]),
            )
            &&& forall|i: int|
                0 <= i < ps.len() ==> 0 <= #[trigger] ps[i] < entries.len() && is_visible(
                    entries[ps[i]],
                )
            &&& forall|at: int|
                0 <= at < entries.len() && is_visible(#[trigger] entries[at]) ==> ps.contains(at)
            &&& ps.no_duplicates()
            &&& forall|i: int, j: int|
                0 <= i < j < ps.len() ==> {
                    let (a, b) = (entries[#[trigger] ps[i]], entries[#[trigger] ps[j]]);
                    &&& b.is_dir->0 ==> a.is_dir->0
                    &&& a.is_dir == b.is_dir ==> !text::lex_before(b.name@, a.name@)
                }
        }),
{
    let leaf = Seq::<char>::empty();
    let places = listed_places(entries, leaf, false);
    let ranks = places.map_values(|i: int| rank_of(entries[i], leaf, false));
    let p = sorted_positions::<Rank>(ranks);
    let ps = ordered_places(entries, leaf, false);
    order::lemma_sorted_positions::<Rank>(ranks);
    order::lemma_order_complete::<Rank>(ranks, p);
    assert forall|i: int| 0 <= i < ps.len() implies 0 <= #[trigger] ps[i] < entries.len()
        && is_visible(entries[ps[i]]) by {
        lemma_listed(entries, leaf, false, p[i]);
    }
    assert forall|at: int| 0 <= at < entries.len() && is_visible(#[trigger] entries[at]) implies
        ps.contains(at) by {
        let k = lemma_listed_once(entries, leaf, false, at);
        assert(p.contains(k));
        let i = choose|i: int| 0 <= i < p.len() && p[i] == k;
        assert(ps[i] == at);
    }
    assert forall|i: int, j: int| 0 <= i < ps.len() && 0 <= j < ps.len() && i != j implies ps[i]
        != ps[j] by {
        lemma_listed_in_order(entries, leaf, false);
        assert(p[i] != p[j]);
    }
    assert forall|i: int, j: int| 0 <= i < j < ps.len() implies ({
        let (a, b) = (entries[#[trigger] ps[i]], entries[#[trigger] ps[j]]);
        &&& b.is_dir->0 ==> a.is_dir->0
        &&& a.is_dir == b.is_dir ==> !text::lex_before(b.name@, a.name@)
    }) by {
        lemma_listed(entries, leaf, false, p[i]);
        lemma_listed(entries, leaf, false, p[j]);
        law_listing_order(entries, leaf, false, i, j);
    }
}

/// Where an entry that is listed stands among the listed places.
proof fn lemma_listed_once(entries: Seq<DirEntry>, leaf: Seq<char>, show_hidden: bool, at: int) -> (
    k: int)
    requires
        0 <= at < entries.len(),
        listed_band(entries[at], leaf, show_hidden) is Some,
    ensures
        0 <= k < listed_places(entries, leaf, show_hidden).len(),
        listed_places(entries, leaf, show_hidden)[k] == at,
    decreases entries.len(),
{
    if at == entries.len() - 1 {
        listed_places(entries, leaf, show_hidden).len() - 1
    } else {
        lemma_listed_once(entries.drop_last(), leaf, show_hidden, at)
    }
}

/// The listed places go up.
proof fn lemma_listed_in_order(entries: Seq<DirEntry>, leaf: Seq<char>, show_hidden: bool)
    ensures
        forall|i: int, j: int|
            0 <= i < j < listed_places(entries, leaf, show_hidden).len()
                ==> #[trigger] listed_places(entries, leaf, show_hidden)[i]
                < #[trigger] listed_places(entries, leaf, show_hidden)[j],
    decreases entries.len(),
{
    if entries.len() > 0 {
        let head = entries.drop_last();
        lemma_listed_in_order(head, leaf, show_hidden);
        assert forall|k: int| 0 <= k < listed_places(head, leaf, show_hidden).len() implies
            #[trigger] listed_places(head, leaf, show_hidden)[k] < entries.len() - 1 by {
            lemma_listed(head, leaf, show_hidden, k);
        }
    }
}

/// Every row that completes a path browses on into an entry whose name holds the
/// leaf, in any case. Where nothing completes it, one row says so and does
/// nothing.
pub proof fn law_completions_browse_on(
    entries: Vec<DirEntry>,
    leaf: String,
    display: String,
    limit: usize,
    i: int,
)
    requires
        0 <= i < found_view(
            Found::Missing { completion: Some((entries, leaf)), display },
            limit,
        ).len(),
    ensures
        ({
            let hidden = "."@.is_prefix_of(leaf@);
            let places = ordered_places(entries@, leaf@, hidden);
            let row = found_view(
                Found::Missing { completion: Some((entries, leaf)), display },
                limit,
            )[i];
            if places.len() > 0 {
                &&& row == entry_row(entries@[places[i]])
                &&& row.action is Drill
                &&& listed_band(entries@[places[i]], leaf@, hidden) is Some
            } else {
                row == dead_row(display@)
            }
        }),
{
    let hidden = "."@.is_prefix_of(leaf@);
    let places = listed_places(entries@, leaf@, hidden);
    let ranks = places.map_values(|i: int| rank_of(entries@[i], leaf@, hidden));
    order::lemma_sorted_positions::<Rank>(ranks);
    let all = listing(entries@, leaf@, hidden);
    if all.len() > 0 {
        let k = sorted_positions::<Rank>(ranks)[i];
        lemma_listed(entries@, leaf@, hidden, k);
    }
}

/// Every listed place is that of an entry that is listed.
proof fn lemma_listed(entries: Seq<DirEntry>, leaf: Seq<char>, show_hidden: bool, k: int)
    requires
        0 <= k < listed_places(entries, leaf, show_hidden).len(),
    ensures
        ({
            let at = listed_places(entries, leaf, show_hidden)[k];
            0 <= at < entries.len() && listed_band(entries[at], leaf, show_hidden) is Some
        }),
    decreases entries.len(),
{
    if entries.len() > 0 {
        let head = listed_places(entries.drop_last(), leaf, show_hidden);
        if k < head.len() {
            lemma_listed(entries.drop_last(), leaf, show_hidden, k);
        }
    }
}

/// Names that begin with the leaf stand before names that hold it further in,
/// and within these folders before files, each in name order.
pub proof fn law_listing_order(
    entries: Seq<DirEntry>,
    leaf: Seq<char>,
    show_hidden: bool,
    i: int,
    j: int,
)
    requires
        0 <= i < j < ordered_places(entries, leaf, show_hidden).len(),
    ensures
        ({
            let ps = ordered_places(entries, leaf, show_hidden);
            !Rank::ahead(
                rank_of(entries[ps[j]], leaf, show_hidden),
                rank_of(entries[ps[i]], leaf, show_hidden),
            )
        }),
{
    let places = listed_places(entries, leaf, show_hidden);
    let ranks = places.map_values(|i: int| rank_of(entries[i], leaf, show_hidden));
    let p = sorted_positions::<Rank>(ranks);
    order::lemma_sorted_positions::<Rank>(ranks);
    assert(order::position_ahead::<Rank>(ranks, p[i], p[j]));
    Rank::lemma_asymmetric(ranks[p[i]], ranks[p[j]]);
}

/// A list is cut at its limit and no earlier, and keeps its first rows in place.
pub proof fn law_lists_keep_their_first_rows(rows: Seq<PathRowView>, limit: usize)
    ensures
        limited(rows, limit).len() <= limit,
        limited(rows, limit).len() == rows.len() || limited(rows, limit).len() == limit,
        limited(rows, limit).is_prefix_of(rows),
{
}

/// A path is shown under the name that it was joined from; app bundles, folders
/// and other files each have a glyph of their own.
pub proof fn law_names_and_glyphs(dir: Seq<char>, name: Seq<char>, is_dir: bool)
    ensures
        name.len() > 0 && !name.contains('/') && name != "."@ && name != ".."@ ==> shown_name(
            paths::joined_path(dir, name),
        ) == name,
        is_app(name) <==> name.len() >= 4 && name.skip(name.len() - 4) == seq!['.', 'a', 'p', 'p'],
        glyph(name, is_dir).len() == 1,
        glyph(name, is_dir)[0] == (if is_app(name) {
            '\u{2318}'
        } else if is_dir {
            '\u{1F4C1}'
        } else {
            '\u{1F4C4}'
        }),
{
    reveal_strlit(".app");
    reveal_strlit("\u{2318}");
    reveal_strlit("\u{1F4C1}");
    reveal_strlit("\u{1F4C4}");
    assert(".app"@ =~= seq!['.', 'a', 'p', 'p']);
    paths::law_joined_names_are_found_again(dir, name);
    if name.len() >= 4 {
        assert(name.skip(name.len() - 4) =~= name.subrange(name.len() - 4, name.len() as int));
    }
}

/// The row that opens a path names it, says what sort of thing it is, and shows
/// the path as it is displayed at its end: a folder's row counts its entries
/// before that, a file's gives its size, and an app's neither.
pub proof fn law_the_first_row_describes_the_path(t: Target)
    ensures
        ({
            let row = open_row(t);
            let name = shown_name(t.path@);
            let dot = " \u{b7} "@;
            &&& row.action == ActionView::Open(t.path@)
            &&& is_app(name) ==> row.title == "\u{2318} Launch "@ + name && row.subtitle
                == t.kind@ + dot + t.display@
            &&& !is_app(name) && t.is_dir ==> row.title == "\u{1F4C1} Open "@ + name
                + " in Finder"@ && row.subtitle == t.kind@ + dot + text::decimal(t.items as nat)
                + (if t.items == 1 {
                " item"@
            } else {
                " items"@
            }) + dot + t.display@
            &&& !is_app(name) && !t.is_dir ==> row.title == "\u{1F4C4} Open "@ + name
                && row.subtitle == t.kind@ + dot + t.size@ + dot + t.display@
        }),
{
    reveal_strlit(" \u{b7} ");
    reveal_strlit(" item");
    reveal_strlit(" items");
    reveal_strlit(" item \u{b7} ");
    reveal_strlit(" items \u{b7} ");
    let row = open_row(t);
    let dot = " \u{b7} "@;
    assert(" item \u{b7} "@ =~= " item"@ + dot);
    assert(" items \u{b7} "@ =~= " items"@ + dot);
    assert(t.kind@ + dot + (Seq::<char>::empty() + t.display@) =~= t.kind@ + dot + t.display@);
    assert(t.kind@ + dot + (t.size@ + dot + t.display@) =~= t.kind@ + dot + t.size@ + dot
        + t.display@);
    let d = text::decimal(t.items as nat);
    assert(t.kind@ + dot + (d + (" item"@ + dot) + t.display@) =~= t.kind@ + dot + d + " item"@
        + dot + t.display@);
    assert(t.kind@ + dot + (d + (" items"@ + dot) + t.display@) =~= t.kind@ + dot + d + " items"@
        + dot + t.display@);
}

/// The rows below it are named for what they do, and show what they do it to.
pub proof fn law_action_rows_show_the_path(t: Target)
    ensures
        action_rows(t)[1].title == "Reveal in Finder"@ && action_rows(t)[1].subtitle == t.display@,
        action_rows(t)[2].title == "Quick Look"@ && action_rows(t)[2].subtitle
            == "preview without opening"@,
        action_rows(t)[3].title == "Copy Path"@ && action_rows(t)[3].subtitle == t.path@,
{
}

/// The row of an entry shows its name behind a glyph, what it is, and the size
/// of a file; activating it goes on from the entry's own path.
pub proof fn law_entry_rows_show_their_entry(e: DirEntry)
    requires
        e.is_dir is Some,
    ensures
        ({
            let row = entry_row(e);
            &&& row.title == glyph(e.name@, e.is_dir->0).push(' ') + e.name@
            &&& e.is_dir == Some(true) ==> row.subtitle == e.kind@
            &&& e.is_dir == Some(false) ==> row.subtitle == e.kind@ + " \u{b7} "@ + e.size@
            &&& row.action == ActionView::Drill(e.path@)
        }),
{
    reveal_strlit(" ");
    let g = glyph(e.name@, e.is_dir->0);
    assert(g + " "@ + e.name@ =~= g.push(' ') + e.name@);
}

/// Whether an entry is among those that complete a leaf: it reads, hidden ones
/// are asked for or it is not hidden, and its name holds the leaf in any case.
pub open spec fn completes(e: DirEntry, leaf: Seq<char>, show_hidden: bool) -> bool {
    &&& e.is_dir is Some
    &&& show_hidden || e.name@.len() == 0 || e.name@[0] != '.'
    &&& leaf.len() == 0 || text::lowercase(leaf).len() == 0 || text::occurs(
        text::lowercase(e.name@),
        text::lowercase(leaf),
    )
}

/// Whether an entry's name begins with a leaf, in any case.
pub open spec fn begins(e: DirEntry, leaf: Seq<char>) -> bool {
    leaf.len() == 0 || text::lowercase(leaf).is_prefix_of(text::lowercase(e.name@))
}

/// An entry is listed exactly where it completes the leaf.
proof fn lemma_completes(e: DirEntry, leaf: Seq<char>, show_hidden: bool)
    ensures
        listed_band(e, leaf, show_hidden) is Some <==> completes(e, leaf, show_hidden),
        completes(e, leaf, show_hidden) ==> (listed_band(e, leaf, show_hidden) == Some(0u8)
            <==> begins(e, leaf)) && listed_band(e, leaf, show_hidden)->0 <= 1,
{
    reveal_strlit(".");
    let name = e.name@;
    if name.len() > 0 {
        assert("."@.is_prefix_of(name) <==> name[0] == '.') by {
            assert(name.subrange(0, 1)[0] == name[0]);
            if name[0] == '.' {
                assert(name.subrange(0, 1) =~= "."@);
            }
        }
    }
    let (l, n) = (text::lowercase(name), text::lowercase(leaf));
    if n.is_prefix_of(l) {
        assert(text::occurs_at(l, n, 0));
    }
    if n.len() == 0 {
        assert(l.subrange(0, 0) =~= n);
    }
}

/// The entries listed for a leaf are all that complete it, each once: those
/// whose name begins with it first, folders before files, and each of these by
/// name.
pub proof fn law_a_leaf_lists_all_that_completes_it(
    entries: Seq<DirEntry>,
    leaf: Seq<char>,
    show_hidden: bool,
)
    ensures
        ({
            let ps = ordered_places(entries, leaf, show_hidden);
            let rows = listing(entries, leaf, show_hidden);
            &&& rows.len() == ps.len()
            &&& forall|i: int|
                0 <= i < ps.len() ==> 0 <= #[trigger] ps[i] < entries.len() && completes(
                    entries[ps[i]],
                    leaf,
                    show_hidden,
                ) && rows[i] == entry_row(entries[ps[i]])
            &&& forall|at: int|
                0 <= at < entries.len() && completes(#[trigger] entries[at], leaf, show_hidden)
                    ==> ps.contains(at)
            &&& ps.no_duplicates()
            &&& forall|i: int, j: int|
                0 <= i < j < ps.len() ==> {
                    let (a, b) = (entries[#[trigger] ps[i]], entries[#[trigger] ps[j]]);
                    &&& begins(b, leaf) ==> begins(a, leaf)
                    &&& begins(a, leaf) == begins(b, leaf) && b.is_dir->0 ==> a.is_dir->0
                    &&& begins(a, leaf) == begins(b, leaf) && a.is_dir == b.is_dir
                        ==> !text::lex_before(b.name@, a.name@)
                }
        }),
{
    let places = listed_places(entries, leaf, show_hidden);
    let ranks = places.map_values(|i: int| rank_of(entries[i], leaf, show_hidden));
    let p = sorted_positions::<Rank>(ranks);
    let ps = ordered_places(entries, leaf, show_hidden);
    order::lemma_sorted_positions::<Rank>(ranks);
    order::lemma_order_complete::<Rank>(ranks, p);
    assert forall|i: int| 0 <= i < ps.len() implies 0 <= #[trigger] ps[i] < entries.len()
        && completes(entries[ps[i]], leaf, show_hidden) by {
        lemma_listed(entries, leaf, show_hidden, p[i]);
        lemma_completes(entries[ps[i]], leaf, show_hidden);
    }
    assert forall|at: int|
        0 <= at < entries.len() && completes(#[trigger] entries[at], leaf, show_hidden) implies
        ps.contains(at) by {
        lemma_completes(entries[at], leaf, show_hidden);
        let k = lemma_listed_once(entries, leaf, show_hidden, at);
        assert(p.contains(k));
        let i = choose|i: int| 0 <= i < p.len() && p[i] == k;
        assert(ps[i] == at);
    }
    assert forall|i: int, j: int| 0 <= i < ps.len() && 0 <= j < ps.len() && i != j implies ps[i]
        != ps[j] by {
        lemma_listed_in_order(entries, leaf, show_hidden);
        assert(p[i] != p[j]);
    }
    assert forall|i: int, j: int| 0 <= i < j < ps.len() implies ({
        let (a, b) = (entries[#[trigger] ps[i]], entries[#[trigger] ps[j]]);
        &&& begins(b, leaf) ==> begins(a, leaf)
        &&& begins(a, leaf) == begins(b, leaf) && b.is_dir->0 ==> a.is_dir->0
        &&& begins(a, leaf) == begins(b, leaf) && a.is_dir == b.is_dir ==> !text::lex_before(
            b.name@,
            a.name@,
        )
    }) by {
        lemma_listed(entries, leaf, show_hidden, p[i]);
        lemma_listed(entries, leaf, show_hidden, p[j]);
        lemma_completes(entries[ps[i]], leaf, show_hidden);
        lemma_completes(entries[ps[j]], leaf, show_hidden);
        law_listing_order(entries, leaf, show_hidden, i, j);
    }
}

/// What a name matches a leaf by: nothing more than whether it begins with it,
/// or holds it further in.
pub proof fn law_bands_tell_where_a_name_matches(
    before: Seq<char>,
    needle: Seq<char>,
    after: Seq<char>,
    lower: Seq<char>,
)
    ensures
        band_of(needle + after, needle) == Some(0u8),
        band_of(before + needle + after, needle) is Some,
        needle.len() > 0 && band_of(lower, needle) == Some(0u8) ==> needle.len() <= lower.len()
            && lower.take(needle.len() as int) == needle,
        band_of(lower, needle) == Some(1u8) ==> !needle.is_prefix_of(lower) && text::occurs(
            lower,
            needle,
        ),
        band_of(lower, needle) is None ==> !text::occurs(lower, needle),
{
    assert((needle + after).subrange(0, needle.len() as int) =~= needle);
    text::law_occurrences_lie_within(lower, needle, before, after);
}

/// A path that leads nowhere shows what completes it, as much as there is room
/// for, and otherwise one row that says that there is no such path. Hidden
/// entries complete only a leaf that begins with a dot.
pub proof fn law_dead_paths_show_what_completes_them(
    entries: Vec<DirEntry>,
    leaf: String,
    display: String,
    limit: usize,
)
    ensures
        ({
            let all = listing(entries@, leaf@, leaf@.len() > 0 && leaf@[0] == '.');
            let found = Found::Missing { completion: Some((entries, leaf)), display };
            let rows = found_view(found, limit);
            let dead = seq![
                PathRowView {
                    title: "No such path"@,
                    subtitle: display@,
                    action: ActionView::Nothing,
                },
            ];
            &&& all.len() == 0 ==> rows == dead
            &&& all.len() > 0 ==> rows.is_prefix_of(all) && (rows.len() == limit || rows.len()
                == all.len()) && rows.len() <= limit
            &&& found_view(Found::Missing { completion: None, display }, limit) == dead
            &&& rows_view(None, limit) is None
        }),
{
    reveal_strlit(".");
    let l = leaf@;
    if l.len() > 0 {
        assert(l.subrange(0, 1)[0] == l[0]);
        if l[0] == '.' {
            assert(l.subrange(0, 1) =~= "."@);
        }
    }
    assert("."@.is_prefix_of(l) <==> l.len() > 0 && l[0] == '.');
}

/// Going into a folder asks for what it displays with a slash at its end, which
/// lists its contents; going into an app or a file asks for the path alone.
pub proof fn law_drilling_into_folders_adds_a_slash(path: Seq<char>, display: Seq<char>)
    ensures
        drilled(path, display, false) == display,
        !is_app(path) ==> drilled(path, display, true) == display.push('/'),
        is_app(path) ==> drilled(path, display, true) == display,
{
    reveal_strlit("/");
    assert(display + "/"@ =~= display.push('/'));
}

/// The contents of a folder are listed below what can be done with it, in full
/// where there is room; those of an app bundle, and of what is no folder, are
/// not.
pub proof fn law_folders_list_their_contents(t: Target, entries: Seq<DirEntry>, limit: usize)
    ensures
        is_listed(t) <==> t.is_dir && !".app"@.is_suffix_of(shown_name(t.path@)),
        action_rows(t).len() == 4,
        ({
            let rows = existing_view(t, entries, limit);
            let all = if is_listed(t) {
                action_rows(t) + listing(entries, Seq::empty(), false)
            } else {
                action_rows(t)
            };
            &&& rows.is_prefix_of(all)
            &&& rows.len() <= limit
            &&& rows.len() == limit || rows.len() == all.len()
        }),
{
}

} // verus!
