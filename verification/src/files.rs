//! File search: a local index of the directories that a launcher query means,
//! with Spotlight to top up thin results.
//!
//! Hidden entries and a few junk names are skipped at every depth, symlinks
//! are never followed, and the whole index stops at a fixed number of
//! entries. The entries of each directory are visited in name order, so the
//! finished index is a function of the disk alone.

use crate::order::{self, ints, sorted_positions, views, Ranked};
use crate::paths;
use crate::router::{Item, ItemKind, ItemView};
use crate::text;
use vstd::prelude::*;

verus! {

/// How many levels below each content directory are indexed.
pub const DEPTH_CAP: usize = 4;

/// How many entries the index holds at most.
pub const MAX_ENTRIES: usize = 20000;

/// How many rows a query lists at most.
pub const RESULT_CAP: usize = 9;

/// With fewer local rows than this, Spotlight is asked.
pub const LOCAL_MIN_ROWS: usize = 3;

/// How many Spotlight hits are read at most.
pub const SPOTLIGHT_LINE_CAP: usize = 32;

/// One indexed entry.
#[derive(Debug, Clone, PartialEq, Eq)]
pub struct Entry {
    /// The file or directory name, which queries match against.
    pub name: String,
    /// Absolute path.
    pub path: String,
    /// Whether it is a directory; symlinks count as plain files.
    pub is_dir: bool,
}

/// What an [`Entry`] holds.
#[verifier::ext_equal]
pub struct EntryView {
    pub name: Seq<char>,
    pub path: Seq<char>,
    pub is_dir: bool,
}

impl View for Entry {
    type V = EntryView;

    open spec fn view(&self) -> EntryView {
        EntryView { name: self.name@, path: self.path@, is_dir: self.is_dir }
    }
}

impl Entry {
    /// A copy of the entry.
    pub fn copied(&self) -> (r: Entry)
        ensures
            r == *self,
    {
        Entry { name: self.name.clone(), path: self.path.clone(), is_dir: self.is_dir }
    }
}

/// Whether a name is skipped: hidden ones and the junk names.
pub open spec fn skipped(name: Seq<char>) -> bool {
    ||| "."@.is_prefix_of(name)
    ||| name == "Library"@
    ||| name == "node_modules"@
    ||| name == "target"@
    ||| name == ".git"@
    ||| name == "__pycache__"@
    ||| name == "venv"@
    ||| name == ".venv"@
}

/// Whether a name is skipped, at any depth.
pub fn skip_name(name: &str) -> (r: bool)
    ensures
        r == skipped(name@),
{
    text::starts_with(name, ".") || text::same(name, "Library") || text::same(name, "node_modules")
        || text::same(name, "target") || text::same(name, ".git") || text::same(name, "__pycache__")
        || text::same(name, "venv") || text::same(name, ".venv")
}

/// A directory entry as it reads, with what is below it. A name, a path or a
/// file type that does not read is none.
pub struct DirNode {
    pub name: Option<String>,
    pub path: Option<String>,
    pub is_dir: Option<bool>,
    pub children: Vec<DirNode>,
}

/// Whether a directory entry is indexed.
pub open spec fn indexed(node: DirNode) -> bool {
    node.name is Some && !skipped(node.name->0@) && node.path is Some && node.is_dir is Some
}

/// The index entry of a directory entry.
pub open spec fn entry_of(node: DirNode) -> EntryView {
    EntryView { name: node.name->0@, path: node.path->0@, is_dir: node.is_dir->0 }
}

/// The places of the directory entries that are indexed.
pub open spec fn indexed_places(nodes: Seq<DirNode>) -> Seq<int>
    decreases nodes.len(),
{
    if nodes.len() == 0 {
        Seq::empty()
    } else if indexed(nodes.last()) {
        indexed_places(nodes.drop_last()).push(nodes.len() - 1)
    } else {
        indexed_places(nodes.drop_last())
    }
}

impl Ranked for String {
    open spec fn ahead(a: Seq<char>, b: Seq<char>) -> bool {
        text::lex_before(a, b)
    }

    proof fn lemma_asymmetric(a: Seq<char>, b: Seq<char>) {
        text::lemma_lex_trichotomy(a, b);
    }

    proof fn lemma_separates(a: Seq<char>, b: Seq<char>, c: Seq<char>) {
        text::lemma_lex_separates(a, b, c);
    }

    fn is_ahead(&self, other: &String) -> bool {
        text::before(self, other)
    }
}

/// The places of the directory entries that are indexed, in name order.
pub open spec fn visited_places(nodes: Seq<DirNode>) -> Seq<int> {
    let places = indexed_places(nodes);
    let names = places.map_values(|i: int| nodes[i].name->0@);
    sorted_positions::<String>(names).map_values(|k: int| places[k])
}

/// The entries below a directory, `left` levels deep: each indexed entry in
/// name order, with what is below it directly after it.
pub open spec fn below(nodes: Seq<DirNode>, left: nat) -> Seq<EntryView>
    decreases left, 1nat, 0nat,
{
    if left == 0 {
        Seq::empty()
    } else {
        below_in_order(nodes, visited_places(nodes), left)
    }
}

/// The entries at the given places of a directory, with what is below each.
pub open spec fn below_in_order(nodes: Seq<DirNode>, places: Seq<int>, left: nat) -> Seq<EntryView>
    decreases left, 0nat, places.len(),
{
    if left == 0 || places.len() == 0 {
        Seq::empty()
    } else {
        let node = nodes[places.last()];
        let inner = if node.is_dir->0 {
            below(node.children@, (left - 1) as nat)
        } else {
            Seq::empty()
        };
        below_in_order(nodes, places.drop_last(), left) + (seq![entry_of(node)] + inner)
    }
}

/// At most `cap` entries.
pub open spec fn bounded(entries: Seq<EntryView>, cap: usize) -> Seq<EntryView> {
    if entries.len() <= cap {
        entries
    } else {
        entries.take(cap as int)
    }
}

/// An index after more entries were met: one that is full stays as it is.
pub open spec fn filled(before: Seq<EntryView>, more: Seq<EntryView>, cap: usize) -> Seq<EntryView> {
    if before.len() >= cap {
        before
    } else {
        bounded(before + more, cap)
    }
}

/// The places of the directory entries to visit, in the order to visit them.
pub fn visit_order(nodes: &Vec<DirNode>) -> (r: Vec<usize>)
    ensures
        ints(r@) == visited_places(nodes@),
        forall|k: int| 0 <= k < r@.len() ==> #[trigger] r@[k] < nodes@.len() && indexed(
            nodes@[r@[k] as int],
        ),
{
    let mut places: Vec<usize> = Vec::new();
    let mut names: Vec<String> = Vec::new();
    let mut i: usize = 0;
    assert(nodes@.take(0) =~= Seq::<DirNode>::empty());
    assert(ints(places@) =~= Seq::<int>::empty());
    while i < nodes.len()
        invariant
            i <= nodes@.len(),
            ints(places@) == indexed_places(nodes@.take(i as int)),
            names@.len() == places@.len(),
            forall|k: int|
                0 <= k < places@.len() ==> #[trigger] places@[k] < nodes@.len() && indexed(
                    nodes@[places@[k] as int],
                ),
            forall|k: int|
                0 <= k < names@.len() ==> #[trigger] names@[k]@
                    == nodes@[places@[k] as int].name->0@,
        decreases nodes@.len() - i,
    {
        let ghost before = ints(places@);
        proof {
            assert(nodes@.take(i + 1).drop_last() =~= nodes@.take(i as int));
        }
        let node = &nodes[i];
        if let Some(name) = &node.name {
            if !skip_name(name) && node.path.is_some() && node.is_dir.is_some() {
                places.push(i);
                names.push(text::copy(name));
                assert(ints(places@) =~= before.push(i as int));
            }
        }
        i = i + 1;
    }
    assert(nodes@.take(i as int) =~= nodes@);
    let p = order::sort(&names);
    let mut out: Vec<usize> = Vec::new();
    let mut k: usize = 0;
    while k < p.len()
        invariant
            k <= p@.len(),
            out@.len() == k,
            names@.len() == places@.len(),
            forall|j: int|
                0 <= j < places@.len() ==> #[trigger] places@[j] < nodes@.len() && indexed(
                    nodes@[places@[j] as int],
                ),
            forall|j: int| 0 <= j < p@.len() ==> #[trigger] p@[j] < names@.len(),
            forall|j: int| 0 <= j < k ==> #[trigger] out@[j] == places@[p@[j] as int],
        decreases p@.len() - k,
    {
        out.push(places[p[k]]);
        k = k + 1;
    }
    proof {
        let ps = indexed_places(nodes@);
        let ns = ps.map_values(|i: int| nodes@[i].name->0@);
        assert(ns =~= views(names@)) by {
            assert forall|j: int| 0 <= j < ns.len() implies ns[j] == views(names@)[j] by {
                assert(ps[j] == places@[j]);
                assert(names@[j]@ == nodes@[places@[j] as int].name->0@);
            }
        }
        assert(ints(out@) =~= visited_places(nodes@)) by {
            assert forall|j: int| 0 <= j < out@.len() implies ints(out@)[j] == visited_places(
                nodes@,
            )[j] by {
                assert(ps[p@[j] as int] == ints(places@)[p@[j] as int]);
            }
        }
    }
    out
}

/// The index while it is built.
pub struct Index {
    pub entries: Vec<Entry>,
    /// How many entries it may hold.
    pub cap: usize,
}

impl Index {
    /// An empty index.
    pub fn new(cap: usize) -> (r: Index)
        ensures
            r.entries@.len() == 0,
            r.cap == cap,
    {
        Index { entries: Vec::new(), cap }
    }

    /// Whether the contents of a directory are wanted, whose entries are at
    /// `depth`.
    pub fn wants(&self, depth: usize, max_depth: usize) -> (r: bool)
        ensures
            r == (depth <= max_depth && self.entries@.len() < self.cap),
    {
        depth <= max_depth && self.entries.len() < self.cap
    }

    /// Takes an entry into the index, unless it is full.
    pub fn accept(&mut self, entry: Entry) -> (r: bool)
        ensures
            final(self).cap == old(self).cap,
            r == (old(self).entries@.len() < old(self).cap),
            final(self).entries@ == (if r {
                old(self).entries@.push(entry)
            } else {
                old(self).entries@
            }),
    {
        if self.entries.len() >= self.cap {
            return false;
        }
        self.entries.push(entry);
        true
    }

    /// Indexes the entries of a directory, which are at `depth`, down to
    /// `max_depth`. Stops once the index is full.
    pub fn walk_dir(&mut self, nodes: &Vec<DirNode>, depth: usize, max_depth: usize)
        ensures
            final(self).cap == old(self).cap,
            views(final(self).entries@) == filled(
                views(old(self).entries@),
                below(
                    nodes@,
                    if depth <= max_depth {
                        (max_depth - depth + 1) as nat
                    } else {
                        0
                    },
                ),
                old(self).cap,
            ),
        decreases max_depth + 1 - depth,
    {
        let ghost e0 = views(self.entries@);
        let ghost left = if depth <= max_depth {
            (max_depth - depth + 1) as nat
        } else {
            0
        };
        assert(e0.len() == self.entries@.len());
        if !self.wants(depth, max_depth) {
            proof {
                if depth > max_depth {
                    assert(e0 + below(nodes@, left) =~= e0);
                }
            }
            return;
        }
        let places = visit_order(nodes);
        let ghost ps = ints(places@);
        let cap: usize = self.cap;
        let mut k: usize = 0;
        proof {
            assert(ps.take(0) =~= Seq::<int>::empty());
            assert(e0 + Seq::<EntryView>::empty() =~= e0);
        }
        while k < places.len()
            invariant
                k <= places@.len(),
                ps == ints(places@),
                depth <= max_depth,
                left == max_depth - depth + 1,
                self.cap == cap == old(self).cap,
                e0 == views(old(self).entries@),
                e0.len() < cap,
                ps == visited_places(nodes@),
                forall|j: int|
                    0 <= j < places@.len() ==> #[trigger] places@[j] < nodes@.len() && indexed(
                        nodes@[places@[j] as int],
                    ),
                views(self.entries@) == bounded(
                    e0 + below_in_order(nodes@, ps.take(k as int), left),
                    cap,
                ),
            decreases places@.len() - k,
        {
            let node = &nodes[places[k]];
            let ghost e1 = views(self.entries@);
            let ghost done = below_in_order(nodes@, ps.take(k as int), left);
            let ghost mine = seq![entry_of(*node)];
            let ghost inner = if node.is_dir->0 {
                below(node.children@, (left - 1) as nat)
            } else {
                Seq::empty()
            };
            proof {
                assert(e1.len() == self.entries@.len());
                assert(ps.take(k + 1).drop_last() =~= ps.take(k as int));
                assert(ps.take(k + 1).last() == places@[k as int]);
                assert(below_in_order(nodes@, ps.take(k + 1), left) == done + (mine + inner));
            }
            if let (Some(name), Some(path), Some(is_dir)) = (&node.name, &node.path, node.is_dir) {
                let entry = Entry { name: text::copy(name), path: text::copy(path), is_dir };
                let ok = self.accept(entry);
                if !ok {
                    proof {
                        lemma_full(e0, done, nodes@, ps, left, k as int, cap);
                    }
                    return;
                }
                proof {
                    assert(views(self.entries@) =~= e1.push(entry@));
                    assert(e1 == e0 + done);
                    assert(e1.push(entry@) =~= e1 + mine);
                }
                let ghost e2 = views(self.entries@);
                assert(e2.len() == self.entries@.len());
                if is_dir && depth < max_depth {
                    self.walk_dir(&node.children, depth + 1, max_depth);
                } else {
                    assert(inner =~= Seq::empty());
                    assert(e2 + inner =~= e2);
                }
                proof {
                    if e2.len() >= cap {
                        assert(bounded(e2 + inner, cap) =~= e2);
                    }
                    assert(views(self.entries@) =~= bounded(e2 + inner, cap));
                    assert(e2 + inner =~= e0 + (done + (mine + inner)));
                }
            }
            k = k + 1;
        }
        assert(ps.take(k as int) =~= ps);
    }
}

/// A full index stays as it is, whatever else would come.
proof fn lemma_full(
    e0: Seq<EntryView>,
    done: Seq<EntryView>,
    nodes: Seq<DirNode>,
    ps: Seq<int>,
    left: nat,
    k: int,
    cap: usize,
)
    requires
        0 <= k < ps.len(),
        left > 0,
        done == below_in_order(nodes, ps.take(k), left),
        bounded(e0 + done, cap).len() >= cap,
    ensures
        bounded(e0 + below_in_order(nodes, ps, left), cap) == bounded(e0 + done, cap),
{
    lemma_prefix(nodes, ps, left, k);
    let all = below_in_order(nodes, ps, left);
    assert(done == all.subrange(0, done.len() as int));
    assert(bounded(e0 + all, cap) =~= bounded(e0 + done, cap)) by {
        assert forall|i: int| 0 <= i < cap implies (e0 + all)[i] == (e0 + done)[i] by {
            if i >= e0.len() {
                assert(done[i - e0.len()] == all.subrange(0, done.len() as int)[i - e0.len()]);
            }
        }
    }
}

/// What is below the first places begins what is below all of them.
proof fn lemma_prefix(nodes: Seq<DirNode>, ps: Seq<int>, left: nat, k: int)
    requires
        0 <= k <= ps.len(),
    ensures
        below_in_order(nodes, ps.take(k), left).is_prefix_of(below_in_order(nodes, ps, left)),
    decreases ps.len() - k,
{
    let a = below_in_order(nodes, ps.take(k), left);
    let c = below_in_order(nodes, ps, left);
    if k == ps.len() {
        assert(ps.take(k) =~= ps);
        assert(a =~= c.subrange(0, a.len() as int));
    } else {
        lemma_prefix(nodes, ps, left, k + 1);
        let b = below_in_order(nodes, ps.take(k + 1), left);
        assert(ps.take(k + 1).drop_last() =~= ps.take(k));
        assert(b == c.subrange(0, b.len() as int));
        assert(a =~= c.subrange(0, a.len() as int)) by {
            assert forall|i: int| 0 <= i < a.len() implies a[i] == c[i] by {
                assert(b[i] == c.subrange(0, b.len() as int)[i]);
                assert(b[i] == a[i]);
            }
        }
    }
}

/// The directories to index, each with its depth: the home directory one
/// level deep, and the content directories in it.
pub fn index_roots(home: Option<&str>) -> (r: Vec<(String, usize)>)
    ensures
        match home {
            None => r@.len() == 0,
            Some(h) => {
                &&& r@.len() == 4
                &&& r@[0].0@ == h@ && r@[0].1 == 1
                &&& r@[1].0@ == paths::joined_path(h@, "Desktop"@) && r@[1].1 == DEPTH_CAP
                &&& r@[2].0@ == paths::joined_path(h@, "Documents"@) && r@[2].1 == DEPTH_CAP
                &&& r@[3].0@ == paths::joined_path(h@, "Downloads"@) && r@[3].1 == DEPTH_CAP
            },
        },
{
    match home {
        None => Vec::new(),
        Some(h) => vec![
            (text::copy(h), 1),
            (paths::join_path(h, "Desktop"), DEPTH_CAP),
            (paths::join_path(h, "Documents"), DEPTH_CAP),
            (paths::join_path(h, "Downloads"), DEPTH_CAP),
        ],
    }
}

/// The published index, and how far its making has come.
pub struct IndexState {
    pub entries: Vec<Entry>,
    /// A walk is under way.
    pub building: bool,
    /// At least one full walk has finished.
    pub built_once: bool,
    /// The first walk was asked for.
    pub started: bool,
}

impl IndexState {
    /// Nothing indexed yet.
    pub fn new() -> (r: IndexState)
        ensures
            r.entries@.len() == 0,
            !r.building && !r.built_once && !r.started,
    {
        IndexState { entries: Vec::new(), building: false, built_once: false, started: false }
    }

    /// Asks for the first walk. The result says whether to begin one: only the
    /// first call does, and not while one is under way.
    pub fn start(&mut self) -> (r: bool)
        ensures
            r == (!old(self).started && !old(self).building),
            final(self).started,
            final(self).building == (old(self).building || r),
            final(self).built_once == old(self).built_once,
            final(self).entries == old(self).entries,
    {
        if self.started {
            return false;
        }
        self.started = true;
        self.refresh()
    }

    /// Asks for another walk. The result says whether to begin one: not while
    /// one is under way.
    pub fn refresh(&mut self) -> (r: bool)
        ensures
            r == !old(self).building,
            final(self).building,
            final(self).built_once == old(self).built_once,
            final(self).started == old(self).started,
            final(self).entries == old(self).entries,
    {
        if self.building {
            return false;
        }
        self.building = true;
        true
    }

    /// Whether at least one full walk has finished.
    pub fn ready(&self) -> (r: bool)
        ensures
            r == self.built_once,
    {
        self.built_once
    }

    /// Publishes what a walk has found so far. The result says whether the
    /// walk goes on to the next root.
    pub fn publish(&mut self, entries: Vec<Entry>) -> (r: bool)
        ensures
            final(self).entries == entries,
            final(self).building == old(self).building,
            final(self).built_once == old(self).built_once,
            final(self).started == old(self).started,
            r == (entries@.len() < MAX_ENTRIES),
    {
        let more = entries.len() < MAX_ENTRIES;
        self.entries = entries;
        more
    }

    /// Publishes what a finished walk has found.
    pub fn finish(&mut self, entries: Vec<Entry>)
        ensures
            final(self).entries == entries,
            !final(self).building,
            final(self).built_once,
            final(self).started == old(self).started,
    {
        self.entries = entries;
        self.building = false;
        self.built_once = true;
    }
}

/// An entry that a query matches, with its score.
pub struct Hit {
    pub score: i64,
    pub path: String,
}

/// What a [`Hit`] holds.
#[verifier::ext_equal]
pub struct HitView {
    pub score: i64,
    pub path: Seq<char>,
}

impl View for Hit {
    type V = HitView;

    open spec fn view(&self) -> HitView {
        HitView { score: self.score, path: self.path@ }
    }
}

impl Ranked for Hit {
    open spec fn ahead(a: HitView, b: HitView) -> bool {
        a.score > b.score || (a.score == b.score && text::lex_before(a.path, b.path))
    }

    proof fn lemma_asymmetric(a: HitView, b: HitView) {
        text::lemma_lex_trichotomy(a.path, b.path);
    }

    proof fn lemma_separates(a: HitView, b: HitView, c: HitView) {
        text::lemma_lex_separates(a.path, b.path, c.path);
    }

    fn is_ahead(&self, other: &Hit) -> bool {
        self.score > other.score || (self.score == other.score && text::before(
            &self.path,
            &other.path,
        ))
    }
}

/// The places of the entries that have a score.
pub open spec fn scored_places(scores: Seq<Option<i64>>) -> Seq<int>
    decreases scores.len(),
{
    if scores.len() == 0 {
        Seq::empty()
    } else if scores.last() is Some {
        scored_places(scores.drop_last()).push(scores.len() - 1)
    } else {
        scored_places(scores.drop_last())
    }
}

/// The places of the entries that match, best first; equal scores are ordered
/// by path.
pub open spec fn ranked_places(entries: Seq<EntryView>, scores: Seq<Option<i64>>) -> Seq<int> {
    let places = scored_places(scores);
    let hits = places.map_values(
        |i: int| HitView { score: scores[i]->0, path: entries[i].path },
    );
    sorted_positions::<Hit>(hits).map_values(|k: int| places[k])
}

/// The first of a list of places, at most `cap`.
pub open spec fn capped(places: Seq<int>, cap: usize) -> Seq<int> {
    if places.len() <= cap {
        places
    } else {
        places.take(cap as int)
    }
}

/// The entries that match a query, best first, ties by path, at most `cap`.
/// `scores` holds, for each entry, how well its name matches the query, and
/// none where it does not.
pub fn rank_local(entries: &Vec<Entry>, scores: &Vec<Option<i64>>, cap: usize) -> (r: Vec<Entry>)
    requires
        scores@.len() == entries@.len(),
    ensures
        views(r@) == capped(ranked_places(views(entries@), scores@), cap).map_values(
            |i: int| views(entries@)[i],
        ),
{
    let ghost es = views(entries@);
    let mut places: Vec<usize> = Vec::new();
    let mut hits: Vec<Hit> = Vec::new();
    let mut i: usize = 0;
    assert(scores@.take(0) =~= Seq::<Option<i64>>::empty());
    assert(ints(places@) =~= Seq::<int>::empty());
    while i < entries.len()
        invariant
            i <= entries@.len(),
            es == views(entries@),
            scores@.len() == entries@.len(),
            ints(places@) == scored_places(scores@.take(i as int)),
            hits@.len() == places@.len(),
            forall|k: int|
                0 <= k < places@.len() ==> #[trigger] places@[k] < entries@.len()
                    && scores@[places@[k] as int] is Some,
            forall|k: int|
                0 <= k < hits@.len() ==> #[trigger] hits@[k]@ == (HitView {
                    score: scores@[places@[k] as int]->0,
                    path: entries@[places@[k] as int].path@,
                }),
        decreases entries@.len() - i,
    {
        let ghost before = ints(places@);
        proof {
            assert(scores@.take(i + 1).drop_last() =~= scores@.take(i as int));
        }
        if let Some(score) = scores[i] {
            places.push(i);
            hits.push(Hit { score, path: text::copy(&entries[i].path) });
            assert(ints(places@) =~= before.push(i as int));
        }
        i = i + 1;
    }
    assert(scores@.take(i as int) =~= scores@);
    let p = order::sort(&hits);
    let mut out: Vec<Entry> = Vec::new();
    let mut k: usize = 0;
    while k < p.len() && k < cap
        invariant
            k <= p@.len(),
            k <= cap,
            out@.len() == k,
            hits@.len() == places@.len(),
            forall|j: int| 0 <= j < places@.len() ==> #[trigger] places@[j] < entries@.len(),
            forall|j: int| 0 <= j < p@.len() ==> #[trigger] p@[j] < hits@.len(),
            forall|j: int|
                0 <= j < k ==> #[trigger] out@[j] == entries@[places@[p@[j] as int] as int],
        decreases p@.len() - k,
    {
        out.push(entries[places[p[k]]].copied());
        k = k + 1;
    }
    proof {
        let ps = scored_places(scores@);
        let hs = ps.map_values(
            |i: int| HitView { score: scores@[i]->0, path: es[i].path },
        );
        assert(hs =~= views(hits@)) by {
            assert forall|j: int| 0 <= j < hs.len() implies hs[j] == views(hits@)[j] by {
                assert(ps[j] == places@[j]);
                assert(es[places@[j] as int] == entries@[places@[j] as int]@);
                assert(hits@[j]@ == (HitView {
                    score: scores@[places@[j] as int]->0,
                    path: entries@[places@[j] as int].path@,
                }));
            }
        }
        let ranked = ranked_places(es, scores@);
        assert(ranked =~= ints(p@).map_values(|k: int| ps[k]));
        let want = capped(ranked, cap).map_values(|i: int| es[i]);
        assert(views(out@) =~= want) by {
            assert forall|j: int| 0 <= j < out@.len() implies views(out@)[j] == want[j] by {
                assert(ps[p@[j] as int] == ints(places@)[p@[j] as int]);
                assert(out@[j] == entries@[places@[p@[j] as int] as int]);
            }
        }
    }
    out
}

/// The id of the row for a path.
pub open spec fn file_id(path: Seq<char>) -> Seq<char> {
    "file."@ + path
}

/// The id of the row for a path.
pub fn id_for_path(path: &str) -> (r: String)
    ensures
        r@ == file_id(path@),
{
    text::join("file.", path)
}

/// The path that a row's id names, none where the id is no file's.
pub fn path_from_id(id: &str) -> (r: Option<String>)
    ensures
        r is Some <==> "file."@.is_prefix_of(id@),
        r matches Some(p) ==> p@ == id@.skip("file."@.len() as int),
{
    text::strip_prefix(id, "file.")
}

/// The id of a path's row leads back to the path.
pub proof fn law_ids_lead_back(path: Seq<char>)
    ensures
        "file."@.is_prefix_of(file_id(path)),
        file_id(path).skip("file."@.len() as int) == path,
{
    assert("file."@ =~= file_id(path).subrange(0, "file."@.len() as int));
    assert(file_id(path).skip("file."@.len() as int) =~= path);
}

/// A path with the home directory at its front shown as a tilde: the whole
/// path, or what stands before a slash.
pub open spec fn with_tilde(path: Seq<char>, home: Seq<char>) -> Seq<char> {
    if home.len() == 0 {
        path
    } else if path == home {
        "~"@
    } else if (home + "/"@).is_prefix_of(path) {
        "~"@ + path.skip(home.len() as int)
    } else {
        path
    }
}

/// Shows the home directory at the front of a path as a tilde.
pub fn abbreviate_home(path: &str, home: &str) -> (r: String)
    ensures
        r@ == with_tilde(path@, home@),
{
    if home.is_empty() {
        return text::copy(path);
    }
    if text::same(path, home) {
        return text::copy("~");
    }
    let slash = text::join(home, "/");
    if text::starts_with(path, &slash) {
        if let Some(rest) = text::strip_prefix(path, home) {
            return text::join("~", &rest);
        }
        assert(home@ =~= path@.subrange(0, home@.len() as int)) by {
            assert(slash@ == path@.subrange(0, slash@.len() as int));
            assert forall|i: int| 0 <= i < home@.len() implies home@[i] == path@[i] by {
                assert(slash@[i] == path@.subrange(0, slash@.len() as int)[i]);
            }
        }
    }
    text::copy(path)
}

/// The row of a file.
pub open spec fn file_row(name: Seq<char>, path: Seq<char>, home: Seq<char>) -> ItemView {
    ItemView {
        id: file_id(path),
        title: name,
        subtitle: with_tilde(path, home),
        kind: ItemKind::File,
    }
}

/// The row of a file.
fn item_for(name: &str, path: &str, home: &str) -> (r: Item)
    ensures
        r@ == file_row(name@, path@, home@),
{
    Item {
        id: id_for_path(path),
        title: text::copy(name),
        subtitle: abbreviate_home(path, home),
        kind: ItemKind::File,
    }
}

/// A Spotlight hit: file name and path.
pub type SpotlightHit = (String, String);

/// Name and path of each local entry.
pub open spec fn local_pairs(local: Seq<EntryView>) -> Seq<(Seq<char>, Seq<char>)> {
    local.map_values(|e: EntryView| (e.name, e.path))
}

/// Whether a list of rows holds a path.
pub open spec fn has_path(rows: Seq<(Seq<char>, Seq<char>)>, path: Seq<char>) -> bool {
    exists|i: int| 0 <= i < rows.len() && (#[trigger] rows[i]).1 == path
}

/// Rows topped up with Spotlight hits: each path once, up to the cap.
pub open spec fn topped_up(
    rows: Seq<(Seq<char>, Seq<char>)>,
    hits: Seq<SpotlightHit>,
) -> Seq<(Seq<char>, Seq<char>)>
    decreases hits.len(),
{
    if hits.len() == 0 {
        rows
    } else {
        let before = topped_up(rows, hits.drop_last());
        let (name, path) = (hits.last().0@, hits.last().1@);
        if before.len() >= RESULT_CAP || has_path(before, path) {
            before
        } else {
            before.push((name, path))
        }
    }
}

/// The rows that a query lists, as name and path. Nothing is listed for a
/// query without words.
pub open spec fn listed(
    query: Seq<char>,
    local: Seq<EntryView>,
    hits: Seq<SpotlightHit>,
) -> Seq<(Seq<char>, Seq<char>)> {
    if text::trimmed(query).len() == 0 {
        Seq::empty()
    } else if local.len() < LOCAL_MIN_ROWS {
        topped_up(local_pairs(local), hits)
    } else {
        local_pairs(local)
    }
}

/// Whether Spotlight is asked, given how many local rows there are.
pub fn wants_spotlight(local_rows: usize) -> (r: bool)
    ensures
        r == (local_rows < LOCAL_MIN_ROWS),
{
    local_rows < LOCAL_MIN_ROWS
}

/// The file rows for a query: the ranked local entries, and Spotlight hits
/// behind them where the local ones run thin.
pub fn items(query: &str, local: &Vec<Entry>, hits: &Vec<SpotlightHit>, home: &str) -> (r: Vec<
    Item,
>)
    ensures
        views(r@) == listed(query@, views(local@), hits@).map_values(
            |p: (Seq<char>, Seq<char>)| file_row(p.0, p.1, home@),
        ),
{
    let ghost make = |p: (Seq<char>, Seq<char>)| file_row(p.0, p.1, home@);
    let mut out: Vec<Item> = Vec::new();
    if text::trim(query).as_str().is_empty() {
        assert(views(out@) =~= Seq::<(Seq<char>, Seq<char>)>::empty().map_values(make));
        return out;
    }
    let mut seen: Vec<String> = Vec::new();
    let ghost pairs = local_pairs(views(local@));
    let mut i: usize = 0;
    while i < local.len()
        invariant
            i <= local@.len(),
            pairs == local_pairs(views(local@)),
            make == (|p: (Seq<char>, Seq<char>)| file_row(p.0, p.1, home@)),
            out@.len() == i,
            seen@.len() == i,
            forall|k: int| 0 <= k < i ==> #[trigger] out@[k]@ == make(pairs[k]),
            forall|k: int| 0 <= k < i ==> #[trigger] seen@[k]@ == pairs[k].1,
        decreases local@.len() - i,
    {
        out.push(item_for(&local[i].name, &local[i].path, home));
        seen.push(text::copy(&local[i].path));
        i = i + 1;
    }
    if !wants_spotlight(local.len()) {
        assert(views(out@) =~= pairs.map_values(make));
        return out;
    }
    let ghost mut rows = pairs;
    let mut j: usize = 0;
    assert(hits@.take(0) =~= Seq::<SpotlightHit>::empty());
    while j < hits.len()
        invariant
            j <= hits@.len(),
            make == (|p: (Seq<char>, Seq<char>)| file_row(p.0, p.1, home@)),
            rows == topped_up(pairs, hits@.take(j as int)),
            out@.len() == rows.len(),
            seen@.len() == rows.len(),
            forall|k: int| 0 <= k < rows.len() ==> #[trigger] out@[k]@ == make(rows[k]),
            forall|k: int| 0 <= k < rows.len() ==> #[trigger] seen@[k]@ == rows[k].1,
        decreases hits@.len() - j,
    {
        proof {
            assert(hits@.take(j + 1).drop_last() =~= hits@.take(j as int));
        }
        let (name, path) = (&hits[j].0, &hits[j].1);
        let known = known_path(&seen, path);
        proof {
            assert(known == has_path(rows, path@)) by {
                if known {
                    let k = choose|k: int| 0 <= k < seen@.len() && seen@[k]@ == path@;
                    assert(rows[k].1 == path@);
                }
                if has_path(rows, path@) {
                    let k = choose|k: int| 0 <= k < rows.len() && (#[trigger] rows[k]).1 == path@;
                    assert(seen@[k]@ == path@);
                }
            }
        }
        if out.len() < RESULT_CAP && !known {
            out.push(item_for(name, path, home));
            seen.push(text::copy(path));
            proof {
                rows = rows.push((name@, path@));
            }
        }
        j = j + 1;
    }
    assert(hits@.take(j as int) =~= hits@);
    assert(views(out@) =~= rows.map_values(make));
    out
}

/// Whether a path is in a list.
fn known_path(seen: &Vec<String>, path: &str) -> (r: bool)
    ensures
        r == exists|k: int| 0 <= k < seen@.len() && #[trigger] seen@[k]@ == path@,
{
    let mut i: usize = 0;
    while i < seen.len()
        invariant
            i <= seen@.len(),
            forall|k: int| 0 <= k < i ==> #[trigger] seen@[k]@ != path@,
        decreases seen@.len() - i,
    {
        if text::same(&seen[i], path) {
            return true;
        }
        i = i + 1;
    }
    false
}

/// Topping up lists no path twice that was listed once, and never exceeds the
/// cap where the local rows did not.
pub proof fn law_paths_are_listed_once(
    rows: Seq<(Seq<char>, Seq<char>)>,
    hits: Seq<SpotlightHit>,
    i: int,
    j: int,
)
    requires
        rows.len() <= RESULT_CAP,
        forall|a: int, b: int|
            0 <= a < b < rows.len() ==> (#[trigger] rows[a]).1 != (#[trigger] rows[b]).1,
        0 <= i < j < topped_up(rows, hits).len(),
    ensures
        topped_up(rows, hits)[i].1 != topped_up(rows, hits)[j].1,
        topped_up(rows, hits).len() <= RESULT_CAP,
    decreases hits.len(),
{
    if hits.len() > 0 {
        let before = topped_up(rows, hits.drop_last());
        if j < before.len() {
            law_paths_are_listed_once(rows, hits.drop_last(), i, j);
        } else {
            assert(before[i].1 == topped_up(rows, hits)[i].1);
        }
        lemma_top_up_bounded(rows, hits);
    }
}

proof fn lemma_top_up_bounded(rows: Seq<(Seq<char>, Seq<char>)>, hits: Seq<SpotlightHit>)
    requires
        rows.len() <= RESULT_CAP,
    ensures
        topped_up(rows, hits).len() <= RESULT_CAP,
    decreases hits.len(),
{
    if hits.len() > 0 {
        lemma_top_up_bounded(rows, hits.drop_last());
    }
}

/// Whether a character is kept out of a metadata query.
pub open spec fn escapes_query(c: char) -> bool {
    c == '\'' || c == '"' || c == '\\' || c == '*'
}

/// The text without the characters that could end the query's literal or act
/// as wildcards.
pub open spec fn query_safe(s: Seq<char>) -> Seq<char> {
    s.filter(|c: char| !escapes_query(c))
}

/// The Spotlight query for file names that contain the text, none where no
/// home directory is known or nothing is left to search for.
pub fn spotlight(query: &str, home: &str) -> (r: Option<String>)
    ensures
        match r {
            Some(q) => home@.len() > 0 && text::trimmed(query_safe(query@)).len() > 0 && q@
                == "kMDItemFSName == '*"@ + query_safe(query@) + "*'c"@,
            None => home@.len() == 0 || text::trimmed(query_safe(query@)).len() == 0,
        },
{
    if home.is_empty() {
        return None;
    }
    let x = text::chars_of(query);
    let mut safe = String::new();
    let mut i: usize = 0;
    assert(query_safe(x@.take(0)) =~= Seq::<char>::empty()) by {
        reveal(Seq::filter);
    }
    while i < x.len()
        invariant
            i <= x@.len(),
            x@ == query@,
            safe@ == query_safe(x@.take(i as int)),
        decreases x@.len() - i,
    {
        proof {
            let t = x@.take(i + 1);
            assert(t.drop_last() =~= x@.take(i as int));
            assert(t.last() == x@[i as int]);
            reveal(Seq::filter);
        }
        let c = x[i];
        if !(c == '\'' || c == '"' || c == '\\' || c == '*') {
            safe.push(c);
        }
        i = i + 1;
    }
    assert(x@.take(i as int) =~= x@);
    if text::trim(&safe).as_str().is_empty() {
        return None;
    }
    Some(text::join3("kMDItemFSName == '*", &safe, "*'c"))
}

/// A query cannot end the literal that it is put into, nor bring wildcards of
/// its own.
pub proof fn law_queries_cannot_escape(query: Seq<char>, i: int)
    requires
        0 <= i < query_safe(query).len(),
    ensures
        !escapes_query(query_safe(query)[i]),
{
    query.lemma_filter_pred(|c: char| !escapes_query(c), i);
}

/// Takes a line of Spotlight's output as a hit, unless it names no file. The
/// result says whether more lines are wanted.
pub fn spotlight_line(hits: &mut Vec<SpotlightHit>, line: &str) -> (r: bool)
    ensures
        if old(hits)@.len() >= SPOTLIGHT_LINE_CAP {
            !r && final(hits)@ == old(hits)@
        } else {
            r && match paths::last_component(line@) {
                None => final(hits)@ == old(hits)@,
                Some(name) => {
                    &&& final(hits)@.len() == old(hits)@.len() + 1
                    &&& final(hits)@.drop_last() == old(hits)@
                    &&& final(hits)@.last().0@ == name
                    &&& final(hits)@.last().1@ == line@
                },
            }
        },
{
    if hits.len() >= SPOTLIGHT_LINE_CAP {
        return false;
    }
    if let Some(name) = paths::file_name(line) {
        hits.push((name, text::copy(line)));
        assert(hits@.drop_last() =~= old(hits)@);
    }
    true
}

/// The path to open for a row, or why there is none. `exists` says whether
/// something is at the path.
pub fn activate(id: &str, exists: bool) -> (r: Result<String, String>)
    ensures
        ({
            let path = id@.skip("file."@.len() as int);
            if !"file."@.is_prefix_of(id@) {
                r matches Err(e) && e@ == "not a file id: "@ + id@
            } else if !exists {
                r matches Err(e) && e@ == "no file at "@ + path
            } else {
                r matches Ok(p) && p@ == path
            }
        }),
{
    match path_from_id(id) {
        None => Err(text::join("not a file id: ", id)),
        Some(path) => if exists {
            Ok(path)
        } else {
            Err(text::join("no file at ", &path))
        },
    }
}

/// What an attempt to open a path through the fallback opener came to.
pub enum Fallback {
    /// It could not be started.
    NotStarted(String),
    /// It ran, successfully or not.
    Ran(bool),
}

/// How opening a path went, once the workspace has refused and the fallback
/// opener was tried.
pub fn opened_by_fallback(path: &str, fallback: Fallback) -> (r: Result<(), String>)
    ensures
        match fallback {
            Fallback::NotStarted(why) => r matches Err(e) && e@
                == "open fallback failed to spawn: "@ + why@,
            Fallback::Ran(true) => r is Ok,
            Fallback::Ran(false) => r matches Err(e) && e@ == "could not open "@ + path@
                + " (NSWorkspace and open both refused)"@,
        },
{
    match fallback {
        Fallback::NotStarted(why) => Err(text::join("open fallback failed to spawn: ", &why)),
        Fallback::Ran(ok) => if ok {
            Ok(())
        } else {
            Err(text::join3("could not open ", path, " (NSWorkspace and open both refused)"))
        },
    }
}

/// The index never grows past its cap, and holds the first entries that the
/// walk meets.
pub proof fn law_index_is_bounded(entries: Seq<EntryView>, cap: usize)
    ensures
        bounded(entries, cap).len() <= cap,
        bounded(entries, cap).is_prefix_of(entries),
{
    if entries.len() <= cap {
        assert(entries.subrange(0, entries.len() as int) =~= entries);
    }
}

/// Directory entries are visited in name order, whatever order they were read
/// in, and only those that are indexed.
pub proof fn law_entries_are_visited_in_name_order(nodes: Seq<DirNode>, i: int, j: int)
    requires
        0 <= i < j < visited_places(nodes).len(),
    ensures
        ({
            let (a, b) = (visited_places(nodes)[i], visited_places(nodes)[j]);
            &&& 0 <= a < nodes.len() && indexed(nodes[a])
            &&& 0 <= b < nodes.len() && indexed(nodes[b])
            &&& !text::lex_before(nodes[b].name->0@, nodes[a].name->0@)
        }),
{
    let places = indexed_places(nodes);
    let names = places.map_values(|i: int| nodes[i].name->0@);
    let p = sorted_positions::<String>(names);
    order::lemma_sorted_positions::<String>(names);
    lemma_visited_are_indexed(nodes, i);
    lemma_visited_are_indexed(nodes, j);
    assert(order::position_ahead::<String>(names, p[i], p[j]));
    text::lemma_lex_trichotomy(names[p[i]], names[p[j]]);
}

proof fn lemma_visited_are_indexed(nodes: Seq<DirNode>, k: int)
    requires
        0 <= k < visited_places(nodes).len(),
    ensures
        0 <= visited_places(nodes)[k] < nodes.len(),
        indexed(nodes[visited_places(nodes)[k]]),
{
    let places = indexed_places(nodes);
    let names = places.map_values(|i: int| nodes[i].name->0@);
    order::lemma_sorted_positions::<String>(names);
    lemma_indexed_places(nodes, sorted_positions::<String>(names)[k]);
}

proof fn lemma_indexed_places(nodes: Seq<DirNode>, k: int)
    requires
        0 <= k < indexed_places(nodes).len(),
    ensures
        0 <= indexed_places(nodes)[k] < nodes.len(),
        indexed(nodes[indexed_places(nodes)[k]]),
    decreases nodes.len(),
{
    if nodes.len() > 0 && k < indexed_places(nodes.drop_last()).len() {
        lemma_indexed_places(nodes.drop_last(), k);
    }
}

/// No entry of the index has a skipped name, at any depth.
pub proof fn law_skipped_names_are_never_indexed(nodes: Seq<DirNode>, left: nat, i: int)
    requires
        0 <= i < below(nodes, left).len(),
    ensures
        !skipped(below(nodes, left)[i].name),
    decreases left, 1nat, 0nat,
{
    assert forall|k: int| 0 <= k < visited_places(nodes).len() implies indexed(
        nodes[#[trigger] visited_places(nodes)[k]],
    ) by {
        lemma_visited_are_indexed(nodes, k);
    }
    lemma_skipped_below(nodes, visited_places(nodes), left, i);
}

proof fn lemma_skipped_below(nodes: Seq<DirNode>, places: Seq<int>, left: nat, i: int)
    requires
        forall|k: int| 0 <= k < places.len() ==> indexed(nodes[#[trigger] places[k]]),
        0 <= i < below_in_order(nodes, places, left).len(),
    ensures
        !skipped(below_in_order(nodes, places, left)[i].name),
    decreases left, 0nat, places.len(),
{
    if left > 0 && places.len() > 0 {
        let node = nodes[places.last()];
        let before = below_in_order(nodes, places.drop_last(), left);
        assert forall|k: int| 0 <= k < places.drop_last().len() implies indexed(
            nodes[#[trigger] places.drop_last()[k]],
        ) by {
            assert(places.drop_last()[k] == places[k]);
        }
        if i < before.len() {
            lemma_skipped_below(nodes, places.drop_last(), left, i);
        } else if i == before.len() {
            assert(indexed(nodes[places[places.len() - 1]]));
        } else {
            law_skipped_names_are_never_indexed(
                node.children@,
                (left - 1) as nat,
                i - before.len() - 1,
            );
        }
    }
}

/// Matches stand best first, ties by path.
pub proof fn law_matches_stand_best_first(
    entries: Seq<EntryView>,
    scores: Seq<Option<i64>>,
    i: int,
    j: int,
)
    requires
        entries.len() == scores.len(),
        0 <= i < j < ranked_places(entries, scores).len(),
    ensures
        ({
            let (a, b) = (ranked_places(entries, scores)[i], ranked_places(entries, scores)[j]);
            scores[a]->0 > scores[b]->0 || (scores[a]->0 == scores[b]->0 && !text::lex_before(
                entries[b].path,
                entries[a].path,
            ))
        }),
{
    let places = scored_places(scores);
    let hits = places.map_values(
        |i: int| HitView { score: scores[i]->0, path: entries[i].path },
    );
    let p = sorted_positions::<Hit>(hits);
    order::lemma_sorted_positions::<Hit>(hits);
    assert(order::position_ahead::<Hit>(hits, p[i], p[j]));
    text::lemma_lex_trichotomy(hits[p[i]].path, hits[p[j]].path);
}

/// For a query with words the local entries are the first rows, each once and
/// in their rank order, however many there are and whether or not Spotlight is
/// asked. A query without words lists nothing.
pub proof fn law_local_entries_come_first(
    query: Seq<char>,
    local: Seq<EntryView>,
    hits: Seq<SpotlightHit>,
)
    ensures
        text::trimmed(query).len() == 0 ==> listed(query, local, hits).len() == 0,
        text::trimmed(query).len() > 0 ==> {
            &&& local.len() <= listed(query, local, hits).len()
            &&& forall|i: int|
                0 <= i < local.len() ==> (#[trigger] listed(query, local, hits)[i]).0
                    == local[i].name && listed(query, local, hits)[i].1 == local[i].path
            &&& local.len() >= 3 ==> listed(query, local, hits).len() == local.len()
        },
{
    lemma_rows_stay(local_pairs(local), hits);
}

/// Topping up keeps the rows that there are.
proof fn lemma_rows_stay(rows: Seq<(Seq<char>, Seq<char>)>, hits: Seq<SpotlightHit>)
    ensures
        rows.len() <= topped_up(rows, hits).len(),
        forall|i: int| 0 <= i < rows.len() ==> #[trigger] topped_up(rows, hits)[i] == rows[i],
    decreases hits.len(),
{
    if hits.len() > 0 {
        lemma_rows_stay(rows, hits.drop_last());
    }
}

/// One more Spotlight hit changes the rows only where the local entries run thin
/// and there is room: it then is the last row, unless a row has its path
/// already. Without hits the local entries are all there is.
pub proof fn law_hits_fill_up_thin_lists(
    query: Seq<char>,
    local: Seq<EntryView>,
    hits: Seq<SpotlightHit>,
    hit: SpotlightHit,
)
    requires
        text::trimmed(query).len() > 0,
    ensures
        listed(query, local, Seq::empty()).len() == local.len(),
        ({
            let before = listed(query, local, hits);
            let after = listed(query, local, hits.push(hit));
            let new = forall|i: int| 0 <= i < before.len() ==> (#[trigger] before[i]).1 != hit.1@;
            if local.len() < 3 && before.len() < 9 && new {
                after == before.push((hit.0@, hit.1@))
            } else {
                after == before
            }
        }),
{
    assert(hits.push(hit).drop_last() =~= hits);
}

/// Whether a local match comes before another: by score, and where that is
/// equal by path.
pub open spec fn better(
    entries: Seq<EntryView>,
    scores: Seq<Option<i64>>,
    a: int,
    b: int,
) -> bool {
    scores[a]->0 > scores[b]->0 || (scores[a]->0 == scores[b]->0 && !text::lex_before(
        entries[b].path,
        entries[a].path,
    ))
}

/// The ranked entries are those that have a score, each once and best first,
/// and one is left out only where as many as asked for come before it.
pub proof fn law_the_best_entries_are_ranked(
    entries: Seq<EntryView>,
    scores: Seq<Option<i64>>,
    cap: usize,
)
    requires
        entries.len() == scores.len(),
    ensures
        ({
            let ps = capped(ranked_places(entries, scores), cap);
            &&& ps.len() <= cap
            &&& ps.no_duplicates()
            &&& forall|i: int|
                0 <= i < ps.len() ==> 0 <= #[trigger] ps[i] < scores.len() && scores[ps[i]] is Some
            &&& forall|i: int, j: int|
                0 <= i < j < ps.len() ==> better(
                    entries,
                    scores,
                    #[trigger] ps[i],
                    #[trigger] ps[j],
                )
            &&& forall|at: int|
                0 <= at < scores.len() && #[trigger] scores[at] is Some && !ps.contains(at) ==> {
                    &&& ps.len() == cap
                    &&& forall|i: int|
                        0 <= i < ps.len() ==> better(entries, scores, #[trigger] ps[i], at)
                }
        }),
{
    let places = scored_places(scores);
    let hits = places.map_values(
        |i: int| HitView { score: scores[i]->0, path: entries[i].path },
    );
    let p = sorted_positions::<Hit>(hits);
    let ranked = ranked_places(entries, scores);
    let ps = capped(ranked, cap);
    order::lemma_sorted_positions::<Hit>(hits);
    order::lemma_order_complete::<Hit>(hits, p);
    lemma_scored_places(scores);
    assert forall|i: int| 0 <= i < ps.len() implies 0 <= #[trigger] ps[i] < scores.len()
        && scores[ps[i]] is Some by {
        assert(ps[i] == places[p[i]]);
    }
    assert forall|i: int, j: int| 0 <= i < ps.len() && 0 <= j < ps.len() && i != j implies ps[i]
        != ps[j] by {
        assert(ps[i] == places[p[i]] && ps[j] == places[p[j]] && p[i] != p[j]);
    }
    assert forall|i: int, j: int| 0 <= i < j < ps.len() implies better(
        entries,
        scores,
        #[trigger] ps[i],
        #[trigger] ps[j],
    ) by {
        law_matches_stand_best_first(entries, scores, i, j);
    }
    assert forall|at: int|
        0 <= at < scores.len() && #[trigger] scores[at] is Some && !ps.contains(at) implies ({
        &&& ps.len() == cap
        &&& forall|i: int| 0 <= i < ps.len() ==> better(entries, scores, #[trigger] ps[i], at)
    }) by {
        let k = lemma_scored_at(scores, at);
        assert(p.contains(k));
        let m = choose|m: int| 0 <= m < p.len() && p[m] == k;
        assert(ranked[m] == at);
        if m < ps.len() {
            assert(ps[m] == at);
        }
        assert forall|i: int| 0 <= i < ps.len() implies better(
            entries,
            scores,
            #[trigger] ps[i],
            at,
        ) by {
            law_matches_stand_best_first(entries, scores, i, m);
        }
    }
}

/// The scored places go up, and are places of scores.
proof fn lemma_scored_places(scores: Seq<Option<i64>>)
    ensures
        forall|i: int|
            0 <= i < scored_places(scores).len() ==> 0 <= #[trigger] scored_places(scores)[i]
                < scores.len() && scores[scored_places(scores)[i]] is Some,
        forall|i: int, j: int|
            0 <= i < j < scored_places(scores).len() ==> #[trigger] scored_places(scores)[i]
                < #[trigger] scored_places(scores)[j],
    decreases scores.len(),
{
    if scores.len() > 0 {
        lemma_scored_places(scores.drop_last());
    }
}

/// Where an entry with a score stands among the scored places.
proof fn lemma_scored_at(scores: Seq<Option<i64>>, at: int) -> (k: int)
    requires
        0 <= at < scores.len(),
        scores[at] is Some,
    ensures
        0 <= k < scored_places(scores).len(),
        scored_places(scores)[k] == at,
    decreases scores.len(),
{
    if at == scores.len() - 1 {
        scored_places(scores).len() - 1
    } else {
        lemma_scored_at(scores.drop_last(), at)
    }
}

/// The home directory shows as a tilde, alone or before a slash, and putting it
/// back gives the path. Any other path shows as it is, also one that only
/// begins with the same letters.
pub proof fn law_the_home_directory_shows_as_a_tilde(path: Seq<char>, home: Seq<char>)
    ensures
        ({
            let shown = with_tilde(path, home);
            let inside = home.len() > 0 && home.is_prefix_of(path) && (path.len() == home.len()
                || path[home.len() as int] == '/');
            if inside {
                shown.len() > 0 && shown[0] == '~' && home + shown.skip(1) == path
            } else {
                shown == path
            }
        }),
{
    reveal_strlit("~");
    reveal_strlit("/");
    let slash = home + "/"@;
    let shown = with_tilde(path, home);
    if home.len() > 0 && home.is_prefix_of(path) {
        assert(home == path.subrange(0, home.len() as int));
        if path.len() == home.len() {
            assert(path =~= home);
            assert(home + shown.skip(1) =~= path);
        } else if path[home.len() as int] == '/' {
            assert(slash =~= path.subrange(0, slash.len() as int));
            assert(shown.skip(1) =~= path.skip(home.len() as int));
            assert(home + shown.skip(1) =~= path);
        } else if slash.is_prefix_of(path) {
            assert(slash[home.len() as int] == path.subrange(0, slash.len() as int)[home.len() as int]);
        }
    } else if home.len() > 0 {
        if path == home {
            assert(home =~= path.subrange(0, home.len() as int));
        }
        if slash.is_prefix_of(path) {
            assert(home =~= path.subrange(0, home.len() as int)) by {
                assert forall|i: int| 0 <= i < home.len() implies home[i] == path[i] by {
                    assert(slash[i] == path.subrange(0, slash.len() as int)[i]);
                }
            }
        }
    }
}

/// A file row shows the file's name, and its id names the file's path.
pub proof fn law_rows_name_their_file(name: Seq<char>, path: Seq<char>, home: Seq<char>)
    ensures
        file_row(name, path, home).title == name,
        file_row(name, path, home).id.skip("file."@.len() as int) == path,
        file_row(name, path, home).kind is File,
        home.len() == 0 ==> file_row(name, path, home).subtitle == path,
{
    law_ids_lead_back(path);
}

/// Hidden names and five others are skipped, and no more.
pub proof fn law_only_hidden_and_junk_names_are_skipped(name: Seq<char>)
    ensures
        skipped(name) <==> (name.len() > 0 && name[0] == '.') || name == "Library"@ || name
            == "node_modules"@ || name == "target"@ || name == "__pycache__"@ || name == "venv"@,
{
    reveal_strlit(".");
    reveal_strlit(".git");
    reveal_strlit(".venv");
    if name.len() > 0 && name[0] == '.' {
        assert("."@ =~= name.subrange(0, 1));
    }
    if "."@.is_prefix_of(name) {
        assert("."@[0] == name.subrange(0, 1)[0]);
    }
}

/// A metadata query holds the text's characters in order, all but quotes,
/// backslashes and asterisks.
pub proof fn law_queries_keep_all_other_characters(a: Seq<char>, c: char, b: Seq<char>)
    ensures
        query_safe(a.push(c) + b) == (if c == '\'' || c == '"' || c == '\\' || c == '*' {
            query_safe(a) + query_safe(b)
        } else {
            query_safe(a).push(c) + query_safe(b)
        }),
        query_safe(Seq::empty()) == Seq::<char>::empty(),
{
    let keeps = |c: char| !escapes_query(c);
    Seq::filter_distributes_over_add(a.push(c), b, keeps);
    reveal(Seq::filter);
    assert(a.push(c).drop_last() =~= a);
}

/// Every entry of a directory that is not skipped is indexed down to the depth
/// asked for, with what is below it, and nothing else is: an index of one level
/// holds the directory's own entries, and one of more levels holds for each
/// folder among them what an index of one level less holds of it.
pub proof fn law_the_index_holds_what_is_below(nodes: Seq<DirNode>, left: nat, e: EntryView)
    ensures
        below(nodes, 0).len() == 0,
        left > 0 ==> (below(nodes, left).contains(e) <==> exists|k: int|
            {
                &&& 0 <= k < nodes.len()
                &&& indexed(#[trigger] nodes[k])
                &&& e == entry_of(nodes[k]) || (nodes[k].is_dir == Some(true) && below(
                    nodes[k].children@,
                    (left - 1) as nat,
                ).contains(e))
            }),
{
    if left > 0 {
        let ps = visited_places(nodes);
        lemma_visited_are_all(nodes);
        lemma_below_in_order_holds(nodes, ps, left, e);
        if below(nodes, left).contains(e) {
            let i = choose|i: int|
                0 <= i < ps.len() && below_at(nodes, #[trigger] ps[i], left, e);
            lemma_visited_are_indexed(nodes, i);
            assert(below_at(nodes, ps[i], left, e));
            assert(indexed(nodes[ps[i]]));
        }
        if exists|k: int|
            {
                &&& 0 <= k < nodes.len()
                &&& indexed(#[trigger] nodes[k])
                &&& e == entry_of(nodes[k]) || (nodes[k].is_dir == Some(true) && below(
                    nodes[k].children@,
                    (left - 1) as nat,
                ).contains(e))
            } {
            let k = choose|k: int|
                {
                    &&& 0 <= k < nodes.len()
                    &&& indexed(#[trigger] nodes[k])
                    &&& e == entry_of(nodes[k]) || (nodes[k].is_dir == Some(true) && below(
                        nodes[k].children@,
                        (left - 1) as nat,
                    ).contains(e))
                };
            assert(ps.contains(k));
            let i = choose|i: int| 0 <= i < ps.len() && ps[i] == k;
            assert(below_at(nodes, ps[i], left, e));
        }
    }
}

/// Whether an entry is the one at a place, or lies below it.
spec fn below_at(nodes: Seq<DirNode>, at: int, left: nat, e: EntryView) -> bool {
    e == entry_of(nodes[at]) || (nodes[at].is_dir->0 && below(
        nodes[at].children@,
        (left - 1) as nat,
    ).contains(e))
}

proof fn lemma_below_in_order_holds(nodes: Seq<DirNode>, ps: Seq<int>, left: nat, e: EntryView)
    requires
        left > 0,
    ensures
        below_in_order(nodes, ps, left).contains(e) <==> exists|i: int|
            0 <= i < ps.len() && below_at(nodes, #[trigger] ps[i], left, e),
    decreases ps.len(),
{
    let all = below_in_order(nodes, ps, left);
    if ps.len() == 0 {
        assert(all =~= Seq::empty());
    } else {
        let head = ps.drop_last();
        lemma_below_in_order_holds(nodes, head, left, e);
        let node = nodes[ps.last()];
        let inner = if node.is_dir->0 {
            below(node.children@, (left - 1) as nat)
        } else {
            Seq::empty()
        };
        let before = below_in_order(nodes, head, left);
        let last = seq![entry_of(node)] + inner;
        assert(all == before + last);
        if all.contains(e) {
            let i = choose|i: int| 0 <= i < all.len() && all[i] == e;
            if i < before.len() {
                assert(before[i] == e);
                let k = choose|k: int|
                    0 <= k < head.len() && below_at(nodes, #[trigger] head[k], left, e);
                assert(below_at(nodes, ps[k], left, e));
            } else {
                if i > before.len() {
                    assert(inner[i - before.len() - 1] == e);
                }
                assert(below_at(nodes, ps[ps.len() - 1], left, e));
            }
        }
        if exists|i: int| 0 <= i < ps.len() && below_at(nodes, #[trigger] ps[i], left, e) {
            let i = choose|i: int|
                0 <= i < ps.len() && below_at(nodes, #[trigger] ps[i], left, e);
            if i < head.len() {
                assert(below_at(nodes, head[i], left, e));
                let k = choose|k: int| 0 <= k < before.len() && before[k] == e;
                assert(all[k] == e);
            } else if e == entry_of(node) {
                assert(all[before.len() as int] == e);
            } else {
                let k = choose|k: int| 0 <= k < inner.len() && inner[k] == e;
                assert(all[before.len() + 1 + k] == e);
            }
        }
    }
}

/// Every directory entry that is indexed is visited.
proof fn lemma_visited_are_all(nodes: Seq<DirNode>)
    ensures
        forall|at: int|
            0 <= at < nodes.len() && indexed(#[trigger] nodes[at]) ==> visited_places(
                nodes,
            ).contains(at),
{
    let places = indexed_places(nodes);
    let names = places.map_values(|i: int| nodes[i].name->0@);
    let p = sorted_positions::<String>(names);
    order::lemma_sorted_positions::<String>(names);
    order::lemma_order_complete::<String>(names, p);
    assert forall|at: int| 0 <= at < nodes.len() && indexed(#[trigger] nodes[at]) implies
        visited_places(nodes).contains(at) by {
        let k = lemma_indexed_at(nodes, at);
        assert(p.contains(k));
        let i = choose|i: int| 0 <= i < p.len() && p[i] == k;
        assert(visited_places(nodes)[i] == at);
    }
}

proof fn lemma_indexed_at(nodes: Seq<DirNode>, at: int) -> (k: int)
    requires
        0 <= at < nodes.len(),
        indexed(nodes[at]),
    ensures
        0 <= k < indexed_places(nodes).len(),
        indexed_places(nodes)[k] == at,
    decreases nodes.len(),
{
    if at == nodes.len() - 1 {
        indexed_places(nodes).len() - 1
    } else {
        lemma_indexed_at(nodes.drop_last(), at)
    }
}

/// An entry with a name, a path and a kind that read is indexed unless its name
/// is skipped, and its index entry shows all three.
pub proof fn law_entries_show_what_was_read(node: DirNode)
    ensures
        indexed(node) <==> node.name is Some && node.path is Some && node.is_dir is Some
            && !skipped(node.name->0@),
        indexed(node) ==> entry_of(node).name == node.name->0@ && entry_of(node).path
            == node.path->0@ && Some(entry_of(node).is_dir) == node.is_dir,
{
}

/// An index takes the entries in the order in which they are met, all of them up
/// to its cap; a full one takes no more.
pub proof fn law_the_index_takes_the_first_entries(
    before: Seq<EntryView>,
    more: Seq<EntryView>,
    cap: usize,
)
    ensures
        before.is_prefix_of(filled(before, more, cap)),
        filled(before, more, cap).is_prefix_of(before + more),
        before.len() >= cap ==> filled(before, more, cap) == before,
        before.len() <= cap ==> filled(before, more, cap).len() == (if before.len() + more.len()
            <= cap {
            before.len() + more.len()
        } else {
            cap as nat
        }),
{
    let f = filled(before, more, cap);
    assert(f =~= (before + more).subrange(0, f.len() as int));
    assert(before =~= f.subrange(0, before.len() as int));
}

} // verus!
