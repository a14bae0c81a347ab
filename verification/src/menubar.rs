//! Menu item search: finding and pressing any item of the frontmost app's
//! menu bar.
//!
//! A menu bar is a tree. Titled containers deepen the breadcrumb, untitled
//! ones pass through, and leaves are the items; a leaf without a title is a
//! separator. The walk is bounded in depth and in the number of items that it
//! collects.

use crate::order::{self, ints, sorted_positions, views, Ranked};
use crate::router::{Item, ItemKind, ItemView};
use crate::text;
use vstd::prelude::*;

verus! {

/// How many items a snapshot holds at most.
pub const MAX_ITEMS: usize = 2000;

/// How many titled levels the walk descends at most.
pub const MAX_DEPTH: usize = 6;

/// How old a snapshot may grow, in seconds.
pub const CACHE_TTL_SECS: u64 = 30;

/// How many rows a query lists at most.
pub const MAX_RESULTS: usize = 9;

/// Modifier bits of a menu shortcut. Zero means Command alone; the last bit
/// means that Command is not part of the shortcut.
pub const MENU_MOD_SHIFT: i64 = 1;

pub const MENU_MOD_OPTION: i64 = 2;

pub const MENU_MOD_CONTROL: i64 = 4;

pub const MENU_MOD_NO_COMMAND: i64 = 8;

/// One leaf menu item.
#[derive(Clone, Debug, PartialEq, Eq)]
pub struct MenuEntry {
    /// The item's own title.
    pub title: String,
    /// The titles above it, joined with " > ".
    pub breadcrumb: String,
    /// Whether it can be pressed.
    pub enabled: bool,
    /// Its keyboard shortcut, empty when unknown.
    pub shortcut: String,
}

/// What a [`MenuEntry`] holds.
#[verifier::ext_equal]
pub struct EntryView {
    pub title: Seq<char>,
    pub breadcrumb: Seq<char>,
    pub enabled: bool,
    pub shortcut: Seq<char>,
}

impl View for MenuEntry {
    type V = EntryView;

    open spec fn view(&self) -> EntryView {
        EntryView {
            title: self.title@,
            breadcrumb: self.breadcrumb@,
            enabled: self.enabled,
            shortcut: self.shortcut@,
        }
    }
}

/// An element of a menu bar as it reads.
pub struct MenuNode {
    /// Its title, empty where it has none.
    pub title: String,
    /// Whether it can be pressed, where that reads.
    pub enabled: Option<bool>,
    /// The character of its shortcut, where it has one.
    pub command_char: Option<String>,
    /// The modifier bits of its shortcut, where they read.
    pub modifiers: Option<i64>,
    /// The elements below it.
    pub children: Vec<MenuNode>,
}

/// The glyphs of a shortcut, in the order control, option, shift, command.
pub open spec fn shortcut_glyphs(ch: Seq<char>, mods: i64) -> Seq<char> {
    let control = if mods & MENU_MOD_CONTROL != 0 {
        seq!['\u{2303}']
    } else {
        Seq::empty()
    };
    let option = if mods & MENU_MOD_OPTION != 0 {
        seq!['\u{2325}']
    } else {
        Seq::empty()
    };
    let shift = if mods & MENU_MOD_SHIFT != 0 {
        seq!['\u{21E7}']
    } else {
        Seq::empty()
    };
    let command = if mods & MENU_MOD_NO_COMMAND == 0 {
        seq!['\u{2318}']
    } else {
        Seq::empty()
    };
    control + option + shift + command + ch
}

/// Renders modifier bits and a command character as menus show them.
pub fn shortcut_string(ch: &str, mods: i64) -> (r: String)
    ensures
        r@ == shortcut_glyphs(ch@, mods),
{
    let mut out = String::new();
    if mods & MENU_MOD_CONTROL != 0 {
        out.push('\u{2303}');
    }
    if mods & MENU_MOD_OPTION != 0 {
        out.push('\u{2325}');
    }
    if mods & MENU_MOD_SHIFT != 0 {
        out.push('\u{21E7}');
    }
    if mods & MENU_MOD_NO_COMMAND == 0 {
        out.push('\u{2318}');
    }
    out.append(ch);
    assert(out@ =~= shortcut_glyphs(ch@, mods));
    out
}

/// The shortcut of an element: empty without a command character, and
/// Command alone where the modifiers do not read.
pub open spec fn shortcut_of(ch: Option<Seq<char>>, mods: Option<i64>) -> Seq<char> {
    match ch {
        Some(c) => if c.len() == 0 {
            Seq::empty()
        } else {
            shortcut_glyphs(
                c,
                match mods {
                    Some(m) => m,
                    None => 0,
                },
            )
        },
        None => Seq::empty(),
    }
}

/// The shortcut of an element, as far as it reads.
pub fn read_shortcut(ch: &Option<String>, mods: Option<i64>) -> (r: String)
    ensures
        r@ == shortcut_of(text::opt_view(*ch), mods),
{
    match ch {
        Some(c) => if c.as_str().is_empty() {
            String::new()
        } else {
            let m: i64 = match mods {
                Some(m) => m,
                None => 0,
            };
            shortcut_string(c, m)
        },
        None => String::new(),
    }
}

/// The entry of a leaf below the given titles. A state that does not read
/// counts as enabled.
pub open spec fn leaf_entry(node: MenuNode, path: Seq<Seq<char>>) -> EntryView {
    EntryView {
        title: node.title@,
        breadcrumb: text::joined(path, " > "@),
        enabled: match node.enabled {
            Some(e) => e,
            None => true,
        },
        shortcut: shortcut_of(text::opt_view(node.command_char), node.modifiers),
    }
}

/// The entries of all leaves under an element, in menu order.
pub open spec fn leaves(node: MenuNode, path: Seq<Seq<char>>) -> Seq<EntryView>
    decreases node,
{
    if node.children@.len() > 0 {
        if node.title@.len() == 0 {
            leaves_of_all(node.children@, path)
        } else if path.len() >= MAX_DEPTH {
            Seq::empty()
        } else {
            leaves_of_all(node.children@, path.push(node.title@))
        }
    } else if node.title@.len() == 0 {
        Seq::empty()
    } else {
        seq![leaf_entry(node, path)]
    }
}

/// The entries of all leaves under a list of elements, in menu order.
pub open spec fn leaves_of_all(nodes: Seq<MenuNode>, path: Seq<Seq<char>>) -> Seq<EntryView>
    decreases nodes,
{
    if nodes.len() == 0 {
        Seq::empty()
    } else {
        leaves(nodes[0], path) + leaves_of_all(nodes.subrange(1, nodes.len() as int), path)
    }
}

/// At most [`MAX_ITEMS`] entries.
pub open spec fn bounded(entries: Seq<EntryView>) -> Seq<EntryView> {
    if entries.len() <= MAX_ITEMS {
        entries
    } else {
        entries.take(MAX_ITEMS as int)
    }
}

/// The entries after more were met: a full list stays as it is.
pub open spec fn filled(before: Seq<EntryView>, more: Seq<EntryView>) -> Seq<EntryView> {
    if before.len() >= MAX_ITEMS {
        before
    } else {
        bounded(before + more)
    }
}

/// How a walk goes on.
#[derive(Debug, Clone, Copy, PartialEq, Eq, Structural)]
pub enum Step {
    /// Look at the child at this position of the innermost element.
    Look(usize),
    /// The innermost element is done: go back to the one around it.
    Up,
    /// Everything is.
    Done,
}

/// What to do at an element of the walk.
#[derive(Debug, Clone, Copy, PartialEq, Eq, Structural)]
pub enum Visit {
    /// Go on.
    Pass,
    /// Go on with the element's children.
    Descend,
    /// Take the element as an item.
    Take,
}

/// An element that the walk is in.
#[derive(Debug, Clone, Copy, PartialEq, Eq, Structural)]
pub struct Level {
    /// How many children it has.
    pub count: usize,
    /// Which of them comes next.
    pub next: usize,
    /// How many titles stand above it.
    pub depth: usize,
}

/// A walk under way: the titles above, the items so far, and the elements that
/// it is in, the innermost last.
pub struct Walk {
    pub path: Vec<String>,
    pub entries: Vec<MenuEntry>,
    pub levels: Vec<Level>,
}

/// The first titles of a path.
pub open spec fn titles_above(path: Seq<Seq<char>>, depth: usize) -> Seq<Seq<char>> {
    if depth <= path.len() {
        path.take(depth as int)
    } else {
        path
    }
}

/// The entries that are still to come, where `lists` holds the children of each
/// element that the walk is in.
pub open spec fn pending(
    levels: Seq<Level>,
    lists: Seq<Seq<MenuNode>>,
    path: Seq<Seq<char>>,
) -> Seq<EntryView>
    decreases levels.len(),
{
    if levels.len() == 0 {
        Seq::empty()
    } else {
        leaves_of_all(lists.last().skip(levels.last().next as int), path) + pending(
            levels.drop_last(),
            lists.drop_last(),
            titles_above(path, levels.last().depth),
        )
    }
}

/// How many elements there are, with all below them.
spec fn size_of(node: MenuNode) -> nat
    decreases node,
{
    1 + size_of_all(node.children@)
}

spec fn size_of_all(nodes: Seq<MenuNode>) -> nat
    decreases nodes,
{
    if nodes.len() == 0 {
        0
    } else {
        size_of(nodes[0]) + size_of_all(nodes.subrange(1, nodes.len() as int))
    }
}

/// Whether a level is one of an element with the given children.
spec fn agree(level: Level, list: Seq<MenuNode>) -> bool {
    list.len() == level.count && level.next <= level.count
}

/// How many elements a walk can still look at.
spec fn pending_size(levels: Seq<Level>, lists: Seq<Seq<MenuNode>>) -> nat
    decreases levels.len(),
{
    if levels.len() == 0 {
        0
    } else {
        size_of_all(lists.last().skip(levels.last().next as int)) + pending_size(
            levels.drop_last(),
            lists.drop_last(),
        )
    }
}

impl Walk {
    /// A walk through a menu bar with so many elements. The first is the Apple
    /// menu, which does not count.
    pub fn new(count: usize) -> (r: Walk)
        ensures
            r.path@.len() == 0,
            r.entries@.len() == 0,
            r.levels@ == seq![Level { count, next: 1, depth: 0 }],
    {
        Walk {
            path: Vec::new(),
            entries: Vec::new(),
            levels: vec![Level { count, next: 1, depth: 0 }],
        }
    }

    /// How the walk goes on. Nothing more is looked at once enough items are
    /// collected.
    pub fn step(&mut self) -> (r: Step)
        ensures
            final(self).entries == old(self).entries,
            ({
                let levels = old(self).levels@;
                if levels.len() == 0 {
                    r is Done && *final(self) == *old(self)
                } else if old(self).entries@.len() >= MAX_ITEMS || levels.last().next
                    >= levels.last().count {
                    &&& r is Up
                    &&& final(self).levels@ == levels.drop_last()
                    &&& views(final(self).path@) == titles_above(
                        views(old(self).path@),
                        levels.last().depth,
                    )
                } else {
                    &&& r == Step::Look(levels.last().next)
                    &&& final(self).levels@ == levels.drop_last().push(
                        Level { next: (levels.last().next + 1) as usize, ..levels.last() },
                    )
                    &&& final(self).path == old(self).path
                }
            }),
    {
        let n: usize = self.levels.len();
        if n == 0 {
            return Step::Done;
        }
        let top = self.levels[n - 1];
        if self.entries.len() >= MAX_ITEMS || top.next >= top.count {
            self.levels.pop();
            self.path.truncate(top.depth);
            assert(views(self.path@) =~= titles_above(views(old(self).path@), top.depth));
            return Step::Up;
        }
        self.levels.set(n - 1, Level { count: top.count, next: top.next + 1, depth: top.depth });
        assert(self.levels@ =~= old(self).levels@.drop_last().push(
            Level { next: (top.next + 1) as usize, ..top },
        ));
        Step::Look(top.next)
    }

    /// What to do at an element with the given title and number of children.
    /// Nothing is visited once enough items are collected.
    pub fn visit(&mut self, title: &str, child_count: usize) -> (r: Visit)
        ensures
            final(self).entries == old(self).entries,
            ({
                let inner = Level { count: child_count, next: 0, depth: old(self).path.len() };
                if old(self).entries@.len() >= MAX_ITEMS {
                    r is Pass && *final(self) == *old(self)
                } else if child_count > 0 {
                    if title@.len() == 0 {
                        &&& r is Descend
                        &&& final(self).path == old(self).path
                        &&& final(self).levels@ == old(self).levels@.push(inner)
                    } else if old(self).path@.len() >= MAX_DEPTH {
                        r is Pass && *final(self) == *old(self)
                    } else {
                        &&& r is Descend
                        &&& views(final(self).path@) == views(old(self).path@).push(title@)
                        &&& final(self).levels@ == old(self).levels@.push(inner)
                    }
                } else {
                    r == (if title@.len() == 0 {
                        Visit::Pass
                    } else {
                        Visit::Take
                    }) && *final(self) == *old(self)
                }
            }),
    {
        if self.entries.len() >= MAX_ITEMS {
            return Visit::Pass;
        }
        if child_count > 0 {
            let depth: usize = self.path.len();
            if !title.is_empty() {
                if depth >= MAX_DEPTH {
                    return Visit::Pass;
                }
                self.path.push(text::copy(title));
                assert(views(self.path@) =~= views(old(self).path@).push(title@));
            }
            self.levels.push(Level { count: child_count, next: 0, depth });
            return Visit::Descend;
        }
        if title.is_empty() {
            Visit::Pass
        } else {
            Visit::Take
        }
    }

    /// Takes an element as an item.
    pub fn take(
        &mut self,
        title: &str,
        enabled: Option<bool>,
        command_char: &Option<String>,
        modifiers: Option<i64>,
    )
        ensures
            final(self).levels == old(self).levels,
            final(self).path == old(self).path,
            views(final(self).entries@) == views(old(self).entries@).push(
                EntryView {
                    title: title@,
                    breadcrumb: text::joined(views(old(self).path@), " > "@),
                    enabled: match enabled {
                        Some(e) => e,
                        None => true,
                    },
                    shortcut: shortcut_of(text::opt_view(*command_char), modifiers),
                },
            ),
    {
        let entry = MenuEntry {
            title: text::copy(title),
            breadcrumb: text::join_all(&self.path, " > "),
            enabled: match enabled {
                Some(e) => e,
                None => true,
            },
            shortcut: read_shortcut(command_char, modifiers),
        };
        self.entries.push(entry);
        assert(views(self.entries@) =~= views(old(self).entries@).push(entry@));
    }
}

/// A child that is looked at takes its place before what else is pending.
proof fn lemma_look(levels: Seq<Level>, lists: Seq<Seq<MenuNode>>, path: Seq<Seq<char>>)
    requires
        levels.len() > 0,
        lists.len() == levels.len(),
        levels.last().next < levels.last().count == lists.last().len(),
    ensures
        ({
            let top = levels.last();
            let on = levels.drop_last().push(Level { next: (top.next + 1) as usize, ..top });
            let node = lists.last()[top.next as int];
            &&& pending(levels, lists, path) == leaves(node, path) + pending(on, lists, path)
            &&& pending_size(levels, lists) == size_of(node) + pending_size(on, lists)
        }),
{
    let top = levels.last();
    let on = levels.drop_last().push(Level { next: (top.next + 1) as usize, ..top });
    let list = lists.last();
    let rest = list.skip(top.next as int);
    assert(rest[0] == list[top.next as int]);
    assert(rest.subrange(1, rest.len() as int) =~= list.skip(top.next + 1));
    assert(on.drop_last() =~= levels.drop_last());
    assert(pending(levels, lists, path) =~= leaves(rest[0], path) + pending(on, lists, path));
}

/// The children of an element that is entered take the element's place.
proof fn lemma_enter(
    levels: Seq<Level>,
    lists: Seq<Seq<MenuNode>>,
    path: Seq<Seq<char>>,
    inner: Level,
    list: Seq<MenuNode>,
    longer: Seq<Seq<char>>,
)
    requires
        lists.len() == levels.len(),
        inner.next == 0,
        titles_above(longer, inner.depth) == path,
    ensures
        pending(levels.push(inner), lists.push(list), longer) == leaves_of_all(list, longer)
            + pending(levels, lists, path),
        pending_size(levels.push(inner), lists.push(list)) == size_of_all(list) + pending_size(
            levels,
            lists,
        ),
{
    assert(levels.push(inner).drop_last() =~= levels);
    assert(lists.push(list).drop_last() =~= lists);
    assert(list.skip(0) =~= list);
}

/// The items of a menu bar, given the bar's own elements: what a walk collects
/// that goes as [`Walk::step`] and [`Walk::visit`] say. Nothing is collected
/// without the Accessibility permission.
#[verifier::spinoff_prover]
pub fn enumerate(trusted: bool, top: &Vec<MenuNode>) -> (r: Vec<MenuEntry>)
    ensures
        views(r@) == (if trusted && top@.len() > 0 {
            bounded(leaves_of_all(top@.skip(1), Seq::empty()))
        } else {
            Seq::<EntryView>::empty()
        }),
{
    let mut walk = Walk::new(top.len());
    if !trusted || top.len() == 0 {
        assert(views(walk.entries@) =~= Seq::<EntryView>::empty());
        return walk.entries;
    }
    let ghost want = leaves_of_all(top@.skip(1), Seq::empty());
    let mut within: Vec<&Vec<MenuNode>> = vec![top];
    let ghost mut lists: Seq<Seq<MenuNode>> = seq![top@];
    proof {
        assert(views(walk.path@) =~= Seq::<Seq<char>>::empty());
        assert(views(walk.entries@) =~= Seq::<EntryView>::empty());
        assert(walk.levels@.drop_last() =~= Seq::<Level>::empty());
        assert(lists.last() == top@);
        assert(pending(
            walk.levels@.drop_last(),
            lists.drop_last(),
            titles_above(Seq::empty(), 0),
        ) =~= Seq::<EntryView>::empty());
        assert(pending(walk.levels@, lists, Seq::empty()) =~= want);
        assert(Seq::<EntryView>::empty() + want =~= want);
    }
    let mut under_way = true;
    while under_way
        invariant
            within@.len() == walk.levels@.len(),
            lists.len() == walk.levels@.len(),
            forall|k: int| 0 <= k < lists.len() ==> #[trigger] lists[k] == within@[k]@,
            forall|k: int| 0 <= k < lists.len() ==> agree(walk.levels@[k], #[trigger] lists[k]),
            walk.entries@.len() <= MAX_ITEMS,
            filled(
                views(walk.entries@),
                pending(walk.levels@, lists, views(walk.path@)),
            ) == bounded(want),
            !under_way ==> walk.levels@.len() == 0,
        decreases
            pending_size(walk.levels@, lists),
            walk.levels@.len(),
            (if under_way {
                1int
            } else {
                0
            }),
    {
        let ghost e0 = views(walk.entries@);
        let ghost p0 = views(walk.path@);
        let ghost levels = walk.levels@;
        assert(e0.len() == walk.entries@.len());
        match walk.step() {
            Step::Done => {
                under_way = false;
            },
            Step::Up => {
                within.pop();
                proof {
                    let top = levels.last();
                    assert(agree(top, lists.last()));
                    if top.next >= top.count {
                        let all = pending(levels, lists, p0);
                        let outer = pending(
                            levels.drop_last(),
                            lists.drop_last(),
                            titles_above(p0, top.depth),
                        );
                        assert(lists.last().skip(top.next as int) =~= Seq::<MenuNode>::empty());
                        assert(all =~= outer);
                    }
                    let inner = lists;
                    lists = lists.drop_last();
                    assert forall|k: int| 0 <= k < lists.len() implies agree(
                        walk.levels@[k],
                        #[trigger] lists[k],
                    ) by {
                        assert(lists[k] == inner[k] && walk.levels@[k] == levels[k]);
                    }
                }
            },
            Step::Look(i) => {
                let node = &within[within.len() - 1][i];
                let ghost on = walk.levels@;
                proof {
                    assert(lists.last() == within@.last()@);
                    assert(agree(levels.last(), lists.last()));
                    lemma_look(levels, lists, p0);
                    assert forall|k: int| 0 <= k < lists.len() implies agree(
                        on[k],
                        #[trigger] lists[k],
                    ) by {
                        assert(agree(levels[k], lists[k]));
                        if k < lists.len() - 1 {
                            assert(on[k] == levels[k]);
                        }
                    }
                }
                let ghost rest = pending(on, lists, p0);
                match walk.visit(&node.title, node.children.len()) {
                    Visit::Pass => {
                        assert(leaves(*node, p0) + rest =~= rest);
                    },
                    Visit::Take => {
                        walk.take(&node.title, node.enabled, &node.command_char, node.modifiers);
                        proof {
                            let one = leaves(*node, p0);
                            assert(views(walk.entries@) =~= e0 + one);
                            assert(e0 + (one + rest) =~= (e0 + one) + rest);
                            assert(views(walk.entries@).len() == walk.entries@.len());
                            if walk.entries@.len() >= MAX_ITEMS {
                                assert(bounded((e0 + one) + rest) =~= e0 + one);
                            }
                        }
                    },
                    Visit::Descend => {
                        within.push(&node.children);
                        proof {
                            let list = node.children@;
                            let inner = walk.levels@.last();
                            let longer = views(walk.path@);
                            assert(titles_above(longer, inner.depth) =~= p0);
                            assert(walk.levels@ =~= on.push(inner));
                            lemma_enter(on, lists, p0, inner, list, longer);
                            let outer = lists;
                            lists = lists.push(list);
                            assert forall|k: int| 0 <= k < lists.len() implies agree(
                                walk.levels@[k],
                                #[trigger] lists[k],
                            ) by {
                                if k < outer.len() {
                                    assert(walk.levels@[k] == on[k] && lists[k] == outer[k]);
                                }
                            }
                        }
                    },
                }
            },
        }
    }
    proof {
        let e = views(walk.entries@);
        assert(e.len() == walk.entries@.len());
        assert(e + pending(walk.levels@, lists, views(walk.path@)) =~= e);
    }
    walk.entries
}

/// No snapshot holds more than [`MAX_ITEMS`] items.
pub proof fn law_snapshots_are_bounded(nodes: Seq<MenuNode>, path: Seq<Seq<char>>)
    ensures
        bounded(leaves_of_all(nodes, path)).len() <= MAX_ITEMS,
{
}

/// Every item has a title: separators are never collected.
pub proof fn law_items_are_titled(node: MenuNode, path: Seq<Seq<char>>, i: int)
    requires
        0 <= i < leaves(node, path).len(),
    ensures
        leaves(node, path)[i].title.len() > 0,
    decreases node,
{
    if node.children@.len() > 0 {
        if node.title@.len() == 0 {
            lemma_all_titled(node.children@, path, i);
        } else {
            lemma_all_titled(node.children@, path.push(node.title@), i);
        }
    }
}

proof fn lemma_all_titled(nodes: Seq<MenuNode>, path: Seq<Seq<char>>, i: int)
    requires
        0 <= i < leaves_of_all(nodes, path).len(),
    ensures
        leaves_of_all(nodes, path)[i].title.len() > 0,
    decreases nodes,
{
    if nodes.len() > 0 {
        let a = leaves(nodes[0], path);
        let rest = nodes.subrange(1, nodes.len() as int);
        if i < a.len() {
            law_items_are_titled(nodes[0], path, i);
        } else {
            lemma_all_titled(rest, path, i - a.len());
        }
    }
}

/// Whether a breadcrumb names the titles of a path no deeper than the walk
/// goes.
pub open spec fn is_trail(path: Seq<Seq<char>>, breadcrumb: Seq<char>) -> bool {
    path.len() <= MAX_DEPTH && breadcrumb == text::joined(path, " > "@)
}

/// No item lies below more than [`MAX_DEPTH`] titled levels.
pub proof fn law_walks_are_bounded_in_depth(node: MenuNode, path: Seq<Seq<char>>, i: int)
    requires
        path.len() <= MAX_DEPTH,
        0 <= i < leaves(node, path).len(),
    ensures
        exists|trail: Seq<Seq<char>>| is_trail(trail, leaves(node, path)[i].breadcrumb),
    decreases node,
{
    if node.children@.len() > 0 {
        if node.title@.len() == 0 {
            lemma_all_bounded_in_depth(node.children@, path, i);
        } else {
            lemma_all_bounded_in_depth(node.children@, path.push(node.title@), i);
        }
    } else {
        assert(is_trail(path, leaves(node, path)[i].breadcrumb));
    }
}

proof fn lemma_all_bounded_in_depth(nodes: Seq<MenuNode>, path: Seq<Seq<char>>, i: int)
    requires
        path.len() <= MAX_DEPTH,
        0 <= i < leaves_of_all(nodes, path).len(),
    ensures
        exists|trail: Seq<Seq<char>>| is_trail(trail, leaves_of_all(nodes, path)[i].breadcrumb),
    decreases nodes,
{
    if nodes.len() > 0 {
        let a = leaves(nodes[0], path);
        let rest = nodes.subrange(1, nodes.len() as int);
        let all = leaves_of_all(nodes, path);
        if i < a.len() {
            law_walks_are_bounded_in_depth(nodes[0], path, i);
            assert(all[i] == a[i]);
        } else {
            lemma_all_bounded_in_depth(rest, path, i - a.len());
            assert(all[i] == leaves_of_all(rest, path)[i - a.len()]);
        }
    }
}

/// The full path of an entry, which is also what queries match against.
pub open spec fn full_path(e: EntryView) -> Seq<char> {
    if e.breadcrumb.len() == 0 {
        e.title
    } else {
        e.breadcrumb + " > "@ + e.title
    }
}

/// The full path of an entry, which is also what queries match against.
pub fn display_path(entry: &MenuEntry) -> (r: String)
    ensures
        r@ == full_path(entry@),
{
    if entry.breadcrumb.as_str().is_empty() {
        text::copy(&entry.title)
    } else {
        text::join3(&entry.breadcrumb, " > ", &entry.title)
    }
}

/// The subtitle of a row: the breadcrumb and the shortcut, as far as known.
pub open spec fn row_subtitle(e: EntryView) -> Seq<char> {
    if e.breadcrumb.len() == 0 {
        e.shortcut
    } else if e.shortcut.len() == 0 {
        e.breadcrumb
    } else {
        e.breadcrumb + "  "@ + e.shortcut
    }
}

/// The subtitle of a row.
pub fn subtitle(entry: &MenuEntry) -> (r: String)
    ensures
        r@ == row_subtitle(entry@),
{
    if entry.breadcrumb.as_str().is_empty() {
        text::copy(&entry.shortcut)
    } else if entry.shortcut.as_str().is_empty() {
        text::copy(&entry.breadcrumb)
    } else {
        text::join3(&entry.breadcrumb, "  ", &entry.shortcut)
    }
}

/// The id of the row for item `seq` of an app's snapshot.
pub open spec fn menu_id(pid: i32, seq: int) -> Seq<char> {
    "menu."@ + text::signed_decimal(pid as int) + "."@ + text::decimal(seq as nat)
}

/// The row for item `seq` of an app's snapshot.
pub open spec fn menu_row(pid: i32, seq: int, e: EntryView) -> ItemView {
    ItemView {
        id: menu_id(pid, seq),
        title: e.title,
        subtitle: row_subtitle(e),
        kind: ItemKind::SystemCommand,
    }
}

/// An item that a query matches, with its score and its place in the
/// snapshot.
#[derive(Debug, Clone, Copy, PartialEq, Eq, Structural)]
pub struct Pick {
    pub score: i64,
    pub seq: usize,
}

impl View for Pick {
    type V = Pick;

    open spec fn view(&self) -> Pick {
        *self
    }
}

impl Ranked for Pick {
    open spec fn ahead(a: Pick, b: Pick) -> bool {
        a.score > b.score || (a.score == b.score && a.seq < b.seq)
    }

    proof fn lemma_asymmetric(a: Pick, b: Pick) {
    }

    proof fn lemma_separates(a: Pick, b: Pick, c: Pick) {
    }

    fn is_ahead(&self, other: &Pick) -> bool {
        self.score > other.score || (self.score == other.score && self.seq < other.seq)
    }
}

/// The places of the enabled items, in menu order.
pub open spec fn enabled_places(entries: Seq<EntryView>) -> Seq<int>
    decreases entries.len(),
{
    if entries.len() == 0 {
        Seq::empty()
    } else if entries.last().enabled {
        enabled_places(entries.drop_last()).push(entries.len() - 1)
    } else {
        enabled_places(entries.drop_last())
    }
}

/// The enabled items that have a score, in menu order.
pub open spec fn matches_of(entries: Seq<EntryView>, scores: Seq<Option<i64>>) -> Seq<Pick>
    decreases entries.len(),
{
    if entries.len() == 0 {
        Seq::empty()
    } else {
        let before = matches_of(entries.drop_last(), scores);
        let at = entries.len() - 1;
        match scores[at] {
            Some(score) if entries.last().enabled => before.push(Pick { score, seq: at as usize }),
            _ => before,
        }
    }
}

/// The places of the items that match, best first; equal scores keep menu
/// order.
pub open spec fn ranked_places(entries: Seq<EntryView>, scores: Seq<Option<i64>>) -> Seq<int> {
    let picks = matches_of(entries, scores);
    sorted_positions::<Pick>(picks).map_values(|i: int| picks[i].seq as int)
}

/// The first of a list of places, as many as a query lists.
pub open spec fn capped(places: Seq<int>) -> Seq<int> {
    if places.len() <= MAX_RESULTS {
        places
    } else {
        places.take(MAX_RESULTS as int)
    }
}

/// The places of the items that a query lists.
pub open spec fn listed_places(
    entries: Seq<EntryView>,
    query: Seq<char>,
    scores: Seq<Option<i64>>,
) -> Seq<int> {
    if text::trimmed(query).len() == 0 {
        capped(enabled_places(entries))
    } else {
        capped(ranked_places(entries, scores))
    }
}

/// The row for item `seq` of an app's snapshot.
fn row(pid: i32, seq: usize, entry: &MenuEntry) -> (r: Item)
    ensures
        r@ == menu_row(pid, seq as int, entry@),
{
    let head = text::join3("menu.", &text::signed_decimal_of(pid as i64), ".");
    Item {
        id: text::join(&head, &text::decimal_of(seq as u64)),
        title: text::copy(&entry.title),
        subtitle: subtitle(entry),
        kind: ItemKind::SystemCommand,
    }
}

/// The places that a query without words lists.
fn first_enabled(entries: &Vec<MenuEntry>) -> (r: Vec<usize>)
    ensures
        ints(r@) == capped(enabled_places(views(entries@))),
        forall|k: int| 0 <= k < r@.len() ==> #[trigger] r@[k] < entries@.len(),
{
    let ghost es = views(entries@);
    let mut out: Vec<usize> = Vec::new();
    let mut i: usize = 0;
    assert(es.take(0) =~= Seq::<EntryView>::empty());
    assert(ints(out@) =~= Seq::<int>::empty());
    while i < entries.len() && out.len() < MAX_RESULTS
        invariant
            i <= entries@.len(),
            es == views(entries@),
            out@.len() <= MAX_RESULTS,
            ints(out@) == enabled_places(es.take(i as int)),
            forall|k: int| 0 <= k < out@.len() ==> #[trigger] out@[k] < entries@.len(),
        decreases entries@.len() - i,
    {
        let ghost before = ints(out@);
        proof {
            assert(es.take(i + 1).drop_last() =~= es.take(i as int));
            assert(es.take(i + 1).last() == entries@[i as int]@);
        }
        if entries[i].enabled {
            out.push(i);
            assert(ints(out@) =~= before.push(i as int));
        }
        i = i + 1;
    }
    proof {
        lemma_enabled_grows(es, i as int);
        assert(es.take(entries@.len() as int) =~= es);
        assert(ints(out@).len() == out@.len());
        assert(ints(out@) =~= capped(enabled_places(es)));
    }
    out
}

/// The enabled places of a list begin with those of each of its heads.
proof fn lemma_enabled_grows(es: Seq<EntryView>, i: int)
    requires
        0 <= i <= es.len(),
    ensures
        enabled_places(es.take(i)).is_prefix_of(enabled_places(es)),
    decreases es.len() - i,
{
    if i < es.len() {
        lemma_enabled_grows(es, i + 1);
        assert(es.take(i + 1).drop_last() =~= es.take(i));
        let a = enabled_places(es.take(i));
        let b = enabled_places(es.take(i + 1));
        let c = enabled_places(es);
        assert(b == c.subrange(0, b.len() as int));
        assert(a =~= b.subrange(0, a.len() as int));
        assert(a =~= c.subrange(0, a.len() as int)) by {
            assert forall|k: int| 0 <= k < a.len() implies a[k] == c[k] by {
                assert(b[k] == c.subrange(0, b.len() as int)[k]);
                assert(a[k] == b.subrange(0, a.len() as int)[k]);
            }
        }
    } else {
        assert(es.take(i) =~= es);
        assert(enabled_places(es) =~= enabled_places(es).subrange(
            0,
            enabled_places(es).len() as int,
        ));
    }
}

/// The rows that a query lists. A query without words lists the first enabled
/// items in menu order; any other lists those that match, best first.
/// `scores` holds, for each item, how well its full path matches the query,
/// and none where it does not.
pub fn build_items(pid: i32, entries: &Vec<MenuEntry>, query: &str, scores: &Vec<Option<i64>>) -> (r:
    Vec<Item>)
    requires
        scores@.len() == entries@.len(),
    ensures
        views(r@) == listed_places(views(entries@), query@, scores@).map_values(
            |seq: int| menu_row(pid, seq, views(entries@)[seq]),
        ),
{
    let places: Vec<usize> = if text::trim(query).as_str().is_empty() {
        first_enabled(entries)
    } else {
        best_matches(entries, scores)
    };
    let mut out: Vec<Item> = Vec::new();
    let mut k: usize = 0;
    while k < places.len()
        invariant
            k <= places@.len(),
            out@.len() == k,
            forall|j: int| 0 <= j < places@.len() ==> #[trigger] places@[j] < entries@.len(),
            forall|j: int|
                0 <= j < k ==> #[trigger] out@[j]@ == menu_row(
                    pid,
                    places@[j] as int,
                    entries@[places@[j] as int]@,
                ),
        decreases places@.len() - k,
    {
        out.push(row(pid, places[k], &entries[places[k]]));
        k = k + 1;
    }
    proof {
        let want = ints(places@).map_values(|seq: int| menu_row(pid, seq, views(entries@)[seq]));
        assert(views(out@) =~= want) by {
            assert forall|j: int| 0 <= j < out@.len() implies views(out@)[j] == want[j] by {
                assert(views(entries@)[places@[j] as int] == entries@[places@[j] as int]@);
            }
        }
    }
    out
}

/// The places of the items that match, best first.
fn best_matches(entries: &Vec<MenuEntry>, scores: &Vec<Option<i64>>) -> (r: Vec<usize>)
    requires
        scores@.len() == entries@.len(),
    ensures
        ints(r@) == capped(ranked_places(views(entries@), scores@)),
        forall|k: int| 0 <= k < r@.len() ==> #[trigger] r@[k] < entries@.len(),
{
    let ghost es = views(entries@);
    let mut picks: Vec<Pick> = Vec::new();
    let mut i: usize = 0;
    assert(es.take(0) =~= Seq::<EntryView>::empty());
    while i < entries.len()
        invariant
            i <= entries@.len(),
            es == views(entries@),
            scores@.len() == entries@.len(),
            picks@ == matches_of(es.take(i as int), scores@),
            forall|k: int| 0 <= k < picks@.len() ==> (#[trigger] picks@[k]).seq < entries@.len(),
        decreases entries@.len() - i,
    {
        proof {
            assert(es.take(i + 1).drop_last() =~= es.take(i as int));
            assert(es.take(i + 1).last() == entries@[i as int]@);
        }
        if entries[i].enabled {
            if let Some(score) = scores[i] {
                picks.push(Pick { score, seq: i });
            }
        }
        i = i + 1;
    }
    assert(es.take(i as int) =~= es);
    let p = order::sort(&picks);
    assert(views(picks@) =~= picks@);
    let mut out: Vec<usize> = Vec::new();
    let mut k: usize = 0;
    while k < p.len() && k < MAX_RESULTS
        invariant
            k <= p@.len(),
            k <= MAX_RESULTS,
            out@.len() == k,
            forall|j: int| 0 <= j < p@.len() ==> #[trigger] p@[j] < picks@.len(),
            forall|j: int| 0 <= j < picks@.len() ==> (#[trigger] picks@[j]).seq < entries@.len(),
            forall|j: int| 0 <= j < k ==> #[trigger] out@[j] == picks@[p@[j] as int].seq,
        decreases p@.len() - k,
    {
        out.push(picks[p[k]].seq);
        k = k + 1;
    }
    proof {
        let ranked = ranked_places(es, scores@);
        assert(ranked =~= ints(p@).map_values(|i: int| picks@[i].seq as int));
        assert(ints(out@) =~= capped(ranked));
    }
    out
}

/// A query lists at most [`MAX_RESULTS`] rows, each of an item of the snapshot
/// that can be pressed.
pub proof fn law_rows_are_few_and_enabled(
    entries: Seq<EntryView>,
    query: Seq<char>,
    scores: Seq<Option<i64>>,
    k: int,
)
    requires
        entries.len() <= usize::MAX,
        0 <= k < listed_places(entries, query, scores).len(),
    ensures
        k < MAX_RESULTS,
        ({
            let at = listed_places(entries, query, scores)[k];
            0 <= at < entries.len() && entries[at].enabled
        }),
{
    if text::trimmed(query).len() == 0 {
        lemma_enabled_places(entries, k);
    } else {
        let picks = matches_of(entries, scores);
        order::lemma_sorted_positions::<Pick>(picks);
        lemma_matches_enabled(entries, scores, sorted_positions::<Pick>(picks)[k]);
    }
}

proof fn lemma_enabled_places(entries: Seq<EntryView>, k: int)
    requires
        0 <= k < enabled_places(entries).len(),
    ensures
        0 <= enabled_places(entries)[k] < entries.len(),
        entries[enabled_places(entries)[k]].enabled,
    decreases entries.len(),
{
    if entries.len() > 0 && k < enabled_places(entries.drop_last()).len() {
        lemma_enabled_places(entries.drop_last(), k);
    }
}

proof fn lemma_matches_enabled(entries: Seq<EntryView>, scores: Seq<Option<i64>>, k: int)
    requires
        entries.len() <= usize::MAX,
        0 <= k < matches_of(entries, scores).len(),
    ensures
        matches_of(entries, scores)[k].seq < entries.len(),
        entries[matches_of(entries, scores)[k].seq as int].enabled,
    decreases entries.len(),
{
    if entries.len() > 0 && k < matches_of(entries.drop_last(), scores).len() {
        lemma_matches_enabled(entries.drop_last(), scores, k);
    }
}

/// What an id names: the app and the place in its snapshot.
pub open spec fn id_parts(id: Seq<char>) -> Option<(i32, usize)> {
    if !"menu."@.is_prefix_of(id) {
        None
    } else {
        match text::split_first(id.skip("menu."@.len() as int), '.') {
            None => None,
            Some((p, s)) => match (text::signed_value(p), text::unsigned_value(s)) {
                (Some(pid), Some(seq)) => if i32::MIN <= pid <= i32::MAX && seq <= usize::MAX {
                    Some((pid as i32, seq as usize))
                } else {
                    None
                },
                _ => None,
            },
        }
    }
}

/// Splits a row's id into the app and the place in its snapshot.
pub fn parse_id(id: &str) -> (r: Result<(i32, usize), String>)
    ensures
        match r {
            Ok(p) => id_parts(id@) == Some(p),
            Err(e) => id_parts(id@) is None && e@ == "not a menu item id: "@ + id@,
        },
{
    if let Some(rest) = text::strip_prefix(id, "menu.") {
        if let Some((p, s)) = text::split_once(&rest, '.') {
            if let Some(pid) = text::parse_i32(&p) {
                if let Some(seq) = text::parse_usize(&s) {
                    return Ok((pid, seq));
                }
            }
        }
    }
    Err(text::join("not a menu item id: ", id))
}

/// The id of a row leads back to the app and the place that it was made for.
pub proof fn law_row_ids_lead_back(pid: i32, seq: usize)
    ensures
        id_parts(menu_id(pid, seq as int)) == Some((pid, seq)),
{
    let id = menu_id(pid, seq as int);
    let p = text::signed_decimal(pid as int);
    let s = text::decimal(seq as nat);
    reveal_strlit(".");
    assert("menu."@ =~= id.subrange(0, "menu."@.len() as int));
    let rest = id.skip("menu."@.len() as int);
    assert(rest =~= p.push('.') + s);
    text::lemma_decimal_without(pid as int, '.');
    text::lemma_split_first(p, '.', s);
    text::lemma_signed_round_trip(pid as int);
    text::lemma_unsigned_round_trip(seq as nat);
}

/// The item to press for a row: its place in the current snapshot. `snapshot`
/// holds the app that was walked and how many items it has. An id that is
/// none, one of another app, or one past the end is refused.
pub fn activate(snapshot: Option<(i32, usize)>, id: &str) -> (r: Result<usize, String>)
    ensures
        match id_parts(id@) {
            None => r matches Err(e) && e@ == "not a menu item id: "@ + id@,
            Some((pid, seq)) => match snapshot {
                None => r matches Err(e) && e@ == "no menu snapshot; summon the panel first"@,
                Some((current, count)) => if current != pid {
                    r matches Err(e) && e@ == "stale menu item: it belonged to app pid "@
                        + text::signed_decimal(pid as int) + (
                    ", but the current menu snapshot is of app pid "@ + text::signed_decimal(
                        current as int,
                    ))
                } else if seq >= count {
                    r matches Err(e) && e@ == "stale menu item: seq "@ + text::decimal(seq as nat)
                        + (" is out of range for the current snapshot ("@ + text::decimal(
                        count as nat,
                    ) + " items)"@)
                } else {
                    r == Ok::<usize, String>(seq)
                },
            },
        },
{
    let (pid, seq) = match parse_id(id) {
        Ok(p) => p,
        Err(e) => {
            return Err(e);
        },
    };
    match snapshot {
        None => Err(text::copy("no menu snapshot; summon the panel first")),
        Some((current, count)) => {
            if current != pid {
                let tail = text::join(
                    ", but the current menu snapshot is of app pid ",
                    &text::signed_decimal_of(current as i64),
                );
                return Err(
                    text::join3(
                        "stale menu item: it belonged to app pid ",
                        &text::signed_decimal_of(pid as i64),
                        &tail,
                    ),
                );
            }
            if seq >= count {
                let tail = text::join3(
                    " is out of range for the current snapshot (",
                    &text::decimal_of(count as u64),
                    " items)",
                );
                return Err(
                    text::join3("stale menu item: seq ", &text::decimal_of(seq as u64), &tail),
                );
            }
            Ok(seq)
        },
    }
}

/// The app to walk before the snapshot is used, if it has to be walked: none
/// while the snapshot is of the frontmost app and young enough, or while no
/// app is frontmost. `snapshot` holds the app that was walked and the age in
/// seconds.
pub fn snapshot_frontmost(frontmost: Option<i32>, snapshot: Option<(i32, u64)>) -> (r: Option<i32>)
    ensures
        r == (match frontmost {
            None => None,
            Some(pid) => match snapshot {
                Some((p, age)) if p == pid && age < CACHE_TTL_SECS => None,
                _ => Some(pid),
            },
        }),
{
    match frontmost {
        None => None,
        Some(pid) => match snapshot {
            Some((p, age)) => if p == pid && age < CACHE_TTL_SECS {
                None
            } else {
                Some(pid)
            },
            None => Some(pid),
        },
    }
}

/// How a press went, given the error code that it returned.
pub fn press(code: i32) -> (r: Result<(), String>)
    ensures
        match r {
            Ok(_) => code == 0,
            Err(e) => code != 0 && e@ == "AXPress failed: AXError "@ + text::signed_decimal(
                code as int,
            ),
        },
{
    if code == 0 {
        Ok(())
    } else {
        Err(text::join("AXPress failed: AXError ", &text::signed_decimal_of(code as i64)))
    }
}

/// Where an enabled item that has a score stands among the matches.
proof fn lemma_match_at(entries: Seq<EntryView>, scores: Seq<Option<i64>>, at: int) -> (k: int)
    requires
        entries.len() <= usize::MAX,
        0 <= at < entries.len(),
        entries[at].enabled,
        scores[at] is Some,
    ensures
        0 <= k < matches_of(entries, scores).len(),
        matches_of(entries, scores)[k] == (Pick { score: scores[at]->0, seq: at as usize }),
    decreases entries.len(),
{
    if at == entries.len() - 1 {
        matches_of(entries, scores).len() - 1
    } else {
        lemma_match_at(entries.drop_last(), scores, at)
    }
}

/// Every match is an enabled item with its own score.
proof fn lemma_match_is_scored(entries: Seq<EntryView>, scores: Seq<Option<i64>>, k: int)
    requires
        entries.len() <= usize::MAX,
        0 <= k < matches_of(entries, scores).len(),
    ensures
        ({
            let pick = matches_of(entries, scores)[k];
            &&& pick.seq < entries.len()
            &&& entries[pick.seq as int].enabled
            &&& scores[pick.seq as int] == Some(pick.score)
        }),
    decreases entries.len(),
{
    if entries.len() > 0 && k < matches_of(entries.drop_last(), scores).len() {
        lemma_match_is_scored(entries.drop_last(), scores, k);
    }
}

/// For a query with words the listed items are enabled ones that match, best
/// first: a higher score stands before a lower one, and equal scores stand in
/// menu order. An enabled item that matches is left out only where the list is
/// full of items that come before it in this order, however many match.
pub proof fn law_the_best_matches_are_listed_best_first(
    entries: Seq<EntryView>,
    query: Seq<char>,
    scores: Seq<Option<i64>>,
)
    requires
        entries.len() <= usize::MAX,
        text::trimmed(query).len() > 0,
    ensures
        ({
            let ps = listed_places(entries, query, scores);
            &&& ps.len() <= 9
            &&& forall|i: int|
                0 <= i < ps.len() ==> 0 <= #[trigger] ps[i] < entries.len()
                    && entries[ps[i]].enabled && scores[ps[i]] is Some
            &&& forall|i: int, j: int|
                0 <= i < j < ps.len() ==> {
                    let (a, b) = (#[trigger] ps[i], #[trigger] ps[j]);
                    scores[a]->0 > scores[b]->0 || (scores[a]->0 == scores[b]->0 && a < b)
                }
            &&& forall|at: int, i: int|
                0 <= at < entries.len() && (#[trigger] entries[at]).enabled && scores[at] is Some
                    && !ps.contains(at) && 0 <= i < ps.len() ==> {
                    let b = #[trigger] ps[i];
                    scores[b]->0 > scores[at]->0 || (scores[b]->0 == scores[at]->0 && b < at)
                }
            &&& forall|at: int|
                0 <= at < entries.len() && (#[trigger] entries[at]).enabled && scores[at] is Some
                    && ps.len() < 9 ==> ps.contains(at)
        }),
{
    let picks = matches_of(entries, scores);
    let p = sorted_positions::<Pick>(picks);
    let ranked = ranked_places(entries, scores);
    let ps = listed_places(entries, query, scores);
    order::lemma_sorted_positions::<Pick>(picks);
    order::lemma_order_complete::<Pick>(picks, p);
    assert forall|i: int| 0 <= i < ranked.len() implies 0 <= #[trigger] ranked[i] < entries.len()
        && entries[ranked[i]].enabled && scores[ranked[i]] == Some(picks[p[i]].score) by {
        lemma_match_is_scored(entries, scores, p[i]);
    }
    assert forall|i: int, j: int| 0 <= i < j < ranked.len() implies ({
        let (a, b) = (#[trigger] ranked[i], #[trigger] ranked[j]);
        scores[a]->0 > scores[b]->0 || (scores[a]->0 == scores[b]->0 && a < b)
    }) by {
        lemma_match_is_scored(entries, scores, p[i]);
        lemma_match_is_scored(entries, scores, p[j]);
        assert(order::position_ahead::<Pick>(picks, p[i], p[j]));
        lemma_matches_in_menu_order(entries, scores);
    }
    assert forall|at: int|
        0 <= at < entries.len() && (#[trigger] entries[at]).enabled && scores[at] is Some implies (
    exists|i: int| 0 <= i < ranked.len() && #[trigger] ranked[i] == at) by {
        let k = lemma_match_at(entries, scores, at);
        assert(p.contains(k));
        let i = choose|i: int| 0 <= i < p.len() && p[i] == k;
        assert(ranked[i] == at);
    }
    assert forall|at: int, i: int|
        0 <= at < entries.len() && (#[trigger] entries[at]).enabled && scores[at] is Some
            && !ps.contains(at) && 0 <= i < ps.len() implies ({
        let b = #[trigger] ps[i];
        scores[b]->0 > scores[at]->0 || (scores[b]->0 == scores[at]->0 && b < at)
    }) by {
        let k = choose|k: int| 0 <= k < ranked.len() && #[trigger] ranked[k] == at;
        if k < ps.len() {
            assert(ps[k] == at);
        }
        assert(ps[i] == ranked[i]);
    }
    assert forall|at: int|
        0 <= at < entries.len() && (#[trigger] entries[at]).enabled && scores[at] is Some
            && ps.len() < 9 implies ps.contains(at) by {
        let k = choose|k: int| 0 <= k < ranked.len() && #[trigger] ranked[k] == at;
        assert(ps[k] == at);
    }
}

/// The matches stand in menu order before they are ranked.
proof fn lemma_matches_in_menu_order(entries: Seq<EntryView>, scores: Seq<Option<i64>>)
    requires
        entries.len() <= usize::MAX,
    ensures
        forall|i: int, j: int|
            0 <= i < j < matches_of(entries, scores).len() ==> (#[trigger] matches_of(
                entries,
                scores,
            )[i]).seq < (#[trigger] matches_of(entries, scores)[j]).seq,
    decreases entries.len(),
{
    if entries.len() > 0 {
        let head = entries.drop_last();
        lemma_matches_in_menu_order(head, scores);
        assert forall|k: int| 0 <= k < matches_of(head, scores).len() implies (
        #[trigger] matches_of(head, scores)[k]).seq < entries.len() - 1 by {
            lemma_match_is_scored(head, scores, k);
        }
    }
}

/// A query without words lists enabled items in menu order, and leaves one out
/// only where the list is full of items that stand before it in the menus.
pub proof fn law_no_words_list_the_first_enabled_items(
    entries: Seq<EntryView>,
    query: Seq<char>,
    scores: Seq<Option<i64>>,
)
    requires
        text::trimmed(query).len() == 0,
    ensures
        ({
            let ps = listed_places(entries, query, scores);
            &&& ps.len() <= 9
            &&& forall|i: int|
                0 <= i < ps.len() ==> 0 <= #[trigger] ps[i] < entries.len()
                    && entries[ps[i]].enabled
            &&& forall|i: int, j: int| 0 <= i < j < ps.len() ==> #[trigger] ps[i] < #[trigger] ps[j]
            &&& forall|at: int|
                0 <= at < entries.len() && (#[trigger] entries[at]).enabled && !ps.contains(at)
                    ==> ps.len() == 9 && ps.last() < at
        }),
{
    let all = enabled_places(entries);
    let ps = listed_places(entries, query, scores);
    lemma_enabled_in_menu_order(entries);
    assert forall|i: int| 0 <= i < ps.len() implies 0 <= #[trigger] ps[i] < entries.len()
        && entries[ps[i]].enabled by {
        lemma_enabled_places(entries, i);
        assert(ps[i] == all[i]);
    }
    assert forall|i: int, j: int| 0 <= i < j < ps.len() implies #[trigger] ps[i]
        < #[trigger] ps[j] by {
        assert(ps[i] == all[i] && ps[j] == all[j]);
    }
    assert forall|at: int|
        0 <= at < entries.len() && (#[trigger] entries[at]).enabled && !ps.contains(at) implies
        ps.len() == 9 && ps.last() < at by {
        let k = lemma_enabled_at(entries, at);
        if k < ps.len() {
            assert(ps[k] == at);
        }
        assert(ps.last() == all[ps.len() - 1]);
    }
}

/// The enabled places go up.
proof fn lemma_enabled_in_menu_order(entries: Seq<EntryView>)
    ensures
        forall|i: int, j: int|
            0 <= i < j < enabled_places(entries).len() ==> #[trigger] enabled_places(entries)[i]
                < #[trigger] enabled_places(entries)[j],
    decreases entries.len(),
{
    if entries.len() > 0 {
        let head = entries.drop_last();
        lemma_enabled_in_menu_order(head);
        assert forall|k: int| 0 <= k < enabled_places(head).len() implies
            #[trigger] enabled_places(head)[k] < entries.len() - 1 by {
            lemma_enabled_places(head, k);
        }
    }
}

/// Where an enabled item stands among the enabled places.
proof fn lemma_enabled_at(entries: Seq<EntryView>, at: int) -> (k: int)
    requires
        0 <= at < entries.len(),
        entries[at].enabled,
    ensures
        0 <= k < enabled_places(entries).len(),
        enabled_places(entries)[k] == at,
    decreases entries.len(),
{
    if at == entries.len() - 1 {
        enabled_places(entries).len() - 1
    } else {
        lemma_enabled_at(entries.drop_last(), at)
    }
}

/// A menu row shows the item's title, and its id names the app and the item's
/// place; where the item lies below a menu its subtitle begins with that
/// menu's breadcrumb, and it ends in the item's shortcut.
pub proof fn law_rows_show_their_item(pid: i32, seq: usize, e: EntryView)
    ensures
        ({
            let row = menu_row(pid, seq as int, e);
            &&& row.title == e.title
            &&& id_parts(row.id) == Some((pid, seq))
            &&& e.shortcut.is_suffix_of(row.subtitle) || e.shortcut.len() == 0
            &&& e.breadcrumb.is_prefix_of(row.subtitle)
            &&& e.title.is_suffix_of(full_path(e))
            &&& e.breadcrumb.is_prefix_of(full_path(e))
            &&& e.breadcrumb.len() > 0 && e.shortcut.len() > 0 ==> row.subtitle
                == e.breadcrumb.push(' ').push(' ') + e.shortcut
            &&& e.breadcrumb.len() == 0 ==> full_path(e) == e.title && row.subtitle == e.shortcut
            &&& e.shortcut.len() == 0 ==> row.subtitle == e.breadcrumb
            &&& row.kind is SystemCommand
        }),
{
    law_row_ids_lead_back(pid, seq);
    reveal_strlit("  ");
    reveal_strlit(" > ");
    let s = row_subtitle(e);
    assert(e.breadcrumb =~= s.subrange(0, e.breadcrumb.len() as int));
    assert(e.shortcut =~= s.subrange(s.len() - e.shortcut.len(), s.len() as int));
    let f = full_path(e);
    assert(e.breadcrumb =~= f.subrange(0, e.breadcrumb.len() as int));
    assert(e.title =~= f.subrange(f.len() - e.title.len(), f.len() as int));
    if e.breadcrumb.len() > 0 && e.shortcut.len() > 0 {
        assert(s =~= e.breadcrumb.push(' ').push(' ') + e.shortcut);
    }
}

/// The items of menus are those of the one followed by those of the others, and
/// menus without items change nothing.
pub proof fn law_menus_are_walked_in_order(
    a: Seq<MenuNode>,
    b: Seq<MenuNode>,
    path: Seq<Seq<char>>,
)
    ensures
        leaves_of_all(a + b, path) == leaves_of_all(a, path) + leaves_of_all(b, path),
    decreases a.len(),
{
    if a.len() == 0 {
        assert(a + b =~= b);
        assert(leaves_of_all(a, path) + leaves_of_all(b, path) =~= leaves_of_all(b, path));
    } else {
        let rest = a.subrange(1, a.len() as int);
        assert((a + b).subrange(1, (a + b).len() as int) =~= rest + b);
        assert((a + b)[0] == a[0]);
        law_menus_are_walked_in_order(rest, b, path);
        assert(leaves_of_all(a + b, path) =~= leaves_of_all(a, path) + leaves_of_all(b, path));
    }
}

/// A titled element without children is one item under the titles above it,
/// enabled unless it says otherwise. A titled container puts its title between
/// those above and its items, one without a title does not show, and an
/// untitled element without children is no item.
pub proof fn law_items_lie_under_the_titles_above_them(node: MenuNode, path: Seq<Seq<char>>)
    ensures
        node.children@.len() == 0 && node.title@.len() > 0 ==> {
            &&& leaves(node, path).len() == 1
            &&& leaves(node, path)[0].title == node.title@
            &&& leaves(node, path)[0].breadcrumb == text::joined(path, " > "@)
            &&& leaves(node, path)[0].enabled == !(node.enabled == Some(false))
        },
        node.children@.len() == 0 && node.title@.len() == 0 ==> leaves(node, path).len() == 0,
        node.children@.len() > 0 && node.title@.len() == 0 ==> leaves(node, path) == leaves_of_all(
            node.children@,
            path,
        ),
        node.children@.len() > 0 && node.title@.len() > 0 && path.len() < 6 ==> leaves(node, path)
            == leaves_of_all(node.children@, path.push(node.title@)),
{
}

/// A shortcut begins with a glyph for each modifier that it holds, in the order
/// control, option, shift, command, and ends in its character. Command belongs
/// to every shortcut that does not say otherwise.
pub proof fn law_shortcuts_show_their_modifiers(ch: Seq<char>, mods: i64)
    ensures
        ({
            let s = shortcut_glyphs(ch, mods);
            let (control, option, shift, command) = (
                mods & 4 != 0,
                mods & 2 != 0,
                mods & 1 != 0,
                mods & 8 == 0,
            );
            let n: int = if control {
                1
            } else {
                0
            };
            let o: int = if option {
                n + 1
            } else {
                n
            };
            let f: int = if shift {
                o + 1
            } else {
                o
            };
            let c: int = if command {
                f + 1
            } else {
                f
            };
            &&& s.len() == c + ch.len()
            &&& s.skip(c) == ch
            &&& control ==> s[0] == '\u{2303}'
            &&& option ==> s[n] == '\u{2325}'
            &&& shift ==> s[o] == '\u{21E7}'
            &&& command ==> s[f] == '\u{2318}'
        }),
{
    let s = shortcut_glyphs(ch, mods);
    assert(s.skip(s.len() - ch.len()) =~= ch);
}

/// A snapshot takes the items in the order in which they are met, all of them
/// up to the limit; a full one takes no more.
pub proof fn law_snapshots_take_the_first_items(before: Seq<EntryView>, more: Seq<EntryView>)
    ensures
        bounded(more).is_prefix_of(more),
        bounded(more).len() == (if more.len() < 2000 {
            more.len()
        } else {
            2000
        }),
        filled(before, more).is_prefix_of(before + more),
        before.is_prefix_of(filled(before, more)),
        before.len() <= 2000 ==> filled(before, more).len() == (if before.len() + more.len() < 2000 {
            before.len() + more.len()
        } else {
            2000
        }),
        before.len() >= 2000 ==> filled(before, more) == before,
{
    let f = filled(before, more);
    assert(bounded(more) =~= more.subrange(0, bounded(more).len() as int));
    assert(f =~= (before + more).subrange(0, f.len() as int));
    assert(before =~= f.subrange(0, before.len() as int));
    if before.len() == 2000 {
        assert(f =~= before);
    }
}

/// The id of a row is the fixed word, the app's process and the item's place,
/// with dots between them; an id that names an item is made so and no other is.
pub proof fn law_menu_ids_hold_two_numbers(pid: i32, seq: usize, id: Seq<char>)
    ensures
        menu_id(pid, seq as int) == "menu."@ + text::signed_decimal(pid as int) + "."@
            + text::decimal(seq as nat),
        id_parts(id) matches Some((p, s)) ==> "menu."@.is_prefix_of(id) && ({
            let rest = id.skip("menu."@.len() as int);
            exists|n: int|
                {
                    &&& 0 <= n < rest.len()
                    &&& #[trigger] rest[n] == '.'
                    &&& text::signed_value(rest.take(n)) == Some(p as int)
                    &&& text::unsigned_value(rest.skip(n + 1)) == Some(s as int)
                }
        }),
{
    if let Some((p, s)) = id_parts(id) {
        let rest = id.skip("menu."@.len() as int);
        text::law_splits_make_up_the_text(rest, '.');
        let (a, b) = text::split_first(rest, '.')->0;
        assert(rest[a.len() as int] == '.');
        assert(rest.take(a.len() as int) =~= a);
        assert(rest.skip(a.len() + 1int) =~= b);
    }
}

/// The full path of an item is its title, behind the titles above it where there
/// are any, with an angle bracket between two.
pub proof fn law_full_paths_end_in_the_title(e: EntryView)
    ensures
        e.breadcrumb.len() == 0 ==> full_path(e) == e.title,
        e.breadcrumb.len() > 0 ==> full_path(e) == e.breadcrumb.push(' ').push('>').push(' ')
            + e.title,
{
    reveal_strlit(" > ");
    if e.breadcrumb.len() > 0 {
        assert(full_path(e) =~= e.breadcrumb.push(' ').push('>').push(' ') + e.title);
    }
}

/// The titles above a depth are the first of a path, as many as the depth says
/// where the path is that long.
pub proof fn law_titles_above_are_the_first(path: Seq<Seq<char>>, depth: usize)
    ensures
        titles_above(path, depth).is_prefix_of(path),
        titles_above(path, depth).len() <= depth,
        titles_above(path, depth).len() == depth || titles_above(path, depth).len() == path.len(),
{
}

} // verus!
