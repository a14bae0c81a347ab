//! Installed applications: which bundles count, under which name and id each
//! is listed, and which copy is kept where several share an id.
//!
//! The index depends on what is installed alone, never on the order in which
//! the bundles were found.

use crate::order::{self, ints, sorted_positions, views, Ranked};
use crate::paths;
use crate::router::{Item, ItemKind, ItemView};
use crate::scriptcmd;
use crate::text;
use vstd::prelude::*;

verus! {

/// The directories that hold applications, each with whether the search goes
/// into its subdirectories: those of the system, then the user's own.
pub open spec fn root_dirs(home: Option<Seq<char>>) -> Seq<(Seq<char>, bool)> {
    let fixed = seq![
        ("/Applications"@, true),
        ("/Applications/Utilities"@, false),
        ("/System/Applications"@, false),
        ("/System/Applications/Utilities"@, false),
    ];
    match home {
        Some(h) => fixed.push((paths::joined_path(h, "Applications"@), false)),
        None => fixed,
    }
}

/// The directories that hold applications.
pub fn roots(home: Option<&str>) -> (r: Vec<(String, bool)>)
    ensures
        views(r@) == root_dirs(
            match home {
                Some(h) => Some(h@),
                None => None,
            },
        ),
{
    let mut dirs = vec![
        (text::copy("/Applications"), true),
        (text::copy("/Applications/Utilities"), false),
        (text::copy("/System/Applications"), false),
        (text::copy("/System/Applications/Utilities"), false),
    ];
    assert(views(dirs@) =~= root_dirs(None));
    if let Some(h) = home {
        let ghost before = views(dirs@);
        dirs.push((paths::join_path(h, "Applications"), false));
        assert(views(dirs@) =~= before.push((paths::joined_path(h@, "Applications"@), false)));
    }
    dirs
}

/// How far a copy's place is from the usual one.
pub open spec fn rank_of(path: Seq<char>) -> u8 {
    if "/Applications/"@.is_prefix_of(path) {
        0
    } else if "/System/"@.is_prefix_of(path) {
        2
    } else {
        1
    }
}

/// How far a copy's place is from the usual one: the lower one is kept.
pub fn source_rank(path: &str) -> (r: u8)
    ensures
        r == rank_of(path@),
{
    if text::starts_with(path, "/Applications/") {
        0
    } else if text::starts_with(path, "/System/") {
        2
    } else {
        1
    }
}

/// What the search does with a directory entry.
#[derive(Clone, Copy, Debug, PartialEq, Eq, Structural)]
pub enum Visit {
    Skip,
    Bundle,
    Descend,
}

/// What the search does with an entry, given whether it is a directory where
/// that reads: hidden entries and files are passed over.
pub open spec fn visit_of(name: Seq<char>, is_dir: Option<bool>, descend: bool) -> Visit {
    if "."@.is_prefix_of(name) || is_dir != Some(true) {
        Visit::Skip
    } else if ".app"@.is_suffix_of(name) {
        Visit::Bundle
    } else if descend {
        Visit::Descend
    } else {
        Visit::Skip
    }
}

/// What the search does with an entry.
pub fn visit(name: &str, is_dir: Option<bool>, descend: bool) -> (r: Visit)
    ensures
        r == visit_of(name@, is_dir, descend),
{
    if text::starts_with(name, ".") {
        return Visit::Skip;
    }
    match is_dir {
        Some(true) => if text::ends_with(name, ".app") {
            Visit::Bundle
        } else if descend {
            Visit::Descend
        } else {
            Visit::Skip
        },
        _ => Visit::Skip,
    }
}

/// A directory entry with what it holds.
pub struct AppNode {
    pub name: String,
    pub path: String,
    pub is_dir: Option<bool>,
    pub children: Vec<AppNode>,
}

/// The paths of the bundles among entries, in the order in which they are met.
pub open spec fn bundles(entries: Seq<AppNode>, descend: bool) -> Seq<Seq<char>>
    decreases entries,
{
    if entries.len() == 0 {
        Seq::empty()
    } else {
        let e = entries.last();
        let before = bundles(entries.drop_last(), descend);
        match visit_of(e.name@, e.is_dir, descend) {
            Visit::Skip => before,
            Visit::Bundle => before.push(e.path@),
            Visit::Descend => before + bundles(e.children@, false),
        }
    }
}

/// Collects the paths of the bundles among entries. The search goes one level
/// deep at most.
pub fn scan_dir(entries: &Vec<AppNode>, descend: bool, out: &mut Vec<String>)
    ensures
        views(final(out)@) == views(old(out)@) + bundles(entries@, descend),
    decreases
            (if descend {
                1int
            } else {
                0
            }),
{
    let ghost start = views(out@);
    let mut i: usize = 0;
    assert(entries@.take(0) =~= Seq::empty());
    assert(views(out@) =~= start + bundles(entries@.take(0), descend));
    while i < entries.len()
        invariant
            i <= entries@.len(),
            start == views(old(out)@),
            views(out@) == start + bundles(entries@.take(i as int), descend),
        decreases entries@.len() - i,
    {
        let e = &entries[i];
        let ghost before = views(out@);
        proof {
            let done = entries@.take(i + 1);
            assert(done.drop_last() =~= entries@.take(i as int));
            assert(done.last() == *e);
        }
        match visit(&e.name, e.is_dir, descend) {
            Visit::Skip => {},
            Visit::Bundle => {
                out.push(text::copy(&e.path));
                assert(views(out@) =~= before.push(e.path@));
                assert(start + bundles(entries@.take(i as int), descend).push(e.path@)
                    =~= before.push(e.path@));
            },
            Visit::Descend => {
                scan_dir(&e.children, false, out);
                assert(start + (bundles(entries@.take(i as int), descend) + bundles(
                    e.children@,
                    false,
                )) =~= before + bundles(e.children@, false));
            },
        }
        i = i + 1;
    }
    assert(entries@.take(i as int) =~= entries@);
}

/// The name that is shown of a bundle: without the suffix that some settings
/// leave on, and none where nothing is left.
pub open spec fn shown_name(name: Seq<char>) -> Option<Seq<char>> {
    let bare = if ".app"@.is_suffix_of(name) {
        name.take(name.len() - ".app"@.len())
    } else {
        name
    };
    if text::trimmed(bare).len() == 0 {
        None
    } else {
        Some(text::trimmed(bare))
    }
}

/// The name that is shown of a bundle, out of the name that the system
/// displays for it.
pub fn display_name(name: &str) -> (r: Option<String>)
    ensures
        match r {
            Some(n) => shown_name(name@) == Some(n@),
            None => shown_name(name@) is None,
        },
{
    let x = text::chars_of(name);
    proof {
        reveal_strlit(".app");
    }
    let bare = if text::ends_with(name, ".app") {
        text::string_of(&x, 0, x.len() - 4)
    } else {
        text::copy(name)
    };
    assert(".app"@.is_suffix_of(name@) ==> bare@ =~= name@.take(name@.len() - ".app"@.len()));
    let shown = text::trim(&bare);
    if shown.as_str().is_empty() {
        None
    } else {
        Some(shown)
    }
}

/// The id that a bundle declares, none where it is not read or empty.
pub open spec fn declared_id(id: Option<Seq<char>>) -> Option<Seq<char>> {
    match id {
        Some(i) => if i.len() == 0 {
            None
        } else {
            Some(i)
        },
        None => None,
    }
}

/// The id that a bundle declares, out of what the system reads.
pub fn bundle_id(id: Option<&str>) -> (r: Option<String>)
    ensures
        text::opt_view(r) == declared_id(
            match id {
                Some(i) => Some(i@),
                None => None,
            },
        ),
{
    match id {
        Some(i) => if i.is_empty() {
            None
        } else {
            Some(text::copy(i))
        },
        None => None,
    }
}

/// A bundle with what the system says of it.
pub struct Bundle {
    pub path: String,
    /// The name that the system displays.
    pub display: String,
    /// The identifier that the bundle declares, where it reads at all.
    pub id: Option<String>,
}

/// What a [`Bundle`] holds.
#[verifier::ext_equal]
pub struct BundleView {
    pub path: Seq<char>,
    pub display: Seq<char>,
    pub id: Option<Seq<char>>,
}

impl View for Bundle {
    type V = BundleView;

    open spec fn view(&self) -> BundleView {
        BundleView { path: self.path@, display: self.display@, id: text::opt_view(self.id) }
    }
}

/// A bundle's title where the system displays nothing: its file name without
/// the extension.
pub open spec fn fallback_title(path: Seq<char>, last: Option<Seq<char>>) -> Seq<char> {
    match last {
        Some(n) => scriptcmd::stem(n),
        None => path,
    }
}

/// The row of a bundle, given the last component of its path.
pub open spec fn app_row(b: BundleView, last: Option<Seq<char>>) -> ItemView {
    ItemView {
        id: scriptcmd::or_else(declared_id(b.id), b.path),
        title: scriptcmd::or_else(shown_name(b.display), fallback_title(b.path, last)),
        subtitle: b.path,
        kind: ItemKind::App,
    }
}

/// The row of a bundle, given the last component of its path.
pub fn row_for(b: &Bundle, last: Option<String>) -> (r: Item)
    ensures
        r@ == app_row(b@, text::opt_view(last)),
{
    let title = match display_name(&b.display) {
        Some(n) => n,
        None => match last {
            Some(n) => scriptcmd::file_stem(&n),
            None => text::copy(&b.path),
        },
    };
    let id = match &b.id {
        Some(i) => bundle_id(Some(i.as_str())),
        None => None,
    };
    match id {
        Some(i) => Item::new(&i, &title, &b.path, ItemKind::App),
        None => Item::new(&b.path, &title, &b.path, ItemKind::App),
    }
}

/// Whether the row at `j` is kept in place of the row at `k`: they share an
/// id, and its place is nearer to the usual one, or its path the smaller; of
/// two rows for one path the first is kept.
pub open spec fn beats(rows: Seq<ItemView>, j: int, k: int) -> bool {
    let (p, q) = (rows[j].subtitle, rows[k].subtitle);
    rows[j].id == rows[k].id && (if rank_of(p) != rank_of(q) {
        rank_of(p) < rank_of(q)
    } else if p != q {
        text::lex_before(p, q)
    } else {
        j < k
    })
}

/// Whether the row at `k` is kept.
pub open spec fn kept(rows: Seq<ItemView>, k: int) -> bool {
    forall|j: int| 0 <= j < rows.len() ==> !#[trigger] beats(rows, j, k)
}

/// The places, below `n`, of the rows that are kept.
pub open spec fn kept_places(rows: Seq<ItemView>, n: nat) -> Seq<int>
    decreases n,
{
    if n == 0 {
        Seq::empty()
    } else {
        let before = kept_places(rows, (n - 1) as nat);
        if kept(rows, n - 1) {
            before.push(n - 1)
        } else {
            before
        }
    }
}

impl Ranked for Item {
    open spec fn ahead(a: ItemView, b: ItemView) -> bool {
        text::lex_before(a.title, b.title) || (a.title == b.title && text::lex_before(a.id, b.id))
    }

    proof fn lemma_asymmetric(a: ItemView, b: ItemView) {
        text::lemma_lex_trichotomy(a.title, b.title);
        text::lemma_lex_trichotomy(a.id, b.id);
    }

    proof fn lemma_separates(a: ItemView, b: ItemView, c: ItemView) {
        text::lemma_lex_separates(a.title, b.title, c.title);
        text::lemma_lex_separates(a.id, b.id, c.id);
        text::lemma_lex_trichotomy(a.title, b.title);
        text::lemma_lex_trichotomy(b.title, c.title);
        text::lemma_lex_trichotomy(a.title, c.title);
    }

    fn is_ahead(&self, other: &Item) -> bool {
        proof {
            text::lemma_lex_trichotomy(self.title@, other.title@);
        }
        if text::before(&self.title, &other.title) {
            true
        } else if text::before(&other.title, &self.title) {
            false
        } else {
            text::before(&self.id, &other.id)
        }
    }
}

/// The rows that are kept, in the order in which they were found.
pub open spec fn kept_rows(rows: Seq<ItemView>) -> Seq<ItemView> {
    kept_places(rows, rows.len()).map_values(|k: int| rows[k])
}

/// The index: the rows that are kept, by title and then by id.
pub open spec fn index_of(rows: Seq<ItemView>) -> Seq<ItemView> {
    let held = kept_rows(rows);
    sorted_positions::<Item>(held).map_values(|i: int| held[i])
}

/// Whether the row at `j` is kept in place of the row at `k`.
fn wins(rows: &Vec<Item>, j: usize, k: usize) -> (r: bool)
    requires
        j < rows@.len(),
        k < rows@.len(),
    ensures
        r == beats(views(rows@), j as int, k as int),
{
    let (a, b) = (&rows[j], &rows[k]);
    if !text::same(&a.id, &b.id) {
        return false;
    }
    let (p, q): (u8, u8) = (source_rank(&a.subtitle), source_rank(&b.subtitle));
    if p != q {
        p < q
    } else if text::same(&a.subtitle, &b.subtitle) {
        j < k
    } else {
        text::before(&a.subtitle, &b.subtitle)
    }
}

/// Whether the row at `k` is kept.
fn is_kept(rows: &Vec<Item>, k: usize) -> (r: bool)
    requires
        k < rows@.len(),
    ensures
        r == kept(views(rows@), k as int),
{
    let mut j: usize = 0;
    while j < rows.len()
        invariant
            j <= rows@.len(),
            k < rows@.len(),
            forall|i: int| 0 <= i < j ==> !#[trigger] beats(views(rows@), i, k as int),
        decreases rows@.len() - j,
    {
        if wins(rows, j, k) {
            return false;
        }
        j = j + 1;
    }
    true
}

/// The index over rows: one row per id, by title and then by id.
pub fn index_rows(rows: &Vec<Item>) -> (r: Vec<Item>)
    ensures
        views(r@) == index_of(views(rows@)),
{
    let ghost all = views(rows@);
    let mut held: Vec<Item> = Vec::new();
    let mut k: usize = 0;
    assert(views(held@) =~= kept_places(all, 0).map_values(|k: int| all[k]));
    while k < rows.len()
        invariant
            k <= rows@.len(),
            all == views(rows@),
            views(held@) == kept_places(all, k as nat).map_values(|k: int| all[k]),
        decreases rows@.len() - k,
    {
        if is_kept(rows, k) {
            let ghost before = views(held@);
            held.push(rows[k].copied());
            assert(views(held@) =~= before.push(all[k as int]));
            assert(kept_places(all, (k + 1) as nat).map_values(|k: int| all[k]) =~= before.push(
                all[k as int],
            ));
        }
        k = k + 1;
    }
    let p = order::sort(&held);
    let mut out: Vec<Item> = Vec::new();
    let mut i: usize = 0;
    while i < p.len()
        invariant
            i <= p@.len(),
            out@.len() == i,
            forall|j: int| 0 <= j < p@.len() ==> #[trigger] p@[j] < held@.len(),
            forall|j: int| 0 <= j < i ==> #[trigger] out@[j]@ == held@[p@[j] as int]@,
        decreases p@.len() - i,
    {
        out.push(held[p[i]].copied());
        i = i + 1;
    }
    proof {
        let want = index_of(all);
        assert(kept_rows(all) == views(held@));
        assert(want.len() == out@.len());
        assert forall|j: int| 0 <= j < out@.len() implies views(out@)[j] == want[j] by {
            assert(ints(p@)[j] == p@[j]);
        }
        assert(views(out@) =~= want);
    }
    out
}

/// The rows of the bundles that were found.
pub open spec fn found_rows(found: Seq<BundleView>) -> Seq<ItemView> {
    found.map_values(|b: BundleView| app_row(b, paths::last_component(b.path)))
}

/// Indexes the bundles that were found.
pub fn index(found: &Vec<Bundle>) -> (r: Vec<Item>)
    ensures
        views(r@) == index_of(found_rows(views(found@))),
{
    let mut rows: Vec<Item> = Vec::new();
    let mut i: usize = 0;
    while i < found.len()
        invariant
            i <= found@.len(),
            rows@.len() == i,
            forall|j: int|
                0 <= j < i ==> #[trigger] rows@[j]@ == app_row(
                    found@[j]@,
                    paths::last_component(found@[j]@.path),
                ),
        decreases found@.len() - i,
    {
        rows.push(row_for(&found[i], paths::file_name(&found[i].path)));
        i = i + 1;
    }
    assert(views(rows@) =~= found_rows(views(found@)));
    index_rows(&rows)
}

/// Whether a bundle may be opened, given whether there is a directory at its
/// path.
pub fn launch(path: &str, is_dir: bool) -> (r: Result<(), String>)
    ensures
        match r {
            Ok(_) => ".app"@.is_suffix_of(path@) && is_dir,
            Err(e) => if !".app"@.is_suffix_of(path@) {
                e@ == "not an .app bundle: "@ + path@
            } else {
                !is_dir && e@ == "no app bundle at "@ + path@
            },
        },
{
    if !text::ends_with(path, ".app") {
        return Err(text::join("not an .app bundle: ", path));
    }
    if !is_dir {
        return Err(text::join("no app bundle at ", path));
    }
    Ok(())
}

/// The error where the system makes no URL of a bundle's path.
pub fn no_url(path: &str) -> (r: String)
    ensures
        r@ == "NSURL rejected path "@ + path@,
{
    text::join("NSURL rejected path ", path)
}

/// The places of kept rows are places, in order.
proof fn lemma_kept_places(rows: Seq<ItemView>, n: nat)
    requires
        n <= rows.len(),
    ensures
        forall|i: int|
            0 <= i < kept_places(rows, n).len() ==> 0 <= #[trigger] kept_places(rows, n)[i] < n
                && kept(rows, kept_places(rows, n)[i]),
        forall|i: int, j: int|
            0 <= i < j < kept_places(rows, n).len() ==> kept_places(rows, n)[i] < kept_places(
                rows,
                n,
            )[j],
        forall|k: int| 0 <= k < n && kept(rows, k) ==> kept_places(rows, n).contains(k),
    decreases n,
{
    if n > 0 {
        let m = (n - 1) as nat;
        lemma_kept_places(rows, m);
        assert forall|k: int| 0 <= k < n && kept(rows, k) implies kept_places(rows, n).contains(
            k,
        ) by {
            if k == m {
                assert(kept_places(rows, n).last() == k);
            } else {
                let i = choose|i: int|
                    0 <= i < kept_places(rows, m).len() && kept_places(rows, m)[i] == k;
                assert(kept_places(rows, n)[i] == k);
            }
        }
    }
}

/// Two rows that are kept do not share an id.
proof fn lemma_kept_ids_differ(rows: Seq<ItemView>, j: int, k: int)
    requires
        0 <= j < rows.len(),
        0 <= k < rows.len(),
        kept(rows, j),
        kept(rows, k),
        rows[j].id == rows[k].id,
    ensures
        j == k,
{
    assert(!beats(rows, j, k) && !beats(rows, k, j));
    text::lemma_lex_trichotomy(rows[j].subtitle, rows[k].subtitle);
}

/// The index lists no id twice, and its rows stand in strict order of title
/// and id.
pub proof fn law_index_is_strictly_ordered(rows: Seq<ItemView>, i: int, j: int)
    requires
        0 <= i < j < index_of(rows).len(),
    ensures
        index_of(rows)[i].id != index_of(rows)[j].id,
        Item::ahead(index_of(rows)[i], index_of(rows)[j]),
{
    let held = kept_rows(rows);
    let p = sorted_positions::<Item>(held);
    lemma_kept_places(rows, rows.len());
    order::lemma_sorted_positions::<Item>(held);
    order::lemma_order_complete::<Item>(held, p);
    let places = kept_places(rows, rows.len());
    let (a, b) = (places[p[i]], places[p[j]]);
    assert(p[i] != p[j]);
    if index_of(rows)[i].id == index_of(rows)[j].id {
        lemma_kept_ids_differ(rows, a, b);
        assert(a == b);
    }
    assert(order::position_ahead::<Item>(held, p[i], p[j]));
    text::lemma_lex_trichotomy(held[p[i]].title, held[p[j]].title);
    text::lemma_lex_trichotomy(held[p[i]].id, held[p[j]].id);
}

/// What the index holds: the rows that are kept.
proof fn lemma_index_holds_kept(rows: Seq<ItemView>, x: ItemView)
    ensures
        index_of(rows).contains(x) <==> exists|k: int|
            0 <= k < rows.len() && #[trigger] kept(rows, k) && rows[k] == x,
{
    let held = kept_rows(rows);
    let places = kept_places(rows, rows.len());
    let p = sorted_positions::<Item>(held);
    lemma_kept_places(rows, rows.len());
    order::lemma_sorted_positions::<Item>(held);
    order::lemma_order_complete::<Item>(held, p);
    if index_of(rows).contains(x) {
        let i = choose|i: int| 0 <= i < index_of(rows).len() && index_of(rows)[i] == x;
        let k = places[p[i]];
        assert(kept(rows, k) && rows[k] == x);
    }
    if exists|k: int| 0 <= k < rows.len() && #[trigger] kept(rows, k) && rows[k] == x {
        let k = choose|k: int| 0 <= k < rows.len() && #[trigger] kept(rows, k) && rows[k] == x;
        assert(places.contains(k));
        let m = choose|m: int| 0 <= m < places.len() && places[m] == k;
        assert(p.contains(m));
        let i = choose|i: int| 0 <= i < p.len() && p[i] == m;
        assert(index_of(rows)[i] == x);
    }
}

/// A row that is kept of one list is kept of any other list of the same rows,
/// where each path has one row.
proof fn lemma_kept_elsewhere(a: Seq<ItemView>, b: Seq<ItemView>, k: int)
    requires
        a.to_set() == b.to_set(),
        forall|i: int, j: int|
            0 <= i < a.len() && 0 <= j < a.len() && a[i].subtitle == a[j].subtitle ==> a[i]
                == a[j],
        0 <= k < a.len(),
        kept(a, k),
    ensures
        exists|m: int| 0 <= m < b.len() && #[trigger] kept(b, m) && b[m] == a[k],
{
    assert(a.to_set().contains(a[k]));
    assert(b.contains(a[k]));
    let m = b.index_of_first(a[k])->0;
    b.index_of_first_ensures(a[k]);
    assert forall|j: int| 0 <= j < b.len() implies !#[trigger] beats(b, j, m) by {
        assert(b.to_set().contains(b[j]));
        assert(a.contains(b[j]));
        let i = choose|i: int| 0 <= i < a.len() && a[i] == b[j];
        assert(!beats(a, i, k));
        if b[j].subtitle == b[m].subtitle {
            assert(a[i] == a[k]);
        }
    }
    assert(kept(b, m));
}

/// The index depends on which rows were found, and not on the order in which
/// they were, where each path has one row.
pub proof fn law_index_does_not_depend_on_order(a: Seq<ItemView>, b: Seq<ItemView>)
    requires
        a.to_set() == b.to_set(),
        forall|i: int, j: int|
            0 <= i < a.len() && 0 <= j < a.len() && a[i].subtitle == a[j].subtitle ==> a[i]
                == a[j],
    ensures
        index_of(a) == index_of(b),
{
    let (s, t) = (index_of(a), index_of(b));
    assert forall|i: int, j: int| 0 <= i < j < s.len() implies #[trigger] Item::ahead(
        s[i],
        s[j],
    ) by {
        law_index_is_strictly_ordered(a, i, j);
    }
    assert forall|i: int, j: int| 0 <= i < j < t.len() implies #[trigger] Item::ahead(
        t[i],
        t[j],
    ) by {
        law_index_is_strictly_ordered(b, i, j);
    }
    assert forall|i: int, j: int|
        0 <= i < b.len() && 0 <= j < b.len() && b[i].subtitle == b[j].subtitle implies b[i]
        == b[j] by {
        assert(b.to_set().contains(b[i]) && b.to_set().contains(b[j]));
        assert(a.contains(b[i]) && a.contains(b[j]));
    }
    assert forall|x: ItemView| #[trigger] s.contains(x) <==> t.contains(x) by {
        lemma_index_holds_kept(a, x);
        lemma_index_holds_kept(b, x);
        if s.contains(x) {
            let k = choose|k: int| 0 <= k < a.len() && #[trigger] kept(a, k) && a[k] == x;
            lemma_kept_elsewhere(a, b, k);
        }
        if t.contains(x) {
            let k = choose|k: int| 0 <= k < b.len() && #[trigger] kept(b, k) && b[k] == x;
            lemma_kept_elsewhere(b, a, k);
        }
    }
    order::lemma_strict_order_unique::<Item>(s, t);
}

/// The four directories of the system come first, and of these only the first is
/// searched one level down; the user's own comes last, where a home is known.
pub proof fn law_the_search_begins_at_the_roots(home: Seq<char>)
    ensures
        root_dirs(None) == seq![
            ("/Applications"@, true),
            ("/Applications/Utilities"@, false),
            ("/System/Applications"@, false),
            ("/System/Applications/Utilities"@, false),
        ],
        root_dirs(Some(home)) == root_dirs(None).push(
            (paths::joined_path(home, "Applications"@), false),
        ),
{
}

/// A copy under the applications directory ranks before any other, and one that
/// belongs to the system after all others.
pub proof fn law_usual_places_rank_first(path: Seq<char>, other: Seq<char>)
    ensures
        "/Applications/"@.is_prefix_of(path) && !"/Applications/"@.is_prefix_of(other) ==> rank_of(
            path,
        ) < rank_of(other),
        "/System/"@.is_prefix_of(other) && !"/System/"@.is_prefix_of(path) ==> rank_of(path)
            < rank_of(other),
        !"/Applications/"@.is_prefix_of(path) && !"/Applications/"@.is_prefix_of(other)
            && !"/System/"@.is_prefix_of(path) && !"/System/"@.is_prefix_of(other) ==> rank_of(path)
            == rank_of(other),
        "/Applications/"@.is_prefix_of(path) && "/Applications/"@.is_prefix_of(other) ==> rank_of(
            path,
        ) == rank_of(other),
        "/System/"@.is_prefix_of(path) && "/System/"@.is_prefix_of(other) ==> rank_of(path)
            == rank_of(other),
{
    reveal_strlit("/Applications/");
    reveal_strlit("/System/");
    let (a, s) = ("/Applications/"@, "/System/"@);
    if a.is_prefix_of(path) && s.is_prefix_of(path) {
        assert(path.subrange(0, a.len() as int)[1] == path.subrange(0, s.len() as int)[1]);
    }
    if a.is_prefix_of(other) && s.is_prefix_of(other) {
        assert(other.subrange(0, a.len() as int)[1] == other.subrange(0, s.len() as int)[1]);
    }
}

/// The bundles among entries are met in the entries' order: one for each
/// directory whose name ends as a bundle's does and does not begin with a dot.
/// Other directories are searched one level down where the search goes there,
/// and nowhere else.
pub proof fn law_bundles_are_met_in_order(a: Seq<AppNode>, b: Seq<AppNode>, e: AppNode, descend: bool)
    ensures
        bundles(a + b, descend) == bundles(a, descend) + bundles(b, descend),
        ({
            let visible = e.is_dir == Some(true) && (e.name@.len() == 0 || e.name@[0] != '.');
            let bundle = ".app"@.is_suffix_of(e.name@);
            &&& visible && bundle ==> bundles(seq![e], descend) == seq![e.path@]
            &&& visible && !bundle ==> bundles(seq![e], true) == bundles(e.children@, false)
                && bundles(seq![e], false).len() == 0
            &&& !visible ==> bundles(seq![e], descend).len() == 0
        }),
    decreases b.len(),
{
    reveal_with_fuel(bundles, 2);
    reveal_strlit(".");
    let n = e.name@;
    if n.len() > 0 {
        assert(n.subrange(0, 1)[0] == n[0]);
        if n[0] == '.' {
            assert(n.subrange(0, 1) =~= "."@);
        }
    }
    assert("."@.is_prefix_of(n) <==> n.len() > 0 && n[0] == '.');
    assert(seq![e].drop_last() =~= Seq::<AppNode>::empty());
    assert(bundles(Seq::<AppNode>::empty(), descend) =~= Seq::<Seq<char>>::empty());
    assert(bundles(Seq::<AppNode>::empty(), true) =~= Seq::<Seq<char>>::empty());
    assert(Seq::<Seq<char>>::empty().push(e.path@) =~= seq![e.path@]);
    assert(Seq::<Seq<char>>::empty() + bundles(e.children@, false) =~= bundles(e.children@, false));
    if b.len() == 0 {
        assert(a + b =~= a);
    } else {
        assert((a + b).drop_last() =~= a + b.drop_last());
        law_bundles_are_met_in_order(a, b.drop_last(), e, descend);
        assert(bundles(a + b, descend) =~= bundles(a, descend) + bundles(b, descend));
    }
}

/// The suffix of a bundle's name and white space around it are not shown, and a
/// blank name is no name.
pub proof fn law_names_are_shown_bare(name: Seq<char>)
    ensures
        !".app"@.is_suffix_of(name) && text::trimmed(name).len() > 0 ==> shown_name(name) == Some(
            text::trimmed(name),
        ),
        text::trimmed(name).len() > 0 ==> shown_name(name + ".app"@) == Some(text::trimmed(name)),
        text::trimmed(name).len() == 0 ==> shown_name(name + ".app"@) is None,
        !".app"@.is_suffix_of(name) && text::trimmed(name).len() == 0 ==> shown_name(name) is None,
{
    let whole = name + ".app"@;
    assert(whole.subrange(name.len() as int, whole.len() as int) =~= ".app"@);
    assert(whole.take(whole.len() - ".app"@.len()) =~= name);
}

/// A bundle's row is called by the id that it declares, or else by its path; its
/// title is the name shown, or else its file name without the extension; and
/// its subtitle is its path.
pub proof fn law_rows_show_their_bundle(b: BundleView, last: Option<Seq<char>>)
    ensures
        ({
            let row = app_row(b, last);
            &&& row.subtitle == b.path && row.kind == ItemKind::App
            &&& b.id is Some && (b.id->0).len() > 0 ==> row.id == b.id->0
            &&& b.id is None || (b.id->0).len() == 0 ==> row.id == b.path
            &&& shown_name(b.display) matches Some(n) ==> row.title == n
            &&& shown_name(b.display) is None && last is Some ==> row.title == scriptcmd::stem(
                last->0,
            )
            &&& shown_name(b.display) is None && last is None ==> row.title == b.path
        }),
{
}

/// What beats a row that beats a third beats the third.
proof fn lemma_beats_on(rows: Seq<ItemView>, i: int, j: int, k: int)
    requires
        beats(rows, i, j),
        beats(rows, j, k),
    ensures
        beats(rows, i, k),
{
    let (p, q, r) = (rows[i].subtitle, rows[j].subtitle, rows[k].subtitle);
    text::lemma_lex_trichotomy(p, q);
    text::lemma_lex_trichotomy(q, r);
    text::lemma_lex_trichotomy(p, r);
    if text::lex_before(p, q) && text::lex_before(q, r) {
        text::lemma_lex_transitive(p, q, r);
    }
}

/// Of the first rows with an id one is beaten by none of them.
proof fn lemma_one_is_kept(rows: Seq<ItemView>, n: int, k: int) -> (best: int)
    requires
        0 <= k < n <= rows.len(),
    ensures
        0 <= best < n,
        rows[best].id == rows[k].id,
        forall|j: int| 0 <= j < n ==> !#[trigger] beats(rows, j, best),
    decreases n,
{
    if n == 1 {
        0
    } else {
        let last = n - 1;
        if k == last && (forall|j: int| 0 <= j < last ==> rows[j].id != rows[k].id) {
            k
        } else {
            let other = if k < last {
                k
            } else {
                choose|j: int| 0 <= j < last && rows[j].id == rows[k].id
            };
            let best = lemma_one_is_kept(rows, last, other);
            if beats(rows, last, best) {
                assert forall|j: int| 0 <= j < n implies !#[trigger] beats(rows, j, last) by {
                    if j < last && beats(rows, j, last) {
                        lemma_beats_on(rows, j, last, best);
                    }
                }
                last
            } else {
                best
            }
        }
    }
}

/// Every app that was found is in the index under its id, and what the index
/// holds was found.
pub proof fn law_every_app_is_indexed(rows: Seq<ItemView>, k: int, i: int)
    ensures
        0 <= k < rows.len() ==> exists|m: int|
            0 <= m < index_of(rows).len() && (#[trigger] index_of(rows)[m]).id == rows[k].id,
        0 <= i < index_of(rows).len() ==> rows.contains(index_of(rows)[i]),
{
    if 0 <= k < rows.len() {
        let best = lemma_one_is_kept(rows, rows.len() as int, k);
        assert(kept(rows, best));
        let x = rows[best];
        lemma_index_holds_kept(rows, x);
        assert(index_of(rows).contains(x));
        let m = choose|m: int| 0 <= m < index_of(rows).len() && index_of(rows)[m] == x;
        assert(index_of(rows)[m].id == rows[k].id);
    }
    if 0 <= i < index_of(rows).len() {
        let x = index_of(rows)[i];
        assert(index_of(rows).contains(x));
        lemma_index_holds_kept(rows, x);
    }
}

/// Of several copies under one id the index holds the one in the best place: no
/// copy is under the applications directory where it is not, it is the system's
/// only where all are, and of copies that rank alike its path comes first.
pub proof fn law_the_best_copy_is_indexed(rows: Seq<ItemView>, i: int, k: int)
    requires
        0 <= i < index_of(rows).len(),
        0 <= k < rows.len(),
        index_of(rows)[i].id == rows[k].id,
    ensures
        ({
            let (p, q) = (index_of(rows)[i].subtitle, rows[k].subtitle);
            &&& "/Applications/"@.is_prefix_of(q) ==> "/Applications/"@.is_prefix_of(p)
            &&& "/System/"@.is_prefix_of(p) ==> "/System/"@.is_prefix_of(q)
            &&& rank_of(p) == rank_of(q) ==> !text::lex_before(q, p)
        }),
{
    let x = index_of(rows)[i];
    assert(index_of(rows).contains(x));
    lemma_index_holds_kept(rows, x);
    let m = choose|m: int| 0 <= m < rows.len() && #[trigger] kept(rows, m) && rows[m] == x;
    assert(!beats(rows, k, m));
    law_usual_places_rank_first(rows[k].subtitle, x.subtitle);
    law_usual_places_rank_first(x.subtitle, rows[k].subtitle);
    text::lemma_lex_trichotomy(rows[k].subtitle, x.subtitle);
}

/// The index stands in the order of the dictionary by title, and by id where
/// titles are equal.
pub proof fn law_the_index_is_sorted_by_title(rows: Seq<ItemView>, i: int, j: int)
    requires
        0 <= i < j < index_of(rows).len(),
    ensures
        ({
            let (a, b) = (index_of(rows)[i], index_of(rows)[j]);
            &&& !text::lex_before(b.title, a.title)
            &&& a.title == b.title ==> text::lex_before(a.id, b.id)
        }),
{
    law_index_is_strictly_ordered(rows, i, j);
    text::lemma_lex_trichotomy(index_of(rows)[i].title, index_of(rows)[j].title);
}

} // verus!
