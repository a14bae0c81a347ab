//! The window switcher: every on-screen window of every app, searchable, one
//! Return away.
//!
//! Three rules decide which windows are listed. The launcher's own windows
//! are not; windows without an owner name are not; and untitled windows are
//! not where their app also has titled ones. An app that has untitled windows
//! only keeps them all, under the app's name.

use crate::order::{self, ints, sorted_positions, views, Ranked};
use crate::router::{Item, ItemKind, ItemView};
use crate::text;
use vstd::prelude::*;

verus! {

/// How many rows a query without words lists at most.
pub const MAX_EMPTY_QUERY_ITEMS: usize = 9;

/// Bring all windows of an app forward.
pub const NS_ACTIVATE_ALL_WINDOWS: usize = 1;

/// Take focus though the launcher is not frontmost.
pub const NS_ACTIVATE_IGNORING_OTHER_APPS: usize = 2;

/// One window. The title is empty where none is known.
#[derive(Clone, Debug, PartialEq, Eq)]
pub struct WinInfo {
    pub pid: i32,
    pub number: u32,
    pub owner: String,
    pub title: String,
}

/// What a [`WinInfo`] holds.
#[verifier::ext_equal]
pub struct WinView {
    pub pid: i32,
    pub number: u32,
    pub owner: Seq<char>,
    pub title: Seq<char>,
}

impl View for WinInfo {
    type V = WinView;

    open spec fn view(&self) -> WinView {
        WinView { pid: self.pid, number: self.number, owner: self.owner@, title: self.title@ }
    }
}

impl WinInfo {
    /// A copy of the window's data.
    pub fn copied(&self) -> (r: WinInfo)
        ensures
            r == *self,
    {
        WinInfo {
            pid: self.pid,
            number: self.number,
            owner: self.owner.clone(),
            title: self.title.clone(),
        }
    }
}

/// A window as the window list describes it, each value none where it is
/// missing or of another type.
pub struct RawWindow {
    pub layer: Option<i64>,
    pub pid: Option<i64>,
    pub number: Option<i64>,
    pub owner: Option<String>,
    pub title: Option<String>,
}

/// The window that a description stands for: only those on layer 0 with an
/// owner and a number count.
pub fn window_of(raw: RawWindow) -> (r: Option<WinInfo>)
    ensures
        match r {
            Some(w) => {
                &&& raw.layer == Some(0i64) && raw.pid is Some && raw.number is Some
                &&& w.pid == raw.pid->0 as i32
                &&& w.number == raw.number->0 as u32
                &&& w.owner@ == (match raw.owner {
                    Some(s) => s@,
                    None => Seq::empty(),
                })
                &&& w.title@ == (match raw.title {
                    Some(s) => s@,
                    None => Seq::empty(),
                })
            },
            None => raw.layer != Some(0i64) || raw.pid is None || raw.number is None,
        },
{
    match raw.layer {
        Some(0) => {},
        _ => {
            return None;
        },
    }
    match (raw.pid, raw.number) {
        (Some(pid), Some(number)) => Some(
            WinInfo {
                pid: #[verifier::truncate] (pid as i32),
                number: #[verifier::truncate] (number as u32),
                owner: match raw.owner {
                    Some(s) => s,
                    None => String::new(),
                },
                title: match raw.title {
                    Some(s) => s,
                    None => String::new(),
                },
            },
        ),
        _ => None,
    }
}

/// Whether an app has a titled window.
pub open spec fn has_titled(wins: Seq<WinView>, pid: i32) -> bool {
    exists|i: int| 0 <= i < wins.len() && (#[trigger] wins[i]).pid == pid && wins[i].title.len() > 0
}

/// Whether a window of the list is listed.
pub open spec fn is_kept(wins: Seq<WinView>, own_pid: i32, w: WinView) -> bool {
    w.pid != own_pid && w.owner.len() > 0 && (w.title.len() > 0 || !has_titled(wins, w.pid))
}

/// The windows that are listed, in the list's order.
pub open spec fn kept(wins: Seq<WinView>, own_pid: i32) -> Seq<WinView> {
    wins.filter(|w: WinView| is_kept(wins, own_pid, w))
}

/// Whether an app has a titled window.
fn titled(wins: &Vec<WinInfo>, pid: i32) -> (r: bool)
    ensures
        r == has_titled(views(wins@), pid),
{
    let ghost vs = views(wins@);
    let mut i: usize = 0;
    while i < wins.len()
        invariant
            i <= wins@.len(),
            vs == views(wins@),
            forall|k: int|
                0 <= k < i ==> !((#[trigger] vs[k]).pid == pid && vs[k].title.len() > 0),
        decreases wins@.len() - i,
    {
        assert(vs[i as int] == wins@[i as int]@);
        if wins[i].pid == pid && !wins[i].title.as_str().is_empty() {
            return true;
        }
        i = i + 1;
    }
    false
}

/// The windows that are listed, in the list's order.
pub fn sanitize(wins: &Vec<WinInfo>, own_pid: i32) -> (r: Vec<WinInfo>)
    ensures
        views(r@) == kept(views(wins@), own_pid),
{
    let ghost vs = views(wins@);
    let ghost pred = |w: WinView| is_kept(vs, own_pid, w);
    let mut out: Vec<WinInfo> = Vec::new();
    let mut i: usize = 0;
    proof {
        reveal(Seq::filter);
        assert(views(out@) =~= vs.take(0).filter(pred));
    }
    while i < wins.len()
        invariant
            i <= wins@.len(),
            vs == views(wins@),
            pred == (|w: WinView| is_kept(vs, own_pid, w)),
            views(out@) == vs.take(i as int).filter(pred),
        decreases wins@.len() - i,
    {
        let w = &wins[i];
        let ghost before = views(out@);
        proof {
            assert(vs.take(i + 1).drop_last() =~= vs.take(i as int));
            assert(vs.take(i + 1).last() == w@);
            reveal(Seq::filter);
        }
        if w.pid != own_pid && !w.owner.as_str().is_empty() && (!w.title.as_str().is_empty()
            || !titled(wins, w.pid)) {
            out.push(w.copied());
            assert(views(out@) =~= before.push(w@));
        }
        i = i + 1;
    }
    assert(vs.take(i as int) =~= vs);
    out
}

/// Where no window has a title, every window of another app with an owner name
/// is listed.
pub proof fn law_untitled_worlds_lose_no_app(wins: Seq<WinView>, own_pid: i32, i: int)
    requires
        0 <= i < wins.len(),
        forall|k: int| 0 <= k < wins.len() ==> (#[trigger] wins[k]).title.len() == 0,
        wins[i].pid != own_pid,
        wins[i].owner.len() > 0,
    ensures
        kept(wins, own_pid).contains(wins[i]),
{
    wins.lemma_filter_contains(|w: WinView| is_kept(wins, own_pid, w), i);
}

/// What a window is ordered by.
pub struct Seat {
    /// Whether its app is not the frontmost one.
    pub behind: bool,
    pub owner: String,
    pub pid: i32,
    pub number: u32,
}

/// What a [`Seat`] holds.
#[verifier::ext_equal]
pub struct SeatView {
    pub behind: bool,
    pub owner: Seq<char>,
    pub pid: i32,
    pub number: u32,
}

impl View for Seat {
    type V = SeatView;

    open spec fn view(&self) -> SeatView {
        SeatView {
            behind: self.behind,
            owner: self.owner@,
            pid: self.pid,
            number: self.number,
        }
    }
}

impl Ranked for Seat {
    open spec fn ahead(a: SeatView, b: SeatView) -> bool {
        if a.behind != b.behind {
            !a.behind
        } else if a.owner != b.owner {
            text::lex_before(a.owner, b.owner)
        } else if a.pid != b.pid {
            a.pid < b.pid
        } else {
            a.number < b.number
        }
    }

    proof fn lemma_asymmetric(a: SeatView, b: SeatView) {
        text::lemma_lex_trichotomy(a.owner, b.owner);
    }

    proof fn lemma_separates(a: SeatView, b: SeatView, c: SeatView) {
        text::lemma_lex_separates(a.owner, b.owner, c.owner);
        text::lemma_lex_trichotomy(a.owner, b.owner);
        text::lemma_lex_trichotomy(b.owner, c.owner);
        text::lemma_lex_trichotomy(a.owner, c.owner);
    }

    fn is_ahead(&self, other: &Seat) -> bool {
        if self.behind != other.behind {
            !self.behind
        } else if !text::same(&self.owner, &other.owner) {
            text::before(&self.owner, &other.owner)
        } else if self.pid != other.pid {
            self.pid < other.pid
        } else {
            self.number < other.number
        }
    }
}

/// What a window is ordered by: the frontmost app's windows come first, then
/// owner, app and window number decide.
pub open spec fn seat_of(w: WinView, frontmost: Option<i32>) -> SeatView {
    SeatView { behind: frontmost != Some(w.pid), owner: w.owner, pid: w.pid, number: w.number }
}

/// Windows in listing order.
pub open spec fn in_order(wins: Seq<WinView>, frontmost: Option<i32>) -> Seq<WinView> {
    sorted_positions::<Seat>(wins.map_values(|w: WinView| seat_of(w, frontmost))).map_values(
        |i: int| wins[i],
    )
}

/// The id of a window's row.
pub open spec fn window_id(pid: i32, number: u32) -> Seq<char> {
    "winsw."@ + text::signed_decimal(pid as int) + "."@ + text::decimal(number as nat)
}

/// The row of a window: its title, or its app's name where it has none.
pub open spec fn window_row(w: WinView) -> ItemView {
    ItemView {
        id: window_id(w.pid, w.number),
        title: if w.title.len() == 0 {
            w.owner
        } else {
            w.title
        },
        subtitle: w.owner,
        kind: ItemKind::Window,
    }
}

/// The row of a window.
fn row(w: &WinInfo) -> (r: Item)
    ensures
        r@ == window_row(w@),
{
    let head = text::join3("winsw.", &text::signed_decimal_of(w.pid as i64), ".");
    Item {
        id: text::join(&head, &text::decimal_of(w.number as u64)),
        title: if w.title.as_str().is_empty() {
            text::copy(&w.owner)
        } else {
            text::copy(&w.title)
        },
        subtitle: text::copy(&w.owner),
        kind: ItemKind::Window,
    }
}

/// Whether a row matches: its title or its app's name, both in lower case,
/// holds the query, in lower case too.
pub fn matches_lowered(title: &str, app: &str, query: &str) -> (r: bool)
    ensures
        r == (text::occurs(title@, query@) || text::occurs(app@, query@)),
{
    text::contains(title, query) || text::contains(app, query)
}

/// Whether a row matches a query, whatever the case of either.
pub open spec fn row_matches(row: ItemView, q: Seq<char>) -> bool {
    text::occurs(text::lowercase(row.title), q) || text::occurs(text::lowercase(row.subtitle), q)
}

/// The rows that a query lists, given all of them in order.
pub open spec fn answered(rows: Seq<ItemView>, query: Seq<char>) -> Seq<ItemView> {
    let q = text::lowercase(text::trimmed(query));
    if q.len() == 0 {
        if rows.len() <= MAX_EMPTY_QUERY_ITEMS {
            rows
        } else {
            rows.take(MAX_EMPTY_QUERY_ITEMS as int)
        }
    } else {
        rows.filter(|r: ItemView| row_matches(r, q))
    }
}

/// The rows of all windows that are listed, in order.
pub open spec fn all_rows(wins: Seq<WinView>, own_pid: i32, frontmost: Option<i32>) -> Seq<
    ItemView,
> {
    in_order(kept(wins, own_pid), frontmost).map_values(|w: WinView| window_row(w))
}

/// The rows of all windows that are listed, in order: the frontmost app's
/// first, then by app name, app and window number.
pub fn rows_in_order(wins: &Vec<WinInfo>, own_pid: i32, frontmost: Option<i32>) -> (r: Vec<Item>)
    ensures
        views(r@) == all_rows(views(wins@), own_pid, frontmost),
{
    let kept_wins = sanitize(wins, own_pid);
    let ghost ks = views(kept_wins@);
    let mut seats: Vec<Seat> = Vec::new();
    let mut i: usize = 0;
    while i < kept_wins.len()
        invariant
            i <= kept_wins@.len(),
            ks == views(kept_wins@),
            seats@.len() == i,
            forall|k: int| 0 <= k < i ==> #[trigger] seats@[k]@ == seat_of(ks[k], frontmost),
        decreases kept_wins@.len() - i,
    {
        let w = &kept_wins[i];
        let behind = match frontmost {
            Some(p) => p != w.pid,
            None => true,
        };
        seats.push(
            Seat { behind, owner: text::copy(&w.owner), pid: w.pid, number: w.number },
        );
        assert(seats@[i as int]@ == seat_of(ks[i as int], frontmost));
        i = i + 1;
    }
    proof {
        let want = ks.map_values(|w: WinView| seat_of(w, frontmost));
        assert(views(seats@) =~= want) by {
            assert forall|k: int| 0 <= k < want.len() implies views(seats@)[k] == want[k] by {
                assert(seats@[k]@ == seat_of(ks[k], frontmost));
            }
        }
    }
    let p = order::sort(&seats);
    let mut out: Vec<Item> = Vec::new();
    let mut k: usize = 0;
    while k < p.len()
        invariant
            k <= p@.len(),
            out@.len() == k,
            ks == views(kept_wins@),
            seats@.len() == kept_wins@.len(),
            forall|j: int| 0 <= j < p@.len() ==> #[trigger] p@[j] < seats@.len(),
            forall|j: int| 0 <= j < k ==> #[trigger] out@[j]@ == window_row(ks[p@[j] as int]),
        decreases p@.len() - k,
    {
        let at: usize = p[k];
        out.push(row(&kept_wins[at]));
        assert(ks[at as int] == kept_wins@[at as int]@);
        k = k + 1;
    }
    proof {
        let want = all_rows(views(wins@), own_pid, frontmost);
        assert(views(out@) =~= want) by {
            assert forall|j: int| 0 <= j < out@.len() implies views(out@)[j] == want[j] by {
                assert(out@[j]@ == window_row(ks[p@[j] as int]));
                assert(ints(p@)[j] == p@[j]);
            }
        }
    }
    out
}

/// The rows for a query. Without words it lists the first windows in order;
/// otherwise every window whose title or app name holds it, in any case.
pub fn build_items(wins: &Vec<WinInfo>, own_pid: i32, frontmost: Option<i32>, query: &str) -> (r:
    Vec<Item>)
    ensures
        views(r@) == answered(all_rows(views(wins@), own_pid, frontmost), query@),
{
    let all = rows_in_order(wins, own_pid, frontmost);
    let q = text::to_lowercase(&text::trim(query));
    let ghost rows = views(all@);
    let mut out: Vec<Item> = Vec::new();
    let mut i: usize = 0;
    if q.as_str().is_empty() {
        while i < all.len() && i < MAX_EMPTY_QUERY_ITEMS
            invariant
                i <= all@.len(),
                i <= MAX_EMPTY_QUERY_ITEMS,
                out@ == all@.take(i as int),
            decreases all@.len() - i,
        {
            out.push(all[i].copied());
            i = i + 1;
            assert(all@.take(i as int) =~= all@.take(i - 1).push(all@[i - 1]));
        }
        assert(views(out@) =~= answered(rows, query@));
        return out;
    }
    let ghost pred = |r: ItemView| row_matches(r, q@);
    proof {
        reveal(Seq::filter);
        assert(views(out@) =~= rows.take(0).filter(pred));
    }
    while i < all.len()
        invariant
            i <= all@.len(),
            rows == views(all@),
            pred == (|r: ItemView| row_matches(r, q@)),
            views(out@) == rows.take(i as int).filter(pred),
        decreases all@.len() - i,
    {
        let it = &all[i];
        let ghost before = views(out@);
        proof {
            assert(rows.take(i + 1).drop_last() =~= rows.take(i as int));
            assert(rows.take(i + 1).last() == it@);
            reveal(Seq::filter);
        }
        if matches_lowered(&text::to_lowercase(&it.title), &text::to_lowercase(&it.subtitle), &q) {
            out.push(it.copied());
            assert(views(out@) =~= before.push(it@));
        }
        i = i + 1;
    }
    assert(rows.take(i as int) =~= rows);
    out
}

/// What an id names: the app and the window number.
pub open spec fn id_parts(id: Seq<char>) -> Option<(i32, u32)> {
    if !"winsw."@.is_prefix_of(id) {
        None
    } else {
        match text::split_first(id.skip("winsw."@.len() as int), '.') {
            None => None,
            Some((p, n)) => match (text::signed_value(p), text::unsigned_value(n)) {
                (Some(pid), Some(number)) => if i32::MIN <= pid <= i32::MAX && number
                    <= u32::MAX {
                    Some((pid as i32, number as u32))
                } else {
                    None
                },
                _ => None,
            },
        }
    }
}

/// Splits a row's id into the app and the window number.
pub fn parse_id(id: &str) -> (r: Result<(i32, u32), String>)
    ensures
        match r {
            Ok(p) => id_parts(id@) == Some(p),
            Err(e) => id_parts(id@) is None && e@ == "not a window switcher id: "@ + id@,
        },
{
    if let Some(rest) = text::strip_prefix(id, "winsw.") {
        if let Some((p, n)) = text::split_once(&rest, '.') {
            if let Some(pid) = text::parse_i32(&p) {
                if let Some(number) = text::parse_u32(&n) {
                    return Ok((pid, number));
                }
            }
        }
    }
    Err(text::join("not a window switcher id: ", id))
}

/// The id of a row leads back to the window that it was made for.
pub proof fn law_row_ids_lead_back(pid: i32, number: u32)
    ensures
        id_parts(window_id(pid, number)) == Some((pid, number)),
{
    let id = window_id(pid, number);
    let p = text::signed_decimal(pid as int);
    let n = text::decimal(number as nat);
    reveal_strlit(".");
    assert("winsw."@ =~= id.subrange(0, "winsw."@.len() as int));
    let rest = id.skip("winsw."@.len() as int);
    assert(rest =~= p.push('.') + n);
    text::lemma_decimal_without(pid as int, '.');
    text::lemma_split_first(p, '.', n);
    text::lemma_signed_round_trip(pid as int);
    text::lemma_unsigned_round_trip(number as nat);
}

/// How a window is to be focused.
#[derive(Debug, Clone, Copy, PartialEq, Eq, Structural)]
pub enum Focus {
    /// Activate the app with all its windows: single windows need the
    /// Accessibility permission.
    App { pid: i32 },
    /// Focus this one window.
    Window { pid: i32, number: u32 },
}

/// How to focus the window of a row, or why it cannot be.
pub fn activate(id: &str, trusted: bool) -> (r: Result<Focus, String>)
    ensures
        match id_parts(id@) {
            None => r matches Err(e) && e@ == "not a window switcher id: "@ + id@,
            Some((pid, number)) => r == Ok::<Focus, String>(
                if trusted {
                    Focus::Window { pid, number }
                } else {
                    Focus::App { pid }
                },
            ),
        },
{
    match parse_id(id) {
        Ok((pid, number)) => Ok(
            if trusted {
                Focus::Window { pid, number }
            } else {
                Focus::App { pid }
            },
        ),
        Err(e) => Err(e),
    }
}

/// How focusing went without the Accessibility permission.
pub fn app_level_outcome(outcome: Result<(), String>) -> (r: Result<(), String>)
    ensures
        match outcome {
            Ok(_) => r is Ok,
            Err(e) => r matches Err(m) && m@
                == "cannot focus the specific window: macOS has not granted beckon the Accessibility permission, and the app-level fallback also failed: "@
                + e@,
        },
{
    match outcome {
        Ok(_) => Ok(()),
        Err(e) => Err(
            text::join(
                "cannot focus the specific window: macOS has not granted beckon the Accessibility permission, and the app-level fallback also failed: ",
                &e,
            ),
        ),
    }
}

/// Whether the listed window is the wanted one.
pub open spec fn is_window(w: WinInfo, pid: i32, number: u32) -> bool {
    w.pid == pid && w.number == number
}

/// The current title of a window, none where it is no longer listed.
pub fn current_title(wins: &Vec<WinInfo>, pid: i32, number: u32) -> (r: Option<String>)
    ensures
        match r {
            Some(t) => exists|i: int|
                {
                    &&& 0 <= i < wins@.len()
                    &&& is_window(#[trigger] wins@[i], pid, number)
                    &&& t@ == wins@[i].title@
                    &&& forall|j: int| 0 <= j < i ==> !is_window(#[trigger] wins@[j], pid, number)
                },
            None => forall|j: int|
                0 <= j < wins@.len() ==> !is_window(#[trigger] wins@[j], pid, number),
        },
{
    let mut i: usize = 0;
    while i < wins.len()
        invariant
            i <= wins@.len(),
            forall|j: int| 0 <= j < i ==> !is_window(#[trigger] wins@[j], pid, number),
        decreases wins@.len() - i,
    {
        if wins[i].pid == pid && wins[i].number == number {
            assert(is_window(wins@[i as int], pid, number));
            return Some(text::copy(&wins[i].title));
        }
        i = i + 1;
    }
    None
}

/// What is known of an app's window while the wanted one is looked for.
#[derive(Debug, PartialEq, Eq)]
pub enum Candidate {
    /// No window at all.
    Absent,
    /// Its window number, where the system tells numbers; none where it does
    /// not read.
    Number(Option<u32>),
    /// Its title, where the system tells no numbers.
    Title(Option<String>),
}

/// Whether a candidate is the wanted window: by number where numbers are
/// told, and else by a title that is not empty.
pub open spec fn is_wanted(c: Candidate, number: u32, title: Option<Seq<char>>) -> bool {
    match c {
        Candidate::Absent => false,
        Candidate::Number(n) => n == Some(number),
        Candidate::Title(t) => match title {
            Some(want) => want.len() > 0 && want == (match t {
                Some(s) => s@,
                None => Seq::empty(),
            }),
            None => false,
        },
    }
}

/// Whether a candidate is the wanted window.
pub fn wanted(c: &Candidate, number: u32, title: &Option<String>) -> (r: bool)
    ensures
        r == is_wanted(*c, number, text::opt_view(*title)),
{
    match c {
        Candidate::Absent => false,
        Candidate::Number(n) => match n {
            Some(n) => *n == number,
            None => false,
        },
        Candidate::Title(t) => match title {
            Some(want) => if want.as_str().is_empty() {
                false
            } else {
                match t {
                    Some(s) => text::same(want, s),
                    None => false,
                }
            },
            None => false,
        },
    }
}

/// Which of an app's windows to focus: the first that is the wanted one.
pub fn focus_ax_window(windows: &Vec<Candidate>, number: u32, title: &Option<String>) -> (r: Option<
    usize,
>)
    ensures
        match r {
            Some(i) => {
                &&& i < windows@.len()
                &&& is_wanted(windows@[i as int], number, text::opt_view(*title))
                &&& forall|j: int|
                    0 <= j < i ==> !is_wanted(
                        #[trigger] windows@[j],
                        number,
                        text::opt_view(*title),
                    )
            },
            None => forall|j: int|
                0 <= j < windows@.len() ==> !is_wanted(
                    #[trigger] windows@[j],
                    number,
                    text::opt_view(*title),
                ),
        },
{
    let mut i: usize = 0;
    while i < windows.len()
        invariant
            i <= windows@.len(),
            forall|j: int|
                0 <= j < i ==> !is_wanted(#[trigger] windows@[j], number, text::opt_view(*title)),
        decreases windows@.len() - i,
    {
        if wanted(&windows[i], number, title) {
            return Some(i);
        }
        i = i + 1;
    }
    None
}

/// Why a window was not focused.
#[derive(Debug, PartialEq, Eq)]
pub enum FocusMiss {
    /// No window matches.
    NotFound,
    /// The system refused.
    Ax(String),
}

/// What to do to the window that was found, step by step.
#[derive(Debug, Clone, Copy, PartialEq, Eq, Structural)]
pub enum FocusStep {
    /// Make it the app's main window, whether or not that works.
    MakeMain,
    /// Raise it.
    Raise,
    /// Bring the app to the front.
    BringFront,
    /// Ask the app to activate, whether or not that works.
    Nudge,
}

/// The step after one whose error code is known, or how focusing ended. Only
/// raising and bringing to the front can fail it.
pub fn after_step(step: FocusStep, code: i32) -> (r: Result<FocusStep, Result<(), FocusMiss>>)
    ensures
        match step {
            FocusStep::MakeMain => r == Ok::<FocusStep, Result<(), FocusMiss>>(FocusStep::Raise),
            FocusStep::Raise => if code == 0 {
                r == Ok::<FocusStep, Result<(), FocusMiss>>(FocusStep::BringFront)
            } else {
                r matches Err(Err(FocusMiss::Ax(e))) && e@ == "AXRaise failed: AXError "@
                    + text::signed_decimal(code as int)
            },
            FocusStep::BringFront => if code == 0 {
                r == Ok::<FocusStep, Result<(), FocusMiss>>(FocusStep::Nudge)
            } else {
                r matches Err(Err(FocusMiss::Ax(e))) && e@ == write_failed("AXFrontmost"@, code)
            },
            FocusStep::Nudge => r == Err::<FocusStep, Result<(), FocusMiss>>(Ok(())),
        },
{
    match step {
        FocusStep::MakeMain => Ok(FocusStep::Raise),
        FocusStep::Raise => if code == 0 {
            Ok(FocusStep::BringFront)
        } else {
            Err(
                Err(
                    FocusMiss::Ax(
                        text::join(
                            "AXRaise failed: AXError ",
                            &text::signed_decimal_of(code as i64),
                        ),
                    ),
                ),
            )
        },
        FocusStep::BringFront => match set_true_attr("AXFrontmost", code) {
            Ok(_) => Ok(FocusStep::Nudge),
            Err(e) => Err(Err(FocusMiss::Ax(e))),
        },
        FocusStep::Nudge => Err(Ok(())),
    }
}

/// Why an attribute could not be written.
pub open spec fn write_failed(name: Seq<char>, code: i32) -> Seq<char> {
    "writing "@ + name + (" failed: AXError "@ + text::signed_decimal(code as int))
}

/// How writing an attribute went, given the error code.
pub fn set_true_attr(name: &str, code: i32) -> (r: Result<(), String>)
    ensures
        match r {
            Ok(_) => code == 0,
            Err(e) => code != 0 && e@ == write_failed(name@, code),
        },
{
    if code == 0 {
        return Ok(());
    }
    Err(
        text::join3(
            "writing ",
            name,
            &text::join(" failed: AXError ", &text::signed_decimal_of(code as i64)),
        ),
    )
}

/// How reading an attribute went, given the error code and whether a value
/// came with it.
pub fn copy_attr(name: &str, code: i32, has_value: bool) -> (r: Result<(), String>)
    ensures
        match r {
            Ok(_) => code == 0 && has_value,
            Err(e) => if code != 0 {
                e@ == "reading "@ + name@ + (" failed: AXError "@ + text::signed_decimal(
                    code as int,
                ))
            } else {
                !has_value && e@ == "reading "@ + name@ + " returned no value"@
            },
        },
{
    if code != 0 {
        return Err(
            text::join3(
                "reading ",
                name,
                &text::join(" failed: AXError ", &text::signed_decimal_of(code as i64)),
            ),
        );
    }
    if !has_value {
        return Err(text::join3("reading ", name, " returned no value"));
    }
    Ok(())
}

/// What follows an attempt to focus one window.
#[derive(Debug, PartialEq, Eq)]
pub enum AfterFocus {
    /// It ended so.
    End(Result<(), String>),
    /// Bring the app as a whole to the front, and activate it where that
    /// fails.
    BringApp,
}

/// What follows an attempt to focus one window: a window that is not there any
/// more leads to its app, a refusal is reported.
pub fn after_focus(outcome: Result<(), FocusMiss>) -> (r: AfterFocus)
    ensures
        match outcome {
            Ok(_) => r == AfterFocus::End(Ok(())),
            Err(FocusMiss::NotFound) => r is BringApp,
            Err(FocusMiss::Ax(e)) => r == AfterFocus::End(Err(e)),
        },
{
    match outcome {
        Ok(_) => AfterFocus::End(Ok(())),
        Err(FocusMiss::NotFound) => AfterFocus::BringApp,
        Err(FocusMiss::Ax(e)) => AfterFocus::End(Err(e)),
    }
}

/// The options with which an app is activated.
pub fn activation_options(all_windows: bool) -> (r: usize)
    ensures
        r == (if all_windows {
            NS_ACTIVATE_ALL_WINDOWS + NS_ACTIVATE_IGNORING_OTHER_APPS
        } else {
            NS_ACTIVATE_IGNORING_OTHER_APPS as int
        }),
{
    if all_windows {
        NS_ACTIVATE_ALL_WINDOWS + NS_ACTIVATE_IGNORING_OTHER_APPS
    } else {
        NS_ACTIVATE_IGNORING_OTHER_APPS
    }
}

/// How activating an app went: `accepted` is none where no such app runs.
pub fn activate_app(pid: i32, accepted: Option<bool>) -> (r: Result<(), String>)
    ensures
        match accepted {
            None => r matches Err(e) && e@ == "no running application with pid "@
                + text::signed_decimal(pid as int),
            Some(false) => r matches Err(e) && e@
                == "macOS declined to activate the app with pid "@ + text::signed_decimal(
                pid as int,
            ),
            Some(true) => r is Ok,
        },
{
    match accepted {
        None => Err(
            text::join("no running application with pid ", &text::signed_decimal_of(pid as i64)),
        ),
        Some(ok) => if ok {
            Ok(())
        } else {
            Err(
                text::join(
                    "macOS declined to activate the app with pid ",
                    &text::signed_decimal_of(pid as i64),
                ),
            )
        },
    }
}

/// The frontmost app's windows stand before all others.
pub proof fn law_frontmost_windows_come_first(
    wins: Seq<WinView>,
    frontmost: i32,
    i: int,
    j: int,
)
    requires
        0 <= i < j < in_order(wins, Some(frontmost)).len(),
        in_order(wins, Some(frontmost))[j].pid == frontmost,
    ensures
        in_order(wins, Some(frontmost))[i].pid == frontmost,
{
    let seats = wins.map_values(|w: WinView| seat_of(w, Some(frontmost)));
    let p = sorted_positions::<Seat>(seats);
    order::lemma_sorted_positions::<Seat>(seats);
    assert(order::position_ahead::<Seat>(seats, p[i], p[j]));
}

/// No window is lost or shown twice by being put in order.
pub proof fn law_ordering_keeps_every_window(wins: Seq<WinView>, frontmost: Option<i32>)
    ensures
        in_order(wins, frontmost).to_multiset() == wins.to_multiset(),
{
    let seats = wins.map_values(|w: WinView| seat_of(w, frontmost));
    let p = sorted_positions::<Seat>(seats);
    order::lemma_sorted_positions::<Seat>(seats);
    order::lemma_order_is_permutation::<Seat, WinView>(seats, p, wins);
}

/// A window is listed exactly where it is another app's, its app has a name, and
/// it has a title or no window of its app has one.
pub proof fn law_windows_worth_a_row_are_listed(wins: Seq<WinView>, own_pid: i32, w: WinView)
    ensures
        kept(wins, own_pid).contains(w) <==> {
            &&& wins.contains(w)
            &&& w.pid != own_pid
            &&& w.owner.len() > 0
            &&& w.title.len() > 0 || forall|i: int|
                0 <= i < wins.len() && (#[trigger] wins[i]).pid == w.pid ==> wins[i].title.len() == 0
        },
        kept(wins, own_pid).len() <= wins.len(),
{
    let p = |w: WinView| is_kept(wins, own_pid, w);
    wins.lemma_filter_len(p);
    if wins.contains(w) {
        let i = choose|i: int| 0 <= i < wins.len() && wins[i] == w;
        if p(w) {
            wins.lemma_filter_contains(p, i);
        }
    }
    if kept(wins, own_pid).contains(w) {
        let i = choose|i: int| 0 <= i < wins.filter(p).len() && wins.filter(p)[i] == w;
        wins.lemma_filter_pred(p, i);
        wins.lemma_filter_contains_rev(p, w);
    }
}

/// The rows stand with the frontmost app's windows in front, then by the name of
/// the app, its process, and the window's number.
pub proof fn law_windows_are_sorted(wins: Seq<WinView>, frontmost: Option<i32>, i: int, j: int)
    requires
        0 <= i < j < in_order(wins, frontmost).len(),
    ensures
        ({
            let (a, b) = (in_order(wins, frontmost)[i], in_order(wins, frontmost)[j]);
            let (x, y) = (frontmost == Some(a.pid), frontmost == Some(b.pid));
            &&& y ==> x
            &&& x == y ==> !text::lex_before(b.owner, a.owner)
            &&& x == y && a.owner == b.owner ==> a.pid <= b.pid
            &&& x == y && a.owner == b.owner && a.pid == b.pid ==> a.number <= b.number
        }),
{
    let seats = wins.map_values(|w: WinView| seat_of(w, frontmost));
    let p = sorted_positions::<Seat>(seats);
    order::lemma_sorted_positions::<Seat>(seats);
    assert(order::position_ahead::<Seat>(seats, p[i], p[j]));
    text::lemma_lex_trichotomy(wins[p[i]].owner, wins[p[j]].owner);
}

/// A window's row shows its title, or its app's name where it has none, and the
/// app's name below it; its id names the process and the window.
pub proof fn law_rows_show_their_window(w: WinView)
    ensures
        ({
            let row = window_row(w);
            &&& w.title.len() > 0 ==> row.title == w.title
            &&& w.title.len() == 0 ==> row.title == w.owner
            &&& row.subtitle == w.owner
            &&& row.id == "winsw."@ + text::signed_decimal(w.pid as int) + "."@ + text::decimal(
                w.number as nat,
            )
        }),
{
}

/// A query lists every row whose title or app holds it in any case, in the order
/// of the rows, and no other; a blank query lists the first nine.
pub proof fn law_queries_list_what_matches(
    a: Seq<ItemView>,
    b: Seq<ItemView>,
    row: ItemView,
    query: Seq<char>,
)
    ensures
        ({
            let q = text::lowercase(text::trimmed(query));
            &&& q.len() > 0 ==> answered(a + b, query) == answered(a, query) + answered(b, query)
            &&& q.len() > 0 ==> answered(seq![row], query) == (if text::occurs(
                text::lowercase(row.title),
                q,
            ) || text::occurs(text::lowercase(row.subtitle), q) {
                seq![row]
            } else {
                Seq::empty()
            })
            &&& q.len() == 0 ==> answered(a, query).is_prefix_of(a)
            &&& q.len() == 0 ==> answered(a, query).len() == (if a.len() < 9 {
                a.len() as int
            } else {
                9
            })
        }),
{
    let q = text::lowercase(text::trimmed(query));
    let p = |r: ItemView| row_matches(r, q);
    Seq::filter_distributes_over_add(a, b, p);
    reveal_with_fuel(Seq::filter, 2);
    assert(seq![row].drop_last() =~= Seq::<ItemView>::empty());
    assert(Seq::<ItemView>::empty().push(row) =~= seq![row]);
}

/// An id that names a window is the fixed word, the process and the number, with
/// dots between them, and nothing else is one.
pub proof fn law_window_ids_hold_two_numbers(id: Seq<char>)
    ensures
        id_parts(id) matches Some((pid, number)) ==> "winsw."@.is_prefix_of(id) && ({
            let rest = id.skip("winsw."@.len() as int);
            exists|n: int|
                {
                    &&& 0 <= n < rest.len()
                    &&& #[trigger] rest[n] == '.'
                    &&& text::signed_value(rest.take(n)) == Some(pid as int)
                    &&& text::unsigned_value(rest.skip(n + 1)) == Some(number as int)
                }
        }),
{
    if let Some((pid, number)) = id_parts(id) {
        let rest = id.skip("winsw."@.len() as int);
        text::law_splits_make_up_the_text(rest, '.');
        let (p, n) = text::split_first(rest, '.')->0;
        assert(rest[p.len() as int] == '.');
        assert(rest.take(p.len() as int) =~= p);
        assert(rest.skip(p.len() + 1int) =~= n);
    }
}

/// Where the system tells numbers, only the number counts; where it does not,
/// only a title that is the same and not empty does.
pub proof fn law_windows_are_known_by_number_or_title(
    number: u32,
    told: Option<u32>,
    title: Option<Seq<char>>,
    s: String,
)
    ensures
        is_wanted(Candidate::Number(told), number, title) <==> told == Some(number),
        is_wanted(Candidate::Title(Some(s)), number, title) <==> title == Some(s@) && s@.len() > 0,
        !is_wanted(Candidate::Title(None), number, title),
        !is_wanted(Candidate::Absent, number, title),
{
}

/// An attribute that could not be written is reported with its name and the
/// code.
pub proof fn law_failed_writes_are_named(name: Seq<char>, code: i32)
    ensures
        write_failed(name, code) == "writing "@ + name + " failed: AXError "@ + text::signed_decimal(
            code as int,
        ),
{
    assert(write_failed(name, code) =~= "writing "@ + name + " failed: AXError "@
        + text::signed_decimal(code as int));
}

} // verus!
