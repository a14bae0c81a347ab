//! Window management: halves, thirds, quarters, maximize, center, and
//! display-to-display moves for the focused window.
//!
//! All layout is integer geometry over screen rects and a window rect in
//! coordinates with a top-left origin and y growing downward. Segment
//! boundaries are cumulative integer divisions (start + len * k / n), so
//! halves, thirds and quarters share boundaries and tile a screen exactly
//! even where its dimensions do not divide evenly.

use crate::cycle;
use crate::order::views;
use crate::router::{Item, ItemKind, ItemView};
use crate::text;
use vstd::prelude::*;

verus! {

/// The window actions, in the order in which [`items`] lists them.
#[derive(Clone, Copy, Debug, PartialEq, Eq, Structural)]
pub enum Action {
    LeftHalf,
    RightHalf,
    TopHalf,
    BottomHalf,
    LeftThird,
    CenterThird,
    RightThird,
    LeftTwoThirds,
    RightTwoThirds,
    TopLeftQuarter,
    TopRightQuarter,
    BottomLeftQuarter,
    BottomRightQuarter,
    Maximize,
    Center,
    NextDisplay,
    PreviousDisplay,
}

/// Every action, in listing order.
pub open spec fn actions() -> Seq<Action> {
    seq![
        Action::LeftHalf,
        Action::RightHalf,
        Action::TopHalf,
        Action::BottomHalf,
        Action::LeftThird,
        Action::CenterThird,
        Action::RightThird,
        Action::LeftTwoThirds,
        Action::RightTwoThirds,
        Action::TopLeftQuarter,
        Action::TopRightQuarter,
        Action::BottomLeftQuarter,
        Action::BottomRightQuarter,
        Action::Maximize,
        Action::Center,
        Action::NextDisplay,
        Action::PreviousDisplay,
    ]
}

/// The id by which an action is activated.
pub open spec fn action_id(a: Action) -> Seq<char> {
    match a {
        Action::LeftHalf => "window.left-half"@,
        Action::RightHalf => "window.right-half"@,
        Action::TopHalf => "window.top-half"@,
        Action::BottomHalf => "window.bottom-half"@,
        Action::LeftThird => "window.left-third"@,
        Action::CenterThird => "window.center-third"@,
        Action::RightThird => "window.right-third"@,
        Action::LeftTwoThirds => "window.left-two-thirds"@,
        Action::RightTwoThirds => "window.right-two-thirds"@,
        Action::TopLeftQuarter => "window.top-left-quarter"@,
        Action::TopRightQuarter => "window.top-right-quarter"@,
        Action::BottomLeftQuarter => "window.bottom-left-quarter"@,
        Action::BottomRightQuarter => "window.bottom-right-quarter"@,
        Action::Maximize => "window.maximize"@,
        Action::Center => "window.center"@,
        Action::NextDisplay => "window.next-display"@,
        Action::PreviousDisplay => "window.previous-display"@,
    }
}

/// The title under which an action is listed.
pub open spec fn action_title(a: Action) -> Seq<char> {
    match a {
        Action::LeftHalf => "Window: Left Half"@,
        Action::RightHalf => "Window: Right Half"@,
        Action::TopHalf => "Window: Top Half"@,
        Action::BottomHalf => "Window: Bottom Half"@,
        Action::LeftThird => "Window: Left Third"@,
        Action::CenterThird => "Window: Center Third"@,
        Action::RightThird => "Window: Right Third"@,
        Action::LeftTwoThirds => "Window: Left Two Thirds"@,
        Action::RightTwoThirds => "Window: Right Two Thirds"@,
        Action::TopLeftQuarter => "Window: Top Left Quarter"@,
        Action::TopRightQuarter => "Window: Top Right Quarter"@,
        Action::BottomLeftQuarter => "Window: Bottom Left Quarter"@,
        Action::BottomRightQuarter => "Window: Bottom Right Quarter"@,
        Action::Maximize => "Window: Maximize"@,
        Action::Center => "Window: Center"@,
        Action::NextDisplay => "Window: Next Display"@,
        Action::PreviousDisplay => "Window: Previous Display"@,
    }
}

/// Every action, in listing order.
pub fn all_actions() -> (r: Vec<Action>)
    ensures
        r@ == actions(),
{
    let r = vec![
        Action::LeftHalf,
        Action::RightHalf,
        Action::TopHalf,
        Action::BottomHalf,
        Action::LeftThird,
        Action::CenterThird,
        Action::RightThird,
        Action::LeftTwoThirds,
        Action::RightTwoThirds,
        Action::TopLeftQuarter,
        Action::TopRightQuarter,
        Action::BottomLeftQuarter,
        Action::BottomRightQuarter,
        Action::Maximize,
        Action::Center,
        Action::NextDisplay,
        Action::PreviousDisplay,
    ];
    assert(r@ =~= actions());
    r
}

impl Action {
    /// The id by which the action is activated.
    pub fn id(self) -> (r: &'static str)
        ensures
            r@ == action_id(self),
    {
        match self {
            Action::LeftHalf => "window.left-half",
            Action::RightHalf => "window.right-half",
            Action::TopHalf => "window.top-half",
            Action::BottomHalf => "window.bottom-half",
            Action::LeftThird => "window.left-third",
            Action::CenterThird => "window.center-third",
            Action::RightThird => "window.right-third",
            Action::LeftTwoThirds => "window.left-two-thirds",
            Action::RightTwoThirds => "window.right-two-thirds",
            Action::TopLeftQuarter => "window.top-left-quarter",
            Action::TopRightQuarter => "window.top-right-quarter",
            Action::BottomLeftQuarter => "window.bottom-left-quarter",
            Action::BottomRightQuarter => "window.bottom-right-quarter",
            Action::Maximize => "window.maximize",
            Action::Center => "window.center",
            Action::NextDisplay => "window.next-display",
            Action::PreviousDisplay => "window.previous-display",
        }
    }

    /// The title under which the action is listed.
    pub fn title(self) -> (r: &'static str)
        ensures
            r@ == action_title(self),
    {
        match self {
            Action::LeftHalf => "Window: Left Half",
            Action::RightHalf => "Window: Right Half",
            Action::TopHalf => "Window: Top Half",
            Action::BottomHalf => "Window: Bottom Half",
            Action::LeftThird => "Window: Left Third",
            Action::CenterThird => "Window: Center Third",
            Action::RightThird => "Window: Right Third",
            Action::LeftTwoThirds => "Window: Left Two Thirds",
            Action::RightTwoThirds => "Window: Right Two Thirds",
            Action::TopLeftQuarter => "Window: Top Left Quarter",
            Action::TopRightQuarter => "Window: Top Right Quarter",
            Action::BottomLeftQuarter => "Window: Bottom Left Quarter",
            Action::BottomRightQuarter => "Window: Bottom Right Quarter",
            Action::Maximize => "Window: Maximize",
            Action::Center => "Window: Center",
            Action::NextDisplay => "Window: Next Display",
            Action::PreviousDisplay => "Window: Previous Display",
        }
    }
}

/// The action with the given id.
pub fn action_of(id: &str) -> (r: Option<Action>)
    ensures
        match r {
            Some(a) => action_id(a) == id@,
            None => forall|a: Action| action_id(a) != id@,
        },
{
    if text::same(id, "window.left-half") {
        return Some(Action::LeftHalf);
    }
    if text::same(id, "window.right-half") {
        return Some(Action::RightHalf);
    }
    if text::same(id, "window.top-half") {
        return Some(Action::TopHalf);
    }
    if text::same(id, "window.bottom-half") {
        return Some(Action::BottomHalf);
    }
    if text::same(id, "window.left-third") {
        return Some(Action::LeftThird);
    }
    if text::same(id, "window.center-third") {
        return Some(Action::CenterThird);
    }
    if text::same(id, "window.right-third") {
        return Some(Action::RightThird);
    }
    if text::same(id, "window.left-two-thirds") {
        return Some(Action::LeftTwoThirds);
    }
    if text::same(id, "window.right-two-thirds") {
        return Some(Action::RightTwoThirds);
    }
    if text::same(id, "window.top-left-quarter") {
        return Some(Action::TopLeftQuarter);
    }
    if text::same(id, "window.top-right-quarter") {
        return Some(Action::TopRightQuarter);
    }
    if text::same(id, "window.bottom-left-quarter") {
        return Some(Action::BottomLeftQuarter);
    }
    if text::same(id, "window.bottom-right-quarter") {
        return Some(Action::BottomRightQuarter);
    }
    if text::same(id, "window.maximize") {
        return Some(Action::Maximize);
    }
    if text::same(id, "window.center") {
        return Some(Action::Center);
    }
    if text::same(id, "window.next-display") {
        return Some(Action::NextDisplay);
    }
    if text::same(id, "window.previous-display") {
        return Some(Action::PreviousDisplay);
    }
    None
}

/// No two actions share an id.
pub proof fn law_action_ids_are_unique(a: Action, b: Action)
    requires
        action_id(a) == action_id(b),
    ensures
        a == b,
{
    reveal_strlit("window.left-half");
    reveal_strlit("window.right-half");
    reveal_strlit("window.top-half");
    reveal_strlit("window.bottom-half");
    reveal_strlit("window.left-third");
    reveal_strlit("window.center-third");
    reveal_strlit("window.right-third");
    reveal_strlit("window.left-two-thirds");
    reveal_strlit("window.right-two-thirds");
    reveal_strlit("window.top-left-quarter");
    reveal_strlit("window.top-right-quarter");
    reveal_strlit("window.bottom-left-quarter");
    reveal_strlit("window.bottom-right-quarter");
    reveal_strlit("window.maximize");
    reveal_strlit("window.center");
    reveal_strlit("window.next-display");
    reveal_strlit("window.previous-display");
    let x = action_id(a);
    let y = action_id(b);
    assert(x.len() == y.len() && x[7] == y[7]);
}

/// The window-management rows, in listing order.
pub open spec fn listing() -> Seq<ItemView> {
    actions().map_values(
        |a: Action|
            ItemView {
                id: action_id(a),
                title: action_title(a),
                subtitle: "Window management"@,
                kind: ItemKind::SystemCommand,
            },
    )
}

/// The window-management rows, in listing order.
pub fn items() -> (r: Vec<Item>)
    ensures
        views(r@) == listing(),
{
    let all = all_actions();
    let mut out: Vec<Item> = Vec::new();
    let mut i: usize = 0;
    while i < all.len()
        invariant
            i <= all@.len(),
            all@ == actions(),
            out@.len() == i,
            forall|k: int|
                0 <= k < i ==> #[trigger] out@[k]@ == (ItemView {
                    id: action_id(all@[k]),
                    title: action_title(all@[k]),
                    subtitle: "Window management"@,
                    kind: ItemKind::SystemCommand,
                }),
        decreases all@.len() - i,
    {
        let a = all[i];
        out.push(Item::new(a.id(), a.title(), "Window management", ItemKind::SystemCommand));
        i = i + 1;
    }
    out
}

/// Whether a window action may go on: the id must be known, and the process
/// must hold the Accessibility permission before anything is attempted.
pub fn activate(id: &str, trusted: bool) -> (r: Result<(), String>)
    ensures
        match r {
            Ok(_) => trusted && exists|a: Action| action_id(a) == id@,
            Err(e) => if forall|a: Action| action_id(a) != id@ {
                e@ == "unknown window action: "@ + id@
            } else {
                !trusted && e@
                    == "beckon cannot move windows yet: macOS has not granted it the Accessibility permission. Open System Settings > Privacy & Security > Accessibility, add beckon, and turn it on; then try again."@
            },
        },
{
    match action_of(id) {
        None => Err(text::join("unknown window action: ", id)),
        Some(_) => if trusted {
            Ok(())
        } else {
            Err(
                text::copy(
                    "beckon cannot move windows yet: macOS has not granted it the Accessibility permission. Open System Settings > Privacy & Security > Accessibility, add beckon, and turn it on; then try again.",
                ),
            )
        },
    }
}

/// An integer rectangle: top-left origin, y growing downward, whole points.
#[derive(Clone, Copy, Debug, PartialEq, Eq, Structural)]
pub struct Rect {
    pub x: i64,
    pub y: i64,
    pub w: i64,
    pub h: i64,
}

/// A rectangle over unbounded integers.
pub struct Frame {
    pub x: int,
    pub y: int,
    pub w: int,
    pub h: int,
}

impl View for Rect {
    type V = Frame;

    open spec fn view(&self) -> Frame {
        Frame { x: self.x as int, y: self.y as int, w: self.w as int, h: self.h as int }
    }
}

/// Whether an integer is one that a coordinate can hold.
pub open spec fn in_range(v: int) -> bool {
    i64::MIN <= v <= i64::MAX
}

/// Whether a rectangle is one that a [`Rect`] can hold.
pub open spec fn representable(f: Frame) -> bool {
    in_range(f.x) && in_range(f.y) && in_range(f.w) && in_range(f.h)
}

/// A rectangle in words that hold every target.
struct WideRect {
    x: i128,
    y: i128,
    w: i128,
    h: i128,
}

impl View for WideRect {
    type V = Frame;

    closed spec fn view(&self) -> Frame {
        Frame { x: self.x as int, y: self.y as int, w: self.w as int, h: self.h as int }
    }
}

impl WideRect {
    /// Whether a [`Rect`] can hold it.
    fn fits(&self) -> (r: bool)
        ensures
            r == representable(self@),
    {
        let lo: i128 = -0x8000_0000_0000_0000;
        let hi: i128 = 0x7fff_ffff_ffff_ffff;
        lo <= self.x && self.x <= hi && lo <= self.y && self.y <= hi && lo <= self.w && self.w <= hi
            && lo <= self.h && self.h <= hi
    }

    /// The same rectangle as a [`Rect`].
    fn narrow(&self) -> (r: Rect)
        requires
            representable(self@),
        ensures
            r@ == self@,
    {
        Rect { x: self.x as i64, y: self.y as i64, w: self.w as i64, h: self.h as i64 }
    }
}

/// The quotient rounded toward zero, as integer division gives it.
pub open spec fn quot(a: int, b: int) -> int {
    let q = (if a < 0 {
        -a
    } else {
        a
    }) / (if b < 0 {
        -b
    } else {
        b
    });
    if (a < 0) == (b < 0) {
        q
    } else {
        -q
    }
}

/// The nearest value to `v` between `lo` and `hi`.
pub open spec fn clamped(v: int, lo: int, hi: int) -> int {
    if v < lo {
        lo
    } else if v > hi {
        hi
    } else {
        v
    }
}

/// The larger of a length and one.
pub open spec fn at_least_one(v: int) -> int {
    if v < 1 {
        1
    } else {
        v
    }
}

/// A rect flipped between an origin at the bottom and one at the top of a
/// primary display of the given height.
pub open spec fn flipped(primary_height: int, f: Frame) -> Frame {
    Frame { x: f.x, y: primary_height - f.y - f.h, w: f.w, h: f.h }
}

/// Flips a rect between bottom-left and top-left vertical coordinates,
/// anchored to the primary display's full height.
pub fn appkit_to_ax(primary_height: i64, r: Rect) -> (out: Rect)
    requires
        in_range(primary_height - r.y - r.h),
    ensures
        out@ == flipped(primary_height as int, r@),
{
    Rect {
        x: r.x,
        y: (primary_height as i128 - r.y as i128 - r.h as i128) as i64,
        w: r.w,
        h: r.h,
    }
}

/// Whether a screen can be flipped within machine words.
pub open spec fn flippable(primary_height: int, f: Frame) -> bool {
    in_range(primary_height - f.y - f.h)
}

/// Whether screens can be flipped within machine words.
pub fn can_flip(primary_height: i64, visible: &Vec<Rect>) -> (r: bool)
    ensures
        r == (forall|i: int|
            0 <= i < visible@.len() ==> flippable(
                primary_height as int,
                (#[trigger] visible@[i])@,
            )),
{
    let mut i: usize = 0;
    while i < visible.len()
        invariant
            i <= visible@.len(),
            forall|k: int|
                0 <= k < i ==> flippable(primary_height as int, (#[trigger] visible@[k])@),
        decreases visible@.len() - i,
    {
        let v = visible[i];
        let y: i128 = primary_height as i128 - v.y as i128 - v.h as i128;
        if y < -0x8000_0000_0000_0000 || y > 0x7fff_ffff_ffff_ffff {
            assert(!flippable(primary_height as int, visible@[i as int]@));
            return false;
        }
        i = i + 1;
    }
    true
}

/// The flip is its own inverse.
pub proof fn law_flip_is_its_own_inverse(primary_height: int, f: Frame)
    ensures
        flipped(primary_height, flipped(primary_height, f)) == f,
{
}

/// The screens' visible frames, flipped to an origin at the top; the primary
/// display's full height anchors the flip. `visible` is none where the system
/// gives no list of screens.
pub fn screens_ax(primary_height: i64, visible: Option<Vec<Rect>>) -> (r: Result<
    Vec<Rect>,
    String,
>)
    requires
        visible matches Some(v) ==> forall|i: int|
            0 <= i < v@.len() ==> flippable(primary_height as int, (#[trigger] v@[i])@),
    ensures
        match visible {
            None => r matches Err(e) && e@ == "NSScreen screens returned nil"@,
            Some(v) => if v@.len() == 0 {
                r matches Err(e) && e@ == "no displays"@
            } else {
                r matches Ok(out) && views(out@) == views(v@).map_values(
                    |f: Frame| flipped(primary_height as int, f),
                )
            },
        },
{
    match visible {
        None => Err(text::copy("NSScreen screens returned nil")),
        Some(v) => {
            if v.len() == 0 {
                return Err(text::copy("no displays"));
            }
            let mut out: Vec<Rect> = Vec::new();
            let mut i: usize = 0;
            while i < v.len()
                invariant
                    i <= v@.len(),
                    out@.len() == i,
                    forall|k: int|
                        0 <= k < v@.len() ==> flippable(
                            primary_height as int,
                            (#[trigger] v@[k])@,
                        ),
                    forall|k: int|
                        0 <= k < i ==> #[trigger] out@[k]@ == flipped(
                            primary_height as int,
                            v@[k]@,
                        ),
                decreases v@.len() - i,
            {
                out.push(appkit_to_ax(primary_height, v[i]));
                i = i + 1;
            }
            assert(views(out@) =~= views(v@).map_values(
                |f: Frame| flipped(primary_height as int, f),
            ));
            Ok(out)
        },
    }
}

/// The span of grid cells `i..j` out of `n` over the segment that starts at
/// `start` and is `len` long, as start and length.
pub open spec fn spanned(start: int, len: int, i: int, j: int, n: int) -> (int, int) {
    (start + quot(len * i, n), quot(len * j, n) - quot(len * i, n))
}

proof fn lemma_product_bounds(a: int, b: int, p: int, q: int)
    by (nonlinear_arith)
    requires
        -p <= a <= p,
        -q <= b <= q,
    ensures
        -(p * q) <= a * b <= p * q,
{
}

proof fn lemma_quot_bounds(a: int, b: int, m: int)
    requires
        b != 0,
        -m <= a <= m,
    ensures
        -m <= quot(a, b) <= m,
{
    let x = if a < 0 {
        -a
    } else {
        a
    };
    let y = if b < 0 {
        -b
    } else {
        b
    };
    assert(0 <= x / y <= x) by (nonlinear_arith)
        requires
            x >= 0,
            y >= 1,
    ;
}

/// Division of 128-bit integers, rounding toward zero.
fn divide(a: i128, b: i128) -> (r: i128)
    requires
        b != 0,
        a > i128::MIN,
        b > i128::MIN,
    ensures
        r == quot(a as int, b as int),
{
    proof {
        let x = if a < 0 {
            -(a as int)
        } else {
            a as int
        };
        let y = b as int;
        assert(y < 0 ==> x / y == -(x / -y)) by (nonlinear_arith)
            requires
                x >= 0,
                y != 0,
        ;
    }
    a / b
}

/// The span of grid cells `i..j` out of `n` over the segment that starts at
/// `start` and is `len` long, as start and length.
pub fn span(start: i64, len: i64, i: i64, j: i64, n: i64) -> (r: (i64, i64))
    requires
        n != 0,
        in_range(spanned(start as int, len as int, i as int, j as int, n as int).0),
        in_range(spanned(start as int, len as int, i as int, j as int, n as int).1),
    ensures
        (r.0 as int, r.1 as int) == spanned(start as int, len as int, i as int, j as int, n as int),
{
    let (at, long) = wide_span(start, len, i, j, n);
    (at as i64, long as i64)
}

/// The span of grid cells `i..j` out of `n`, in wide words.
fn wide_span(start: i64, len: i64, i: i64, j: i64, n: i64) -> (r: (i128, i128))
    requires
        n != 0,
        i128::MIN <= spanned(start as int, len as int, i as int, j as int, n as int).1 <= i128::MAX,
    ensures
        (r.0 as int, r.1 as int) == spanned(start as int, len as int, i as int, j as int, n as int),
{
    proof {
        let m = 0x8000_0000_0000_0000int;
        lemma_product_bounds(len as int, i as int, m, m);
        lemma_product_bounds(len as int, j as int, m, m);
        lemma_quot_bounds(len * i, n as int, m * m);
        lemma_quot_bounds(len * j, n as int, m * m);
        assert(m * m == 0x4000_0000_0000_0000_0000_0000_0000_0000) by (nonlinear_arith)
            requires
                m == 0x8000_0000_0000_0000int,
        ;
    }
    let a: i128 = divide(len as i128 * i as i128, n as i128);
    let b: i128 = divide(len as i128 * j as i128, n as i128);
    (start as i128 + a, b - a)
}

/// Two spans that meet at a grid line share that boundary.
pub proof fn law_adjacent_spans_share_their_boundary(
    start: int,
    len: int,
    i: int,
    j: int,
    k: int,
    n: int,
)
    ensures
        spanned(start, len, i, j, n).0 + spanned(start, len, i, j, n).1 == spanned(
            start,
            len,
            j,
            k,
            n,
        ).0,
        spanned(start, len, i, j, n).1 + spanned(start, len, j, k, n).1 == spanned(
            start,
            len,
            i,
            k,
            n,
        ).1,
{
}

/// The span of all cells is the whole segment, whatever remains of the
/// division.
pub proof fn law_all_cells_make_the_whole(start: int, len: int, n: int)
    requires
        n > 0,
    ensures
        spanned(start, len, 0, n, n) == (start, len),
{
    let x = if len < 0 {
        -len
    } else {
        len
    };
    assert(x * n / n == x) by (nonlinear_arith)
        requires
            n > 0,
    ;
    assert(len * n == (if len < 0 {
        -(x * n)
    } else {
        x * n
    })) by (nonlinear_arith)
        requires
            x == (if len < 0 {
                -len
            } else {
                len
            }),
    ;
    assert(x * n >= 0) by (nonlinear_arith)
        requires
            x >= 0,
            n > 0,
    ;
    assert(len < 0 ==> x * n > 0) by (nonlinear_arith)
        requires
            x == (if len < 0 {
                -len
            } else {
                len
            }),
            n > 0,
    ;
    assert(len * 0 == 0);
    assert(0int / n == 0) by (nonlinear_arith)
        requires
            n > 0,
    ;
}

/// The cells of a segment are as long as even division makes them, or one
/// longer where something remains. The first cell takes nothing of the
/// remainder; the last is never shorter than another, and ends where the
/// segment does.
pub proof fn law_the_last_cell_absorbs_the_remainder(start: int, len: int, i: int, n: int)
    requires
        len >= 0,
        0 <= i < n,
    ensures
        ({
            let cell = spanned(start, len, i, i + 1, n);
            let last = spanned(start, len, n - 1, n, n);
            &&& len / n <= cell.1 <= last.1
            &&& last.1 == len / n + (if len % n == 0 {
                0int
            } else {
                1
            })
            &&& last.0 + last.1 == start + len
            &&& n > 1 ==> spanned(start, len, 0, 1, n).1 == len / n
        }),
{
    let (q, r) = (len / n, len % n);
    vstd::arithmetic::div_mod::lemma_fundamental_div_mod(len, n);
    lemma_boundary(len, q, r, i, n);
    lemma_boundary(len, q, r, i + 1, n);
    lemma_boundary(len, q, r, n - 1, n);
    lemma_boundary(len, q, r, n, n);
    lemma_boundary(len, q, r, 0, n);
    lemma_boundary(len, q, r, 1, n);
    lemma_step_of_remainder(r, i, n);
    lemma_step_of_remainder(r, 0, n);
    assert(r * n / n == r) by (nonlinear_arith)
        requires
            n > 0,
    ;
    assert(r > 0 ==> r * (n - 1) / n == r - 1) by {
        if r > 0 {
            assert(r * (n - 1) == (r - 1) * n + (n - r)) by (nonlinear_arith);
            vstd::arithmetic::div_mod::lemma_fundamental_div_mod_converse(
                r * (n - 1),
                n,
                r - 1,
                n - r,
            );
        }
    }
    assert(r == 0 ==> r * (i + 1) == 0 && r * i == 0 && r * (n - 1) == 0) by (nonlinear_arith);
    assert(q * (i + 1) - q * i == q && q * n - q * (n - 1) == q) by (nonlinear_arith);
    assert(r * 0 == 0 && r * 1 == r && q * 0 == 0 && q * 1 == q);
    vstd::arithmetic::div_mod::lemma_small_mod(r as nat, n as nat);
    vstd::arithmetic::div_mod::lemma_basic_div(r, n);
    law_all_cells_make_the_whole(start, len, n);
    law_adjacent_spans_share_their_boundary(start, len, 0, n - 1, n, n);
}

/// The grid line before cell `i`, split into whole cells and what remains.
proof fn lemma_boundary(len: int, q: int, r: int, i: int, n: int)
    requires
        len == n * q + r,
        len >= 0,
        q >= 0,
        0 <= r < n,
        i >= 0,
    ensures
        quot(len * i, n) == q * i + r * i / n,
{
    let (d, m) = (r * i / n, r * i % n);
    vstd::arithmetic::div_mod::lemma_fundamental_div_mod(r * i, n);
    assert(len * i == (q * i + d) * n + m) by (nonlinear_arith)
        requires
            len == n * q + r,
            r * i == n * d + m,
    ;
    vstd::arithmetic::div_mod::lemma_fundamental_div_mod_converse(len * i, n, q * i + d, m);
    assert(len * i >= 0) by (nonlinear_arith)
        requires
            len >= 0,
            i >= 0,
    ;
}

/// From one grid line to the next the remainder adds one at most.
proof fn lemma_step_of_remainder(r: int, i: int, n: int)
    requires
        0 <= r < n,
        i >= 0,
    ensures
        r * i / n <= r * (i + 1) / n <= r * i / n + 1,
{
    assert(r * (i + 1) == r * i + r) by (nonlinear_arith);
    vstd::arithmetic::div_mod::lemma_div_is_ordered(r * i, r * (i + 1), n);
    vstd::arithmetic::div_mod::lemma_div_is_ordered(r * (i + 1), r * i + n, n);
    assert((r * i + n) / n == r * i / n + 1) by (nonlinear_arith)
        requires
            n > 0,
    ;
}

/// The center point of a rect.
pub open spec fn center(f: Frame) -> (int, int) {
    (f.x + quot(f.w, 2), f.y + quot(f.h, 2))
}

/// Whether a screen contains the center of a window.
pub open spec fn holds_center(screen: Frame, win: Frame) -> bool {
    &&& screen.x <= center(win).0 < screen.x + screen.w
    &&& screen.y <= center(win).1 < screen.y + screen.h
}

/// The square of the distance between the centers of a screen and a window.
pub open spec fn distance(screen: Frame, win: Frame) -> int {
    let dx = center(screen).0 - center(win).0;
    let dy = center(screen).1 - center(win).1;
    dx * dx + dy * dy
}

/// Whether screen `k` is the one that a window belongs to: the first that
/// contains its center, and where none does the first whose center is
/// nearest.
pub open spec fn belongs_to(screens: Seq<Frame>, win: Frame, k: int) -> bool {
    &&& 0 <= k < screens.len()
    &&& if exists|i: int| 0 <= i < screens.len() && holds_center(#[trigger] screens[i], win) {
        &&& holds_center(screens[k], win)
        &&& forall|i: int| 0 <= i < k ==> !holds_center(#[trigger] screens[i], win)
    } else {
        &&& forall|i: int|
            0 <= i < screens.len() ==> distance(screens[k], win) <= distance(
                #[trigger] screens[i],
                win,
            )
        &&& forall|i: int|
            0 <= i < k ==> distance(screens[k], win) < distance(#[trigger] screens[i], win)
    }
}

/// The screen that a window belongs to.
pub open spec fn screen_of(screens: Seq<Frame>, win: Frame) -> int {
    choose|k: int| belongs_to(screens, win, k)
}

/// A window belongs to one screen only.
proof fn lemma_one_screen(screens: Seq<Frame>, win: Frame, a: int, b: int)
    requires
        belongs_to(screens, win, a),
        belongs_to(screens, win, b),
    ensures
        a == b,
{
    let s = screens[a];
    let t = screens[b];
    if exists|i: int| 0 <= i < screens.len() && holds_center(#[trigger] screens[i], win) {
        assert(holds_center(s, win) && holds_center(t, win));
    } else {
        assert(distance(s, win) <= distance(t, win) && distance(t, win) <= distance(s, win));
    }
}

/// Whether no distance that has to be compared exceeds what fits a machine
/// word.
pub open spec fn distances_fit(screens: Seq<Frame>, win: Frame) -> bool {
    (exists|i: int| 0 <= i < screens.len() && holds_center(#[trigger] screens[i], win)) || (forall|
        i: int,
    |
        0 <= i < screens.len() ==> distance(#[trigger] screens[i], win) <= i64::MAX)
}

/// The center point of a rect.
fn center_of(r: Rect) -> (c: (i128, i128))
    ensures
        (c.0 as int, c.1 as int) == center(r@),
        -0x1_0000_0000_0000_0000 < c.0 < 0x1_0000_0000_0000_0000,
        -0x1_0000_0000_0000_0000 < c.1 < 0x1_0000_0000_0000_0000,
{
    (r.x as i128 + divide(r.w as i128, 2), r.y as i128 + divide(r.h as i128, 2))
}

proof fn lemma_square_nonnegative(a: int)
    by (nonlinear_arith)
    ensures
        a * a >= 0,
{
}

/// Which screen a window belongs to: the one that contains its center, else
/// the one whose center is nearest, the first where several are.
pub fn screen_index(screens: &[Rect], win: Rect) -> (r: usize)
    requires
        distances_fit(views(screens@), win@),
    ensures
        screens@.len() == 0 ==> r == 0,
        screens@.len() > 0 ==> belongs_to(views(screens@), win@, r as int) && r == screen_of(
            views(screens@),
            win@,
        ),
{
    let ghost fs = views(screens@);
    let (cx, cy) = center_of(win);
    let mut i: usize = 0;
    while i < screens.len()
        invariant
            i <= screens@.len(),
            fs == views(screens@),
            (cx as int, cy as int) == center(win@),
            forall|k: int| 0 <= k < i ==> !holds_center(#[trigger] fs[k], win@),
        decreases screens@.len() - i,
    {
        let s = screens[i];
        assert(fs[i as int] == s@);
        if s.x as i128 <= cx && cx < s.x as i128 + s.w as i128 && s.y as i128 <= cy && cy < s.y
            as i128 + s.h as i128 {
            proof {
                assert(belongs_to(fs, win@, i as int));
                lemma_one_screen(fs, win@, i as int, screen_of(fs, win@));
            }
            return i;
        }
        i = i + 1;
    }
    let mut best: usize = 0;
    let mut best_d: i64 = i64::MAX;
    i = 0;
    while i < screens.len()
        invariant
            i <= screens@.len(),
            best < screens@.len() || best == 0,
            fs == views(screens@),
            (cx as int, cy as int) == center(win@),
            -0x1_0000_0000_0000_0000 < cx < 0x1_0000_0000_0000_0000,
            -0x1_0000_0000_0000_0000 < cy < 0x1_0000_0000_0000_0000,
            forall|k: int|
                0 <= k < screens@.len() ==> distance(#[trigger] fs[k], win@) <= i64::MAX,
            forall|k: int| 0 <= k < i ==> best_d <= distance(#[trigger] fs[k], win@),
            i > 0 ==> best_d == distance(fs[best as int], win@),
            i == 0 ==> best_d == i64::MAX && best == 0,
            forall|k: int| 0 <= k < best ==> best_d < distance(#[trigger] fs[k], win@),
        decreases screens@.len() - i,
    {
        let s = screens[i];
        assert(fs[i as int] == s@);
        let (sx, sy) = center_of(s);
        let dx: i128 = sx - cx;
        let dy: i128 = sy - cy;
        proof {
            lemma_square_nonnegative(dx as int);
            lemma_square_nonnegative(dy as int);
        }
        let d: i64 = (dx * dx + dy * dy) as i64;
        if d < best_d {
            best_d = d;
            best = i;
        }
        i = i + 1;
    }
    proof {
        if screens@.len() > 0 {
            assert(belongs_to(fs, win@, best as int));
            lemma_one_screen(fs, win@, best as int, screen_of(fs, win@));
        }
    }
    best
}

/// Where a window goes on display `to` when it keeps its position and size
/// relative to display `from`: scaled in proportion, then clamped so that
/// all of it lies on the target display.
pub open spec fn rescaled(from: Frame, to: Frame, win: Frame) -> Frame {
    let fw = at_least_one(from.w);
    let fh = at_least_one(from.h);
    let tw = at_least_one(to.w);
    let th = at_least_one(to.h);
    let w = clamped(quot(win.w * tw, fw), 1, tw);
    let h = clamped(quot(win.h * th, fh), 1, th);
    Frame {
        x: clamped(to.x + quot((win.x - from.x) * tw, fw), to.x, to.x + tw - w),
        y: clamped(to.y + quot((win.y - from.y) * th, fh), to.y, to.y + th - h),
        w,
        h,
    }
}

/// Where a window goes when it moves `step` displays along, wrapping around.
pub open spec fn moved(screens: Seq<Frame>, win: Frame, step: int) -> Frame {
    let from = screen_of(screens, win);
    rescaled(screens[from], screens[(from + step) % (screens.len() as int)], win)
}

/// The position and length on one axis of a rescaled window.
fn rescale_axis(from: i64, from_len: i64, to: i64, to_len: i64, at: i64, len: i64) -> (r: (
    i128,
    i128,
))
    ensures
        ({
            let f = at_least_one(from_len as int);
            let t = at_least_one(to_len as int);
            let l = clamped(quot(len * t, f), 1, t);
            &&& r.1 == l
            &&& r.0 == clamped(to + quot((at - from) * t, f), to as int, to + t - l)
        }),
{
    let f: i128 = if from_len < 1 {
        1
    } else {
        from_len as i128
    };
    let t: i128 = if to_len < 1 {
        1
    } else {
        to_len as i128
    };
    proof {
        let m = 0x8000_0000_0000_0000int;
        lemma_product_bounds(len as int, t as int, m, m - 1);
        lemma_product_bounds(at - from, t as int, 2 * m - 1, m - 1);
        lemma_quot_bounds((at - from) * t, f as int, (2 * m - 1) * (m - 1));
        assert((2 * m - 1) * (m - 1) + m < 0x8000_0000_0000_0000_0000_0000_0000_0000)
            by (nonlinear_arith)
            requires
                m == 0x8000_0000_0000_0000int,
        ;
        assert(m * (m - 1) < 0x8000_0000_0000_0000_0000_0000_0000_0000) by (nonlinear_arith)
            requires
                m == 0x8000_0000_0000_0000int,
        ;
    }
    let scaled: i128 = divide(len as i128 * t, f);
    let l: i128 = if scaled < 1 {
        1
    } else if scaled > t {
        t
    } else {
        scaled
    };
    let offset: i128 = divide((at as i128 - from as i128) * t, f);
    let p: i128 = to as i128 + offset;
    let hi: i128 = to as i128 + t - l;
    let q: i128 = if p < to as i128 {
        to as i128
    } else if p > hi {
        hi
    } else {
        p
    };
    (q, l)
}

/// Moves a window `step` displays along the screen order, wrapping around,
/// keeping its geometry relative to the display it came from.
pub fn move_display(screens: &[Rect], win: Rect, step: i64) -> (r: Rect)
    requires
        screens@.len() > 0,
        distances_fit(views(screens@), win@),
        representable(moved(views(screens@), win@, step as int)),
    ensures
        r@ == moved(views(screens@), win@, step as int),
{
    wide_move(screens, win, step).narrow()
}

/// Where a window goes when it moves `step` displays along.
fn wide_move(screens: &[Rect], win: Rect, step: i64) -> (r: WideRect)
    requires
        screens@.len() > 0,
        distances_fit(views(screens@), win@),
    ensures
        r@ == moved(views(screens@), win@, step as int),
{
    let n: usize = screens.len();
    let idx: usize = screen_index(screens, win);
    let from = screens[idx];
    let k: i128 = idx as i128 + step as i128;
    let next: usize = cycle::wrap(k, n);
    let to = screens[next];
    assert(views(screens@)[idx as int] == from@);
    assert(views(screens@)[next as int] == to@);
    let (x, w) = rescale_axis(from.x, from.w, to.x, to.w, win.x, win.w);
    let (y, h) = rescale_axis(from.y, from.h, to.y, to.h, win.y, win.h);
    WideRect { x, y, w, h }
}

/// The frame that an action gives a window: a function of the action, the
/// screens' visible frames and the window's current frame.
pub open spec fn target(a: Action, screens: Seq<Frame>, win: Frame) -> Frame {
    let s = screens[screen_of(screens, win)];
    let left = spanned(s.x, s.w, 0, 1, 2);
    let right = spanned(s.x, s.w, 1, 2, 2);
    let top = spanned(s.y, s.h, 0, 1, 2);
    let bottom = spanned(s.y, s.h, 1, 2, 2);
    let wide = (s.x, s.w);
    let tall = (s.y, s.h);
    match a {
        Action::LeftHalf => framed(left, tall),
        Action::RightHalf => framed(right, tall),
        Action::TopHalf => framed(wide, top),
        Action::BottomHalf => framed(wide, bottom),
        Action::LeftThird => framed(spanned(s.x, s.w, 0, 1, 3), tall),
        Action::CenterThird => framed(spanned(s.x, s.w, 1, 2, 3), tall),
        Action::RightThird => framed(spanned(s.x, s.w, 2, 3, 3), tall),
        Action::LeftTwoThirds => framed(spanned(s.x, s.w, 0, 2, 3), tall),
        Action::RightTwoThirds => framed(spanned(s.x, s.w, 1, 3, 3), tall),
        Action::TopLeftQuarter => framed(left, top),
        Action::TopRightQuarter => framed(right, top),
        Action::BottomLeftQuarter => framed(left, bottom),
        Action::BottomRightQuarter => framed(right, bottom),
        Action::Maximize => framed(wide, tall),
        Action::Center => Frame {
            x: s.x + quot(s.w - win.w, 2),
            y: s.y + quot(s.h - win.h, 2),
            w: win.w,
            h: win.h,
        },
        Action::NextDisplay => moved(screens, win, 1),
        Action::PreviousDisplay => moved(screens, win, -1),
    }
}

/// The frame with the given start and length on each axis.
pub open spec fn framed(xs: (int, int), ys: (int, int)) -> Frame {
    Frame { x: xs.0, y: ys.0, w: xs.1, h: ys.1 }
}

/// Whether every action can place the window within machine words.
pub open spec fn placeable(id: Seq<char>, screens: Seq<Frame>, win: Frame) -> bool {
    forall|a: Action|
        action_id(a) == id && screens.len() > 0 ==> distances_fit(screens, win) && representable(
            #[trigger] target(a, screens, win),
        )
}

/// How far from zero a coordinate or a length may lie for every action to
/// stay within machine words.
pub const REACH: i64 = 0x1000_0000;

/// Whether no coordinate or length of a rect lies beyond [`REACH`].
pub open spec fn in_reach(f: Frame) -> bool {
    &&& -REACH <= f.x <= REACH
    &&& -REACH <= f.y <= REACH
    &&& -REACH <= f.w <= REACH
    &&& -REACH <= f.h <= REACH
}

/// Whether no coordinate or length of the screens and the window lies beyond
/// [`REACH`].
pub open spec fn all_in_reach(screens: Seq<Frame>, win: Frame) -> bool {
    in_reach(win) && forall|i: int| 0 <= i < screens.len() ==> in_reach(#[trigger] screens[i])
}

proof fn lemma_distance_in_reach(s: Frame, win: Frame)
    requires
        in_reach(s),
        in_reach(win),
    ensures
        distance(s, win) <= i64::MAX,
{
    lemma_quot_bounds(s.w, 2, REACH as int);
    lemma_quot_bounds(s.h, 2, REACH as int);
    lemma_quot_bounds(win.w, 2, REACH as int);
    lemma_quot_bounds(win.h, 2, REACH as int);
    let dx = center(s).0 - center(win).0;
    let dy = center(s).1 - center(win).1;
    lemma_product_bounds(dx, dx, 4 * REACH, 4 * REACH);
    lemma_product_bounds(dy, dy, 4 * REACH, 4 * REACH);
}

proof fn lemma_span_in_reach(start: int, len: int, i: int, j: int, n: int)
    requires
        -REACH <= start <= REACH,
        -REACH <= len <= REACH,
        0 <= i <= 3,
        0 <= j <= 3,
        n != 0,
    ensures
        in_range(spanned(start, len, i, j, n).0),
        in_range(spanned(start, len, i, j, n).1),
{
    lemma_product_bounds(len, i, REACH as int, 3);
    lemma_product_bounds(len, j, REACH as int, 3);
    lemma_quot_bounds(len * i, n, 3 * REACH);
    lemma_quot_bounds(len * j, n, 3 * REACH);
}

/// Some screen is the one that a window belongs to, wherever there is one.
pub proof fn law_every_window_belongs_to_a_screen(screens: Seq<Frame>, win: Frame)
    requires
        screens.len() > 0,
    ensures
        belongs_to(screens, win, screen_of(screens, win)),
{
    if exists|i: int| 0 <= i < screens.len() && holds_center(#[trigger] screens[i], win) {
        let i = choose|i: int| 0 <= i < screens.len() && holds_center(#[trigger] screens[i], win);
        let k = lemma_first_holding(screens, win, i);
        assert(belongs_to(screens, win, k));
    } else {
        let k = lemma_nearest(screens, win, screens.len() as int);
        assert(belongs_to(screens, win, k));
    }
}

proof fn lemma_first_holding(screens: Seq<Frame>, win: Frame, i: int) -> (k: int)
    requires
        0 <= i < screens.len(),
        holds_center(screens[i], win),
    ensures
        0 <= k <= i,
        holds_center(screens[k], win),
        forall|j: int| 0 <= j < k ==> !holds_center(#[trigger] screens[j], win),
    decreases i,
{
    if exists|j: int| 0 <= j < i && holds_center(#[trigger] screens[j], win) {
        let j = choose|j: int| 0 <= j < i && holds_center(#[trigger] screens[j], win);
        lemma_first_holding(screens, win, j)
    } else {
        i
    }
}

proof fn lemma_nearest(screens: Seq<Frame>, win: Frame, n: int) -> (k: int)
    requires
        0 < n <= screens.len(),
    ensures
        0 <= k < n,
        forall|i: int|
            0 <= i < n ==> distance(screens[k], win) <= distance(#[trigger] screens[i], win),
        forall|i: int|
            0 <= i < k ==> distance(screens[k], win) < distance(#[trigger] screens[i], win),
    decreases n,
{
    if n == 1 {
        0
    } else {
        let k = lemma_nearest(screens, win, n - 1);
        if distance(screens[n - 1], win) < distance(screens[k], win) {
            n - 1
        } else {
            k
        }
    }
}

proof fn lemma_rescaled_in_reach(from: Frame, to: Frame, win: Frame)
    requires
        in_reach(to),
    ensures
        representable(rescaled(from, to, win)),
{
    let r = rescaled(from, to, win);
    assert(1 <= r.w <= at_least_one(to.w));
    assert(1 <= r.h <= at_least_one(to.h));
    assert(to.x <= r.x <= to.x + at_least_one(to.w));
    assert(to.y <= r.y <= to.y + at_least_one(to.h));
}

proof fn lemma_target_in_reach(a: Action, screens: Seq<Frame>, win: Frame)
    requires
        all_in_reach(screens, win),
        0 <= screen_of(screens, win) < screens.len(),
    ensures
        representable(target(a, screens, win)),
{
    let k = screen_of(screens, win);
    let s = screens[k];
    let n = screens.len() as int;
    match a {
        Action::NextDisplay => {
            cycle::lemma_steps(k, n);
            lemma_rescaled_in_reach(s, screens[(k + 1) % n], win);
        },
        Action::PreviousDisplay => {
            cycle::lemma_steps(k, n);
            lemma_rescaled_in_reach(s, screens[(k - 1) % n], win);
        },
        Action::Center => {
            lemma_quot_bounds(s.w - win.w, 2, 2 * REACH);
            lemma_quot_bounds(s.h - win.h, 2, 2 * REACH);
        },
        _ => {
            lemma_span_in_reach(s.x, s.w, 0, 1, 2);
            lemma_span_in_reach(s.x, s.w, 1, 2, 2);
            lemma_span_in_reach(s.y, s.h, 0, 1, 2);
            lemma_span_in_reach(s.y, s.h, 1, 2, 2);
            lemma_span_in_reach(s.x, s.w, 0, 1, 3);
            lemma_span_in_reach(s.x, s.w, 1, 2, 3);
            lemma_span_in_reach(s.x, s.w, 2, 3, 3);
            lemma_span_in_reach(s.x, s.w, 0, 2, 3);
            lemma_span_in_reach(s.x, s.w, 1, 3, 3);
        },
    }
}

/// Every action can place a window whose frame and screens lie within
/// [`REACH`].
pub proof fn law_windows_in_reach_are_placeable(id: Seq<char>, screens: Seq<Frame>, win: Frame)
    requires
        all_in_reach(screens, win),
    ensures
        placeable(id, screens, win),
{
    if screens.len() > 0 {
        law_every_window_belongs_to_a_screen(screens, win);
        assert forall|i: int| 0 <= i < screens.len() implies distance(#[trigger] screens[i], win)
            <= i64::MAX by {
            lemma_distance_in_reach(screens[i], win);
        }
        assert forall|a: Action| representable(#[trigger] target(a, screens, win)) by {
            lemma_target_in_reach(a, screens, win);
        }
    }
}

/// The target frame for an action id. `None` means an unknown id or no
/// screens.
pub fn compute_target(id: &str, screens: &[Rect], win: Rect) -> (r: Option<Rect>)
    requires
        placeable(id@, views(screens@), win@),
    ensures
        match r {
            Some(f) => screens@.len() > 0 && exists|a: Action|
                action_id(a) == id@ && f@ == #[trigger] target(a, views(screens@), win@),
            None => screens@.len() == 0 || forall|a: Action| action_id(a) != id@,
        },
{
    if screens.len() == 0 {
        return None;
    }
    match action_of(id) {
        Some(a) => {
            assert(representable(target(a, views(screens@), win@)));
            Some(place(a, screens, win))
        },
        None => None,
    }
}

/// The target frame for an action.
pub fn place(a: Action, screens: &[Rect], win: Rect) -> (r: Rect)
    requires
        screens@.len() > 0,
        distances_fit(views(screens@), win@),
        representable(target(a, views(screens@), win@)),
    ensures
        r@ == target(a, views(screens@), win@),
{
    wide_target(a, screens, win).narrow()
}

/// The span of some of the cells of a coarse grid, which wide words always hold.
fn cells(start: i64, len: i64, i: i64, j: i64, n: i64) -> (r: (i128, i128))
    requires
        0 <= i <= 3,
        0 <= j <= 3,
        n > 0,
    ensures
        (r.0 as int, r.1 as int) == spanned(start as int, len as int, i as int, j as int, n as int),
{
    proof {
        let m = 0x8000_0000_0000_0000int;
        lemma_product_bounds(len as int, i as int, m, 3);
        lemma_product_bounds(len as int, j as int, m, 3);
        lemma_quot_bounds(len * i, n as int, m * 3);
        lemma_quot_bounds(len * j, n as int, m * 3);
    }
    wide_span(start, len, i, j, n)
}

/// The target frame for an action, in words that always hold it.
fn wide_target(a: Action, screens: &[Rect], win: Rect) -> (r: WideRect)
    requires
        screens@.len() > 0,
        distances_fit(views(screens@), win@),
    ensures
        r@ == target(a, views(screens@), win@),
{
    match a {
        Action::NextDisplay => {
            return wide_move(screens, win, 1);
        },
        Action::PreviousDisplay => {
            return wide_move(screens, win, -1);
        },
        _ => {},
    }
    let k: usize = screen_index(screens, win);
    let s = screens[k];
    assert(views(screens@)[k as int] == s@);
    let wide: (i128, i128) = (s.x as i128, s.w as i128);
    let tall: (i128, i128) = (s.y as i128, s.h as i128);
    let (xs, ys): ((i128, i128), (i128, i128)) = match a {
        Action::LeftHalf => (cells(s.x, s.w, 0, 1, 2), tall),
        Action::RightHalf => (cells(s.x, s.w, 1, 2, 2), tall),
        Action::TopHalf => (wide, cells(s.y, s.h, 0, 1, 2)),
        Action::BottomHalf => (wide, cells(s.y, s.h, 1, 2, 2)),
        Action::LeftThird => (cells(s.x, s.w, 0, 1, 3), tall),
        Action::CenterThird => (cells(s.x, s.w, 1, 2, 3), tall),
        Action::RightThird => (cells(s.x, s.w, 2, 3, 3), tall),
        Action::LeftTwoThirds => (cells(s.x, s.w, 0, 2, 3), tall),
        Action::RightTwoThirds => (cells(s.x, s.w, 1, 3, 3), tall),
        Action::TopLeftQuarter => (cells(s.x, s.w, 0, 1, 2), cells(s.y, s.h, 0, 1, 2)),
        Action::TopRightQuarter => (cells(s.x, s.w, 1, 2, 2), cells(s.y, s.h, 0, 1, 2)),
        Action::BottomLeftQuarter => (cells(s.x, s.w, 0, 1, 2), cells(s.y, s.h, 1, 2, 2)),
        Action::BottomRightQuarter => (cells(s.x, s.w, 1, 2, 2), cells(s.y, s.h, 1, 2, 2)),
        Action::Maximize => (wide, tall),
        _ => {
            let x: i128 = s.x as i128 + divide(s.w as i128 - win.w as i128, 2);
            let y: i128 = s.y as i128 + divide(s.h as i128 - win.h as i128, 2);
            ((x, win.w as i128), (y, win.h as i128))
        },
    };
    WideRect { x: xs.0, y: ys.0, w: xs.1, h: ys.1 }
}

/// Whether an action can place the window within machine words.
pub fn can_place(id: &str, screens: &[Rect], win: Rect) -> (r: bool)
    ensures
        r == placeable(id@, views(screens@), win@),
{
    if screens.len() == 0 {
        return true;
    }
    let a = match action_of(id) {
        Some(a) => a,
        None => {
            return true;
        },
    };
    let ghost fs = views(screens@);
    assert(fs.len() == screens@.len());
    if !distances_do_fit(screens, win) {
        proof {
            let placed = target(a, fs, win@);
            assert(!placeable(id@, fs, win@));
        }
        return false;
    }
    let fits = wide_target(a, screens, win).fits();
    proof {
        assert forall|b: Action| action_id(b) == id@ implies representable(
            #[trigger] target(b, fs, win@),
        ) == fits by {
            law_action_ids_are_unique(a, b);
        }
        if !fits {
            assert(!representable(target(a, fs, win@)));
        }
    }
    fits
}

/// Whether the distances that decide which screen a window belongs to stay
/// within machine words.
fn distances_do_fit(screens: &[Rect], win: Rect) -> (r: bool)
    ensures
        r == distances_fit(views(screens@), win@),
{
    let ghost fs = views(screens@);
    let (cx, cy) = center_of(win);
    let mut near = true;
    let mut i: usize = 0;
    while i < screens.len()
        invariant
            i <= screens@.len(),
            fs == views(screens@),
            (cx as int, cy as int) == center(win@),
            -0x1_0000_0000_0000_0000 < cx < 0x1_0000_0000_0000_0000,
            -0x1_0000_0000_0000_0000 < cy < 0x1_0000_0000_0000_0000,
            forall|k: int| 0 <= k < i ==> !holds_center(#[trigger] fs[k], win@),
            near ==> forall|k: int| 0 <= k < i ==> distance(#[trigger] fs[k], win@) <= i64::MAX,
            !near ==> exists|k: int|
                0 <= k < screens@.len() && distance(#[trigger] fs[k], win@) > i64::MAX,
        decreases screens@.len() - i,
    {
        let s = screens[i];
        assert(fs[i as int] == s@);
        if s.x as i128 <= cx && cx < s.x as i128 + s.w as i128 && s.y as i128 <= cy && cy < s.y
            as i128 + s.h as i128 {
            assert(holds_center(fs[i as int], win@));
            return true;
        }
        let (sx, sy) = center_of(s);
        if !within_word(sx - cx, sy - cy) {
            near = false;
            assert(distance(fs[i as int], win@) > i64::MAX);
        }
        i = i + 1;
    }
    near
}

/// Whether the sum of two squares stays within a machine word.
fn within_word(dx: i128, dy: i128) -> (r: bool)
    requires
        -0x2_0000_0000_0000_0000 < dx < 0x2_0000_0000_0000_0000,
        -0x2_0000_0000_0000_0000 < dy < 0x2_0000_0000_0000_0000,
    ensures
        r == (dx * dx + dy * dy <= i64::MAX),
{
    let edge: i128 = 0x1_0000_0000;
    proof {
        lemma_square_nonnegative(dx as int);
        lemma_square_nonnegative(dy as int);
        if !(-edge < dx < edge) {
            lemma_square_at_least(dx as int, edge as int);
        }
        if !(-edge < dy < edge) {
            lemma_square_at_least(dy as int, edge as int);
        }
        assert(edge * edge == 0x1_0000_0000_0000_0000) by (nonlinear_arith)
            requires
                edge == 0x1_0000_0000,
        ;
    }
    if dx <= -edge || dx >= edge || dy <= -edge || dy >= edge {
        return false;
    }
    proof {
        lemma_product_bounds(dx as int, dx as int, edge as int, edge as int);
        lemma_product_bounds(dy as int, dy as int, edge as int, edge as int);
    }
    dx * dx + dy * dy <= 0x7fff_ffff_ffff_ffff
}

proof fn lemma_square_at_least(a: int, edge: int)
    by (nonlinear_arith)
    requires
        edge >= 0,
        a <= -edge || a >= edge,
    ensures
        a * a >= edge * edge,
{
}

/// The frame to give the window for an action id, or why there is none.
pub fn placement(id: &str, screens: &[Rect], win: Rect) -> (r: Result<Rect, String>)
    requires
        placeable(id@, views(screens@), win@),
    ensures
        match r {
            Ok(f) => screens@.len() > 0 && exists|a: Action|
                action_id(a) == id@ && f@ == #[trigger] target(a, views(screens@), win@),
            Err(e) => (screens@.len() == 0 || forall|a: Action| action_id(a) != id@) && e@
                == "no target geometry for "@ + id@,
        },
{
    match compute_target(id, screens, win) {
        Some(f) => Ok(f),
        None => Err(text::join("no target geometry for ", id)),
    }
}

/// Every action places a window wherever there is a screen, and by one frame
/// only.
pub proof fn law_every_action_has_one_target(a: Action, b: Action, screens: Seq<Frame>, win: Frame)
    requires
        action_id(a) == action_id(b),
    ensures
        target(a, screens, win) == target(b, screens, win),
{
    law_action_ids_are_unique(a, b);
}

/// The halves share a boundary and fill the screen's width, as do the top and
/// bottom halves its height, whether or not it divides evenly.
pub proof fn law_halves_tile_the_screen(screens: Seq<Frame>, win: Frame)
    ensures
        ({
            let s = screens[screen_of(screens, win)];
            let l = target(Action::LeftHalf, screens, win);
            let r = target(Action::RightHalf, screens, win);
            let t = target(Action::TopHalf, screens, win);
            let b = target(Action::BottomHalf, screens, win);
            &&& l.x == s.x && l.x + l.w == r.x && r.x + r.w == s.x + s.w
            &&& t.y == s.y && t.y + t.h == b.y && b.y + b.h == s.y + s.h
        }),
{
    let s = screens[screen_of(screens, win)];
    law_all_cells_make_the_whole(s.x, s.w, 2);
    law_all_cells_make_the_whole(s.y, s.h, 2);
}

/// The thirds share boundaries and fill the screen's width, and the two-thirds
/// end on the boundaries of the thirds.
pub proof fn law_thirds_tile_the_screen(screens: Seq<Frame>, win: Frame)
    ensures
        ({
            let s = screens[screen_of(screens, win)];
            let l = target(Action::LeftThird, screens, win);
            let c = target(Action::CenterThird, screens, win);
            let r = target(Action::RightThird, screens, win);
            let l2 = target(Action::LeftTwoThirds, screens, win);
            let r2 = target(Action::RightTwoThirds, screens, win);
            &&& l.x == s.x && l.x + l.w == c.x && c.x + c.w == r.x && r.x + r.w == s.x + s.w
            &&& l2.x == l.x && l2.x + l2.w == r.x
            &&& r2.x == c.x && r2.x + r2.w == s.x + s.w
        }),
{
    let s = screens[screen_of(screens, win)];
    law_all_cells_make_the_whole(s.x, s.w, 3);
}

/// The quarters share their boundaries with each other and with the halves,
/// and fill the screen.
pub proof fn law_quarters_tile_the_screen(screens: Seq<Frame>, win: Frame)
    ensures
        ({
            let s = screens[screen_of(screens, win)];
            let tl = target(Action::TopLeftQuarter, screens, win);
            let tr = target(Action::TopRightQuarter, screens, win);
            let bl = target(Action::BottomLeftQuarter, screens, win);
            let br = target(Action::BottomRightQuarter, screens, win);
            let l = target(Action::LeftHalf, screens, win);
            let t = target(Action::TopHalf, screens, win);
            &&& tl.x == s.x && tl.x + tl.w == tr.x && tr.x + tr.w == s.x + s.w
            &&& tl.y == s.y && tl.y + tl.h == bl.y && bl.y + bl.h == s.y + s.h
            &&& (bl.x, bl.w) == (tl.x, tl.w) && (br.x, br.w) == (tr.x, tr.w)
            &&& (tr.y, tr.h) == (tl.y, tl.h) && (br.y, br.h) == (bl.y, bl.h)
            &&& (tl.x, tl.w) == (l.x, l.w) && (tl.y, tl.h) == (t.y, t.h)
        }),
{
    law_halves_tile_the_screen(screens, win);
}

/// A window moved to another display lies on that display as a whole, and has
/// its center there.
pub proof fn law_moved_window_lies_on_the_target(from: Frame, to: Frame, win: Frame)
    requires
        to.w >= 1,
        to.h >= 1,
    ensures
        ({
            let m = rescaled(from, to, win);
            &&& 1 <= m.w && to.x <= m.x && m.x + m.w <= to.x + to.w
            &&& 1 <= m.h && to.y <= m.y && m.y + m.h <= to.y + to.h
            &&& holds_center(to, m)
        }),
{
}

/// A window that fills its display fills the display that it is moved to.
pub proof fn law_filling_window_fills_the_target(from: Frame, to: Frame)
    requires
        from.w >= 1,
        from.h >= 1,
        to.w >= 1,
        to.h >= 1,
    ensures
        rescaled(from, to, from) == to,
{
    let (fw, fh, tw, th) = (from.w, from.h, to.w, to.h);
    assert(fw * tw / fw == tw && fw * tw >= 0) by (nonlinear_arith)
        requires
            fw >= 1,
            tw >= 1,
    ;
    assert(fh * th / fh == th && fh * th >= 0) by (nonlinear_arith)
        requires
            fh >= 1,
            th >= 1,
    ;
    assert(0 * tw == 0 && 0 * th == 0);
    assert(0int / fw == 0 && 0int / fh == 0) by (nonlinear_arith)
        requires
            fw >= 1,
            fh >= 1,
    ;
}

/// One display forward and one back, or all the way round, is the display
/// that one started from.
pub proof fn law_display_steps_wrap_around(i: int, n: int)
    requires
        0 <= i < n,
    ensures
        0 <= (i + 1) % n < n,
        ((i + 1) % n - 1) % n == i,
        (i + n) % n == i,
        i == 0 ==> (i - 1) % n == n - 1,
{
    cycle::lemma_steps(i, n);
    cycle::lemma_steps((i + 1) % n, n);
}

/// Whether a window lies on a screen as a whole.
pub open spec fn lies_on(win: Frame, screen: Frame) -> bool {
    &&& win.w >= 1 && screen.x <= win.x && win.x + win.w <= screen.x + screen.w
    &&& win.h >= 1 && screen.y <= win.y && win.y + win.h <= screen.y + screen.h
}

/// Whether two screens have no point in common.
pub open spec fn apart(a: Frame, b: Frame) -> bool {
    a.x + a.w <= b.x || b.x + b.w <= a.x || a.y + a.h <= b.y || b.y + b.h <= a.y
}

/// Whether all screens are of one size and no two have a point in common.
pub open spec fn all_alike(screens: Seq<Frame>) -> bool {
    &&& forall|i: int, j: int|
        0 <= i < screens.len() && 0 <= j < screens.len() ==> (#[trigger] screens[i]).w == (
        #[trigger] screens[j]).w && screens[i].h == screens[j].h
    &&& forall|i: int, j: int|
        0 <= i < j < screens.len() ==> apart(#[trigger] screens[i], #[trigger] screens[j])
}

/// A window at the same place on another screen as on the one it is on.
pub open spec fn carried(win: Frame, from: Frame, to: Frame) -> Frame {
    Frame { x: to.x + (win.x - from.x), y: to.y + (win.y - from.y), w: win.w, h: win.h }
}

/// Where `moves` moves to the next display in a row lead.
pub open spec fn after_next_moves(screens: Seq<Frame>, win: Frame, moves: nat) -> Frame
    decreases moves,
{
    if moves == 0 {
        win
    } else {
        target(Action::NextDisplay, screens, after_next_moves(screens, win, (moves - 1) as nat))
    }
}

/// A window that lies on one of several screens belongs to that screen.
proof fn lemma_screen_of_lying_window(screens: Seq<Frame>, win: Frame, i: int)
    requires
        all_alike(screens),
        0 <= i < screens.len(),
        lies_on(win, screens[i]),
    ensures
        screen_of(screens, win) == i,
{
    let k = screen_of(screens, win);
    assert(holds_center(screens[i], win));
    law_every_window_belongs_to_a_screen(screens, win);
    assert(belongs_to(screens, win, k));
    assert(holds_center(screens[k], win));
    if k < i {
        assert(apart(screens[k], screens[i]));
    } else if i < k {
        assert(apart(screens[i], screens[k]));
    }
}

/// Scaling between screens of one size changes nothing but the screen.
proof fn lemma_rescaled_between_equals(from: Frame, to: Frame, win: Frame)
    requires
        from.w == to.w,
        from.h == to.h,
        lies_on(win, from),
    ensures
        rescaled(from, to, win) == carried(win, from, to),
        lies_on(carried(win, from, to), to),
{
    lemma_quot_undoes_product(win.w, to.w);
    lemma_quot_undoes_product(win.h, to.h);
    lemma_quot_undoes_product(win.x - from.x, to.w);
    lemma_quot_undoes_product(win.y - from.y, to.h);
}

proof fn lemma_quot_undoes_product(a: int, b: int)
    requires
        a >= 0,
        b >= 1,
    ensures
        quot(a * b, b) == a,
{
    assert(a * b >= 0 && a * b / b == a) by (nonlinear_arith)
        requires
            a >= 0,
            b >= 1,
    ;
}

/// Over screens of one size a move to the next or the previous display keeps a
/// window's size and its place on the screen, and the one move undoes the
/// other.
pub proof fn law_moves_between_equal_displays_are_undone(screens: Seq<Frame>, win: Frame, i: int)
    requires
        all_alike(screens),
        0 <= i < screens.len(),
        lies_on(win, screens[i]),
    ensures
        ({
            let n = screens.len() as int;
            let next = target(Action::NextDisplay, screens, win);
            let previous = target(Action::PreviousDisplay, screens, win);
            &&& next == carried(win, screens[i], screens[(i + 1) % n])
            &&& lies_on(next, screens[(i + 1) % n])
            &&& previous == carried(win, screens[i], screens[(i - 1) % n])
            &&& lies_on(previous, screens[(i - 1) % n])
            &&& target(Action::PreviousDisplay, screens, next) == win
            &&& target(Action::NextDisplay, screens, previous) == win
        }),
{
    let n = screens.len() as int;
    cycle::lemma_steps(i, n);
    let (f, b) = ((i + 1) % n, (i - 1) % n);
    cycle::lemma_steps(f, n);
    cycle::lemma_steps(b, n);
    let (s, t, u) = (screens[i], screens[f], screens[b]);
    assert(s.w == t.w && s.h == t.h && s.w == u.w && s.h == u.h);
    lemma_screen_of_lying_window(screens, win, i);
    lemma_rescaled_between_equals(s, t, win);
    lemma_rescaled_between_equals(s, u, win);
    let next = carried(win, s, t);
    let previous = carried(win, s, u);
    lemma_screen_of_lying_window(screens, next, f);
    lemma_screen_of_lying_window(screens, previous, b);
    lemma_rescaled_between_equals(t, s, next);
    lemma_rescaled_between_equals(u, s, previous);
    assert((f - 1) % n == i && (b + 1) % n == i);
}

/// Over screens of one size as many moves to the next display as there are
/// screens give the window back; fewer carry it that many screens on.
pub proof fn law_a_round_of_equal_displays_gives_the_window_back(
    screens: Seq<Frame>,
    win: Frame,
    i: int,
    moves: nat,
)
    requires
        all_alike(screens),
        0 <= i < screens.len(),
        lies_on(win, screens[i]),
    ensures
        after_next_moves(screens, win, moves) == carried(
            win,
            screens[i],
            screens[(i + moves) % (screens.len() as int)],
        ),
        lies_on(
            after_next_moves(screens, win, moves),
            screens[(i + moves) % (screens.len() as int)],
        ),
        after_next_moves(screens, win, screens.len()) == win,
{
    lemma_after_next_moves(screens, win, i, moves);
    lemma_after_next_moves(screens, win, i, screens.len());
    cycle::lemma_steps(i, screens.len() as int);
}

proof fn lemma_after_next_moves(screens: Seq<Frame>, win: Frame, i: int, moves: nat)
    requires
        all_alike(screens),
        0 <= i < screens.len(),
        lies_on(win, screens[i]),
    ensures
        after_next_moves(screens, win, moves) == carried(
            win,
            screens[i],
            screens[(i + moves) % (screens.len() as int)],
        ),
        lies_on(
            after_next_moves(screens, win, moves),
            screens[(i + moves) % (screens.len() as int)],
        ),
    decreases moves,
{
    let n = screens.len() as int;
    if moves == 0 {
        vstd::arithmetic::div_mod::lemma_small_mod(i as nat, n as nat);
    } else {
        let before = (moves - 1) as nat;
        lemma_after_next_moves(screens, win, i, before);
        cycle::lemma_one_more(i, before as int, n);
        let k = (i + before) % n;
        law_moves_between_equal_displays_are_undone(
            screens,
            after_next_moves(screens, win, before),
            k,
        );
    }
}

/// Whether two coordinates are within the tolerance of a couple of points.
pub open spec fn close(a: int, b: int) -> bool {
    -2 <= a - b <= 2
}

/// Whether a frame sits within a couple of points of another on every edge.
pub open spec fn landed(observed: Frame, wanted: Frame) -> bool {
    close(observed.x, wanted.x) && close(observed.y, wanted.y) && close(observed.w, wanted.w)
        && close(observed.h, wanted.h)
}

fn near(a: i64, b: i64) -> (r: bool)
    ensures
        r == close(a as int, b as int),
{
    let d: i128 = a as i128 - b as i128;
    -2 <= d && d <= 2
}

/// Whether the frame read back from a window is the one asked for, within a
/// couple of points. A frame that could not be read does not match.
pub fn frame_matches(observed: Option<Rect>, wanted: Rect) -> (r: bool)
    ensures
        r == (observed matches Some(f) && landed(f@, wanted@)),
{
    match observed {
        Some(f) => near(f.x, wanted.x) && near(f.y, wanted.y) && near(f.w, wanted.w) && near(
            f.h,
            wanted.h,
        ),
        None => false,
    }
}

/// What to do to a window next while a target frame is applied to it.
#[derive(Clone, Copy, Debug, PartialEq, Eq, Structural)]
pub enum ApplyStep {
    /// Write the target's origin.
    SetPosition,
    /// Write the target's size.
    SetSize,
    /// Read the frame back.
    ReadFrame,
}

/// How far the application of a target frame has come. Position comes first
/// so that a move across displays lands before the resize, then the size,
/// then the position once more. The first pass is judged by the frame read
/// back, not by its writes; the second pass stops at the first refusal.
#[derive(Clone, Copy, Debug, PartialEq, Eq, Structural)]
pub enum ApplyStage {
    Move,
    Resize,
    MoveAgain,
    Judge,
    RetryMove,
    RetryResize,
    RetryMoveAgain,
}

/// The step that a stage asks for.
pub open spec fn step_of(stage: ApplyStage) -> ApplyStep {
    match stage {
        ApplyStage::Move | ApplyStage::MoveAgain | ApplyStage::RetryMove
        | ApplyStage::RetryMoveAgain => ApplyStep::SetPosition,
        ApplyStage::Resize | ApplyStage::RetryResize => ApplyStep::SetSize,
        ApplyStage::Judge => ApplyStep::ReadFrame,
    }
}

impl ApplyStage {
    /// The step that this stage asks for.
    pub fn step(self) -> (r: ApplyStep)
        ensures
            r == step_of(self),
    {
        match self {
            ApplyStage::Move
            | ApplyStage::MoveAgain
            | ApplyStage::RetryMove
            | ApplyStage::RetryMoveAgain => ApplyStep::SetPosition,
            ApplyStage::Resize | ApplyStage::RetryResize => ApplyStep::SetSize,
            ApplyStage::Judge => ApplyStep::ReadFrame,
        }
    }
}

/// What came of a step: how a write went, or the frame that was read.
#[derive(Debug, PartialEq, Eq)]
pub enum ApplyEvent {
    Wrote(Result<(), String>),
    Read(Option<Rect>),
}

/// The stage after a step, or the outcome where no further step follows. A
/// failed write ends the second pass and passes unnoticed in the first; an
/// event that does not answer the stage's step counts as a frame that could
/// not be read, or as a write that went through.
pub open spec fn apply_next(
    stage: ApplyStage,
    event: ApplyEvent,
    wanted: Frame,
) -> Result<ApplyStage, Result<(), String>> {
    let refusal: Option<String> = match event {
        ApplyEvent::Wrote(Err(e)) => Some(e),
        _ => None,
    };
    match stage {
        ApplyStage::Move => Ok(ApplyStage::Resize),
        ApplyStage::Resize => Ok(ApplyStage::MoveAgain),
        ApplyStage::MoveAgain => Ok(ApplyStage::Judge),
        ApplyStage::Judge => match event {
            ApplyEvent::Read(Some(f)) if landed(f@, wanted) => Err(Ok(())),
            _ => Ok(ApplyStage::RetryMove),
        },
        ApplyStage::RetryMove => match refusal {
            Some(e) => Err(Err(e)),
            None => Ok(ApplyStage::RetryResize),
        },
        ApplyStage::RetryResize => match refusal {
            Some(e) => Err(Err(e)),
            None => Ok(ApplyStage::RetryMoveAgain),
        },
        ApplyStage::RetryMoveAgain => match refusal {
            Some(e) => Err(Err(e)),
            None => Err(Ok(())),
        },
    }
}

/// Goes on with the application of `wanted` after a step. `Err` carries the
/// outcome once it is decided.
pub fn apply(stage: ApplyStage, event: ApplyEvent, wanted: Rect) -> (r: Result<
    ApplyStage,
    Result<(), String>,
>)
    ensures
        r == apply_next(stage, event, wanted@),
{
    match stage {
        ApplyStage::Move => Ok(ApplyStage::Resize),
        ApplyStage::Resize => Ok(ApplyStage::MoveAgain),
        ApplyStage::MoveAgain => Ok(ApplyStage::Judge),
        ApplyStage::Judge => {
            let observed = match event {
                ApplyEvent::Read(f) => f,
                ApplyEvent::Wrote(_) => None,
            };
            if frame_matches(observed, wanted) {
                Err(Ok(()))
            } else {
                Ok(ApplyStage::RetryMove)
            }
        },
        ApplyStage::RetryMove => match event {
            ApplyEvent::Wrote(Err(e)) => Err(Err(e)),
            _ => Ok(ApplyStage::RetryResize),
        },
        ApplyStage::RetryResize => match event {
            ApplyEvent::Wrote(Err(e)) => Err(Err(e)),
            _ => Ok(ApplyStage::RetryMoveAgain),
        },
        ApplyStage::RetryMoveAgain => match event {
            ApplyEvent::Wrote(Err(e)) => Err(Err(e)),
            _ => Err(Ok(())),
        },
    }
}

/// Whatever its three writes report, the first pass moves, resizes and moves
/// again, and then reads the frame back; a frame that landed ends it well.
pub proof fn law_first_pass_is_never_cut_short(
    a: ApplyEvent,
    b: ApplyEvent,
    c: ApplyEvent,
    f: Rect,
    wanted: Frame,
)
    ensures
        step_of(ApplyStage::Move) is SetPosition,
        apply_next(ApplyStage::Move, a, wanted) == Ok::<ApplyStage, Result<(), String>>(
            ApplyStage::Resize,
        ),
        step_of(ApplyStage::Resize) is SetSize,
        apply_next(ApplyStage::Resize, b, wanted) == Ok::<ApplyStage, Result<(), String>>(
            ApplyStage::MoveAgain,
        ),
        step_of(ApplyStage::MoveAgain) is SetPosition,
        apply_next(ApplyStage::MoveAgain, c, wanted) == Ok::<ApplyStage, Result<(), String>>(
            ApplyStage::Judge,
        ),
        step_of(ApplyStage::Judge) is ReadFrame,
        landed(f@, wanted) <==> apply_next(ApplyStage::Judge, ApplyEvent::Read(Some(f)), wanted)
            == Err::<ApplyStage, Result<(), String>>(Ok(())),
{
}

/// Centering keeps a window's size and leaves margins to the edges of the screen
/// that the window belongs to that differ by one point at most, the larger one
/// right and below where the window is smaller than the screen. A window no
/// larger than its screen lies on it afterwards, wherever the screen lies.
pub proof fn law_centering_leaves_even_margins(screens: Seq<Frame>, win: Frame)
    ensures
        ({
            let s = screens[screen_of(screens, win)];
            let t = target(Action::Center, screens, win);
            let (left, right) = (t.x - s.x, s.x + s.w - t.x - t.w);
            let (above, below) = (t.y - s.y, s.y + s.h - t.y - t.h);
            &&& t.w == win.w && t.h == win.h
            &&& -1 <= left - right <= 1 && -1 <= above - below <= 1
            &&& win.w <= s.w ==> 0 <= left <= right
            &&& win.h <= s.h ==> 0 <= above <= below
        }),
{
}

/// Halves and thirds side by side take the screen's whole height, and halves one
/// above the other its whole width. Maximizing takes all of the screen.
pub proof fn law_strips_take_the_whole_of_the_other_side(screens: Seq<Frame>, win: Frame)
    ensures
        ({
            let s = screens[screen_of(screens, win)];
            let upright = |a: Action|
                target(a, screens, win).y == s.y && target(a, screens, win).h == s.h;
            &&& upright(Action::LeftHalf) && upright(Action::RightHalf)
            &&& upright(Action::LeftThird) && upright(Action::CenterThird)
            &&& upright(Action::RightThird)
            &&& upright(Action::LeftTwoThirds) && upright(Action::RightTwoThirds)
            &&& target(Action::TopHalf, screens, win).x == s.x
            &&& target(Action::TopHalf, screens, win).w == s.w
            &&& target(Action::BottomHalf, screens, win).x == s.x
            &&& target(Action::BottomHalf, screens, win).w == s.w
            &&& target(Action::Maximize, screens, win) == s
        }),
{
}

/// The halves of a screen are as long as each other, and so are its thirds, but
/// for one point at most; two thirds are as long as two of the thirds together.
pub proof fn law_halves_and_thirds_are_even(screens: Seq<Frame>, win: Frame)
    requires
        screens[screen_of(screens, win)].w >= 0,
        screens[screen_of(screens, win)].h >= 0,
    ensures
        ({
            let s = screens[screen_of(screens, win)];
            let l = target(Action::LeftHalf, screens, win);
            let r = target(Action::RightHalf, screens, win);
            let t = target(Action::TopHalf, screens, win);
            let b = target(Action::BottomHalf, screens, win);
            let one = target(Action::LeftThird, screens, win);
            let two = target(Action::CenterThird, screens, win);
            let three = target(Action::RightThird, screens, win);
            let first = target(Action::LeftTwoThirds, screens, win);
            let last = target(Action::RightTwoThirds, screens, win);
            &&& l.w <= r.w <= l.w + 1 && l.w + r.w == s.w
            &&& t.h <= b.h <= t.h + 1 && t.h + b.h == s.h
            &&& one.w <= two.w <= one.w + 1 && one.w <= three.w <= one.w + 1
            &&& one.w + two.w + three.w == s.w
            &&& first.w == one.w + two.w && last.w == two.w + three.w
        }),
{
    let s = screens[screen_of(screens, win)];
    law_the_last_cell_absorbs_the_remainder(s.x, s.w, 0, 2);
    law_the_last_cell_absorbs_the_remainder(s.x, s.w, 1, 2);
    law_the_last_cell_absorbs_the_remainder(s.y, s.h, 0, 2);
    law_the_last_cell_absorbs_the_remainder(s.y, s.h, 1, 2);
    law_the_last_cell_absorbs_the_remainder(s.x, s.w, 0, 3);
    law_the_last_cell_absorbs_the_remainder(s.x, s.w, 1, 3);
    law_the_last_cell_absorbs_the_remainder(s.x, s.w, 2, 3);
    law_halves_tile_the_screen(screens, win);
    law_thirds_tile_the_screen(screens, win);
}

/// Of two windows on the same screen every action but centering and the moves
/// between displays makes the same frame.
pub proof fn law_only_the_screen_counts(a: Action, screens: Seq<Frame>, v: Frame, w: Frame)
    requires
        screen_of(screens, v) == screen_of(screens, w),
        a !is Center,
        a !is NextDisplay,
        a !is PreviousDisplay,
    ensures
        target(a, screens, v) == target(a, screens, w),
{
}

/// A move goes from the screen that the window belongs to onto the one after it,
/// or the one before it, and round at the ends; the window then lies there as a
/// whole.
pub proof fn law_moves_go_to_the_neighbouring_display(screens: Seq<Frame>, win: Frame)
    requires
        screens.len() > 0,
        forall|i: int|
            0 <= i < screens.len() ==> (#[trigger] screens[i]).w >= 1 && screens[i].h >= 1,
    ensures
        ({
            let k = screen_of(screens, win);
            let n = screens.len() as int;
            let after = if k == n - 1 {
                0
            } else {
                k + 1
            };
            let before = if k == 0 {
                n - 1
            } else {
                k - 1
            };
            &&& 0 <= k < n
            &&& lies_on(target(Action::NextDisplay, screens, win), screens[after])
            &&& lies_on(target(Action::PreviousDisplay, screens, win), screens[before])
        }),
{
    law_every_window_belongs_to_a_screen(screens, win);
    let k = screen_of(screens, win);
    let n = screens.len() as int;
    cycle::lemma_steps(k, n);
    if k < n - 1 {
        vstd::arithmetic::div_mod::lemma_small_mod((k + 1) as nat, n as nat);
    }
    if k > 0 {
        vstd::arithmetic::div_mod::lemma_small_mod((k - 1) as nat, n as nat);
    }
    law_moved_window_lies_on_the_target(screens[k], screens[(k + 1) % n], win);
    law_moved_window_lies_on_the_target(screens[k], screens[(k - 1) % n], win);
}

/// Whether a length or an offset on one display is that on another in proportion
/// to the displays' sizes, rounded down.
pub open spec fn in_proportion(there: int, to: int, here: int, from: int) -> bool {
    there * from <= here * to < there * from + from
}

/// A window that lies on its display keeps its place and its size in proportion
/// on another one, rounded down to whole points, and is never less than one
/// point wide or high.
pub proof fn law_moved_windows_keep_their_proportions(from: Frame, to: Frame, win: Frame)
    requires
        lies_on(win, from),
        to.w >= 1,
        to.h >= 1,
    ensures
        ({
            let m = rescaled(from, to, win);
            &&& in_proportion(m.w, to.w, win.w, from.w) || (m.w == 1 && win.w * to.w < from.w)
            &&& in_proportion(m.h, to.h, win.h, from.h) || (m.h == 1 && win.h * to.h < from.h)
            &&& in_proportion(m.x - to.x, to.w, win.x - from.x, from.w) || m.x + m.w == to.x + to.w
            &&& in_proportion(m.y - to.y, to.h, win.y - from.y, from.h) || m.y + m.h == to.y + to.h
        }),
{
    lemma_axis_in_proportion(win.w, to.w, from.w);
    lemma_axis_in_proportion(win.h, to.h, from.h);
    lemma_axis_in_proportion(win.x - from.x, to.w, from.w);
    lemma_axis_in_proportion(win.y - from.y, to.h, from.h);
}

proof fn lemma_axis_in_proportion(here: int, to: int, from: int)
    requires
        0 <= here <= from,
        to >= 1,
        from >= 1,
    ensures
        0 <= quot(here * to, from) <= to,
        in_proportion(quot(here * to, from), to, here, from),
        quot(here * to, from) < 1 ==> here * to < from,
{
    assert(0 <= here * to <= from * to) by (nonlinear_arith)
        requires
            0 <= here <= from,
            to >= 1,
    ;
    let q = here * to / from;
    vstd::arithmetic::div_mod::lemma_fundamental_div_mod(here * to, from);
    assert(q * from == from * q && (q == 0 ==> from * q == 0)) by (nonlinear_arith);
    assert(0 <= q <= to) by (nonlinear_arith)
        requires
            here * to == from * q + here * to % from,
            0 <= here * to % from < from,
            0 <= here * to <= from * to,
            from >= 1,
    ;
}

/// A window belongs to the first screen that contains its middle. Where none
/// does it belongs to the first of those whose middle is nearest.
pub proof fn law_windows_belong_where_their_middle_is(screens: Seq<Frame>, win: Frame, i: int)
    requires
        win.w >= 0,
        win.h >= 0,
        0 <= i < screens.len(),
        forall|j: int|
            0 <= j < screens.len() ==> (#[trigger] screens[j]).w >= 0 && screens[j].h >= 0,
    ensures
        ({
            let (x, y) = (win.x + win.w / 2, win.y + win.h / 2);
            let inside = |f: Frame| f.x <= x < f.x + f.w && f.y <= y < f.y + f.h;
            let away = |f: Frame|
                {
                    let (dx, dy) = (f.x + f.w / 2 - x, f.y + f.h / 2 - y);
                    dx * dx + dy * dy
                };
            let k = screen_of(screens, win);
            &&& 0 <= k < screens.len()
            &&& inside(screens[i]) ==> inside(screens[k]) && k <= i
            &&& !inside(screens[k]) && i < k ==> away(screens[k]) < away(screens[i])
            &&& !inside(screens[k]) ==> away(screens[k]) <= away(screens[i])
        }),
{
    law_every_window_belongs_to_a_screen(screens, win);
    let k = screen_of(screens, win);
    assert(belongs_to(screens, win, k));
    let (held, far) = (holds_center(screens[i], win), distance(screens[i], win));
}

/// Flipping turns the gap above a rect into the gap below it, and changes nothing
/// else.
pub proof fn law_flipping_swaps_the_gaps(primary_height: int, f: Frame)
    ensures
        ({
            let t = flipped(primary_height, f);
            &&& t.x == f.x && t.w == f.w && t.h == f.h
            &&& t.y == primary_height - (f.y + f.h)
            &&& primary_height - (t.y + t.h) == f.y
        }),
{
}

/// A window has landed where no edge coordinate and no length is more than two
/// points off.
pub proof fn law_two_points_are_forgiven(o: Frame, w: Frame)
    ensures
        landed(o, w) <==> -2 <= o.x - w.x <= 2 && -2 <= o.y - w.y <= 2 && -2 <= o.w - w.w <= 2 && -2
            <= o.h - w.h <= 2,
{
}

/// The second pass moves, resizes and moves again. A write that is refused ends
/// it with the refusal, and it ends well where none is.
pub proof fn law_second_pass_stops_at_the_first_refusal(
    stage: ApplyStage,
    e: String,
    f: Option<Rect>,
    wanted: Frame,
)
    requires
        stage is RetryMove || stage is RetryResize || stage is RetryMoveAgain,
        f matches Some(r) ==> !landed(r@, wanted),
    ensures
        apply_next(ApplyStage::Judge, ApplyEvent::Read(f), wanted) == Ok::<
            ApplyStage,
            Result<(), String>,
        >(ApplyStage::RetryMove),
        apply_next(stage, ApplyEvent::Wrote(Err(e)), wanted) == Err::<
            ApplyStage,
            Result<(), String>,
        >(Err(e)),
        step_of(ApplyStage::RetryMove) is SetPosition,
        step_of(ApplyStage::RetryResize) is SetSize,
        step_of(ApplyStage::RetryMoveAgain) is SetPosition,
        ({
            let went = ApplyEvent::Wrote(Ok(()));
            &&& apply_next(ApplyStage::RetryMove, went, wanted) == Ok::<
                ApplyStage,
                Result<(), String>,
            >(ApplyStage::RetryResize)
            &&& apply_next(ApplyStage::RetryResize, went, wanted) == Ok::<
                ApplyStage,
                Result<(), String>,
            >(ApplyStage::RetryMoveAgain)
            &&& apply_next(ApplyStage::RetryMoveAgain, went, wanted) matches Err(Ok(_))
        }),
{
}

/// The id of a window action spells its title: small letters, with hyphens for
/// the spaces. Every action is listed once under both.
pub proof fn law_action_ids_spell_their_titles(a: Action)
    ensures
        action_id(a) == "window."@ + action_title(a).skip(8).map_values(
            |c: char|
                if c == ' ' {
                    '-'
                } else {
                    text::ascii_lower(c)
                },
        ),
        "Window: "@.is_prefix_of(action_title(a)),
        actions().contains(a),
        actions().no_duplicates(),
{
    reveal_strlit("window.");
    reveal_strlit("Window: ");
    reveal_strlit("window.left-half");
    reveal_strlit("window.right-half");
    reveal_strlit("window.top-half");
    reveal_strlit("window.bottom-half");
    reveal_strlit("window.left-third");
    reveal_strlit("window.center-third");
    reveal_strlit("window.right-third");
    reveal_strlit("window.left-two-thirds");
    reveal_strlit("window.right-two-thirds");
    reveal_strlit("window.top-left-quarter");
    reveal_strlit("window.top-right-quarter");
    reveal_strlit("window.bottom-left-quarter");
    reveal_strlit("window.bottom-right-quarter");
    reveal_strlit("window.maximize");
    reveal_strlit("window.center");
    reveal_strlit("window.next-display");
    reveal_strlit("window.previous-display");
    reveal_strlit("Window: Left Half");
    reveal_strlit("Window: Right Half");
    reveal_strlit("Window: Top Half");
    reveal_strlit("Window: Bottom Half");
    reveal_strlit("Window: Left Third");
    reveal_strlit("Window: Center Third");
    reveal_strlit("Window: Right Third");
    reveal_strlit("Window: Left Two Thirds");
    reveal_strlit("Window: Right Two Thirds");
    reveal_strlit("Window: Top Left Quarter");
    reveal_strlit("Window: Top Right Quarter");
    reveal_strlit("Window: Bottom Left Quarter");
    reveal_strlit("Window: Bottom Right Quarter");
    reveal_strlit("Window: Maximize");
    reveal_strlit("Window: Center");
    reveal_strlit("Window: Next Display");
    reveal_strlit("Window: Previous Display");
    let spelled = "window."@ + action_title(a).skip(8).map_values(
        |c: char|
            if c == ' ' {
                '-'
            } else {
                text::ascii_lower(c)
            },
    );
    assert(action_id(a) =~= spelled);
    assert("Window: "@ =~= action_title(a).subrange(0, 8));
    let all = actions();
    assert(exists|i: int| 0 <= i < all.len() && all[i] == a) by {
        assert(all[0] is LeftHalf && all[1] is RightHalf && all[2] is TopHalf && all[3]
            is BottomHalf && all[4] is LeftThird && all[5] is CenterThird && all[6] is RightThird
            && all[7] is LeftTwoThirds && all[8] is RightTwoThirds && all[9] is TopLeftQuarter
            && all[10] is TopRightQuarter && all[11] is BottomLeftQuarter && all[12]
            is BottomRightQuarter && all[13] is Maximize && all[14] is Center && all[15]
            is NextDisplay && all[16] is PreviousDisplay);
    }
}

/// A frame can be held exactly where none of its four numbers exceeds a machine
/// word.
pub proof fn law_frames_fit_machine_words(f: Frame)
    ensures
        representable(f) <==> {
            &&& -0x8000_0000_0000_0000 <= f.x <= 0x7fff_ffff_ffff_ffff
            &&& -0x8000_0000_0000_0000 <= f.y <= 0x7fff_ffff_ffff_ffff
            &&& -0x8000_0000_0000_0000 <= f.w <= 0x7fff_ffff_ffff_ffff
            &&& -0x8000_0000_0000_0000 <= f.h <= 0x7fff_ffff_ffff_ffff
        },
{
}

/// A window can be placed by an action exactly where no screen is known, or the
/// distances to the screens that are compared and the target fit machine words.
pub proof fn law_actions_place_what_fits(a: Action, screens: Seq<Frame>, win: Frame)
    ensures
        placeable(action_id(a), screens, win) <==> screens.len() == 0 || (distances_fit(
            screens,
            win,
        ) && representable(target(a, screens, win))),
{
    if screens.len() > 0 && distances_fit(screens, win) && representable(target(a, screens, win)) {
        assert forall|b: Action|
            action_id(b) == action_id(a) && screens.len() > 0 implies distances_fit(screens, win)
            && representable(#[trigger] target(b, screens, win)) by {
            law_action_ids_are_unique(a, b);
        }
    }
    if placeable(action_id(a), screens, win) && screens.len() > 0 {
        assert(representable(target(a, screens, win)));
    }
}

/// Every action has one row, under its own id and title.
pub proof fn law_every_action_has_its_row(i: int)
    requires
        0 <= i < actions().len(),
    ensures
        listing().len() == actions().len(),
        listing()[i].id == action_id(actions()[i]),
        listing()[i].title == action_title(actions()[i]),
        listing()[i].subtitle == "Window management"@,
        listing()[i].kind == ItemKind::SystemCommand,
{
}

/// Distances are compared only where no screen holds the window's middle, and
/// then every screen's counts.
pub proof fn law_distances_count_away_from_all_screens(screens: Seq<Frame>, win: Frame, i: int)
    requires
        0 <= i < screens.len(),
    ensures
        holds_center(screens[i], win) ==> distances_fit(screens, win),
        distances_fit(screens, win) && distance(screens[i], win) > 0x7fff_ffff_ffff_ffff ==> exists|
            j: int,
        |
            0 <= j < screens.len() && holds_center(#[trigger] screens[j], win),
        (forall|j: int|
            0 <= j < screens.len() ==> distance(#[trigger] screens[j], win)
                <= 0x7fff_ffff_ffff_ffff) ==> distances_fit(screens, win),
{
}

} // verus!
