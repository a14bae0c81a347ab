//! The launcher panel's window: its style, and when it is shown and hidden.

use vstd::prelude::*;

verus! {

/// The style of a window without a border.
pub const STYLE_BORDERLESS: usize = 0;

/// The style of a panel that takes the keyboard without activating its app.
pub const STYLE_NONACTIVATING_PANEL: usize = 128;

/// A window that is drawn through a buffer.
pub const BACKING_BUFFERED: usize = 2;

/// The level above normal windows and below the menu bar.
pub const LEVEL_FLOATING: isize = 3;

/// A window that follows the user to every space.
pub const COLLECTION_CAN_JOIN_ALL_SPACES: usize = 1;

/// A window that may stand beside an app in full screen.
pub const COLLECTION_FULL_SCREEN_AUXILIARY: usize = 256;

/// A field without a ring around it when it has the keyboard.
pub const FOCUS_RING_NONE: usize = 1;

/// What is known of the panel's window.
#[derive(Clone, Copy, Debug, PartialEq, Eq, Structural)]
pub enum Window {
    /// It was not made yet.
    Missing,
    Hidden,
    Visible,
}

/// What becomes of the panel's window.
#[derive(Clone, Copy, Debug, PartialEq, Eq, Structural)]
pub enum Move {
    Stay,
    Show,
    Hide,
}

/// Whether the panel can be seen.
pub fn is_visible(window: Window) -> (r: bool)
    ensures
        r == (window == Window::Visible),
{
    match window {
        Window::Visible => true,
        _ => false,
    }
}

/// Shows the panel; before it was made nothing happens.
pub fn show(window: Window) -> (r: Move)
    ensures
        r == (if window == Window::Missing {
            Move::Stay
        } else {
            Move::Show
        }),
{
    match window {
        Window::Missing => Move::Stay,
        _ => Move::Show,
    }
}

/// Hides the panel where it can be seen.
pub fn dismiss(window: Window) -> (r: Move)
    ensures
        r == (if window == Window::Visible {
            Move::Hide
        } else {
            Move::Stay
        }),
{
    if is_visible(window) {
        Move::Hide
    } else {
        Move::Stay
    }
}

/// Hides the panel where it can be seen, and shows it where it cannot.
pub fn toggle(window: Window) -> (r: Move)
    ensures
        r == (match window {
            Window::Missing => Move::Stay,
            Window::Hidden => Move::Show,
            Window::Visible => Move::Hide,
        }),
{
    if is_visible(window) {
        dismiss(window)
    } else {
        show(window)
    }
}

/// The window after a move.
pub open spec fn moved(window: Window, m: Move) -> Window {
    match m {
        Move::Stay => window,
        Move::Show => Window::Visible,
        Move::Hide => Window::Hidden,
    }
}

/// Which move [`toggle`] makes.
pub open spec fn toggled(window: Window) -> Window {
    moved(
        window,
        match window {
            Window::Missing => Move::Stay,
            Window::Hidden => Move::Show,
            Window::Visible => Move::Hide,
        },
    )
}

/// Toggling twice leaves the panel as it was.
pub proof fn law_toggling_twice_changes_nothing(window: Window)
    ensures
        toggled(toggled(window)) == window,
{
}

/// What the summoning key does.
#[derive(Clone, Copy, Debug, PartialEq, Eq, Structural)]
pub enum Press {
    Hide,
    Summon,
}

/// The summoning key hides the panel where it can be seen; otherwise the panel
/// comes up afresh.
pub fn hotkey_pressed(window: Window) -> (r: Press)
    ensures
        r == (if window == Window::Visible {
            Press::Hide
        } else {
            Press::Summon
        }),
{
    if is_visible(window) {
        Press::Hide
    } else {
        Press::Summon
    }
}

/// Toggling shows a hidden panel and hides one that can be seen, and makes none
/// where there is none.
pub proof fn law_toggling_shows_and_hides()
    ensures
        toggled(Window::Hidden) == Window::Visible,
        toggled(Window::Visible) == Window::Hidden,
        toggled(Window::Missing) == Window::Missing,
        forall|w: Window| #[trigger] moved(w, Move::Stay) == w,
        forall|w: Window| #[trigger] moved(w, Move::Show) == Window::Visible,
        forall|w: Window| #[trigger] moved(w, Move::Hide) == Window::Hidden,
{
}

} // verus!
