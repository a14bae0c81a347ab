//! The keyboard-driven results list: what the table shows, which row the
//! arrow keys move to, and what a key command means.
//!
//! Up and Down move the selection, which wraps at the ends; Return activates
//! the selected row; Escape hides the panel.

use crate::cycle;
use crate::text;
use crate::theme::RowStyle;
use vstd::prelude::*;

verus! {

/// One row of the results list.
#[derive(Clone, Debug, Default, PartialEq, Eq)]
pub struct RowData {
    pub title: String,
    pub subtitle: String,
}

/// What a [`RowData`] holds.
#[verifier::ext_equal]
pub struct RowView {
    pub title: Seq<char>,
    pub subtitle: Seq<char>,
}

impl View for RowData {
    type V = RowView;

    open spec fn view(&self) -> RowView {
        RowView { title: self.title@, subtitle: self.subtitle@ }
    }
}

impl RowData {
    /// A row with the given texts.
    pub fn new(title: &str, subtitle: &str) -> (r: RowData)
        ensures
            r@ == (RowView { title: title@, subtitle: subtitle@ }),
    {
        RowData { title: text::copy(title), subtitle: text::copy(subtitle) }
    }

    /// A copy of the row.
    pub fn copied(&self) -> (r: RowData)
        ensures
            r == *self,
    {
        RowData { title: self.title.clone(), subtitle: self.subtitle.clone() }
    }
}

/// The list's contents and its two callback slots. `Q` is called with the
/// query on every edit, `A` with the selected index on Return.
pub struct List<Q, A> {
    pub rows: Vec<RowData>,
    pub on_query_changed: Option<Q>,
    pub on_activate: Option<A>,
}

impl<Q, A> List<Q, A> {
    /// An empty list without callbacks.
    pub fn new() -> (r: List<Q, A>)
        ensures
            r.rows@.len() == 0,
            r.on_query_changed is None,
            r.on_activate is None,
    {
        List { rows: Vec::new(), on_query_changed: None, on_activate: None }
    }

    /// Replaces the list contents. The result is the row to select: the first,
    /// or none where the list is empty.
    pub fn set_items(&mut self, rows: Vec<RowData>) -> (r: Option<usize>)
        ensures
            final(self).rows == rows,
            final(self).on_query_changed == old(self).on_query_changed,
            final(self).on_activate == old(self).on_activate,
            r == (if rows@.len() == 0 {
                None
            } else {
                Some(0usize)
            }),
    {
        let first: Option<usize> = if rows.len() == 0 {
            None
        } else {
            Some(0)
        };
        self.rows = rows;
        first
    }

    /// Registers the query callback, in place of any earlier one.
    pub fn set_on_query_changed(&mut self, cb: Q)
        ensures
            final(self).on_query_changed == Some(cb),
            final(self).rows == old(self).rows,
            final(self).on_activate == old(self).on_activate,
    {
        self.on_query_changed = Some(cb);
    }

    /// Registers the activation callback, in place of any earlier one.
    pub fn set_on_activate(&mut self, cb: A)
        ensures
            final(self).on_activate == Some(cb),
            final(self).rows == old(self).rows,
            final(self).on_query_changed == old(self).on_query_changed,
    {
        self.on_activate = Some(cb);
    }

    /// The call to make after an edit: the query callback, if there is one,
    /// with the field's text.
    pub fn notify_query_changed(&self, query: String) -> (r: Option<(&Q, String)>)
        ensures
            r == (match self.on_query_changed {
                Some(cb) => Some((&cb, query)),
                None => None,
            }),
    {
        match &self.on_query_changed {
            Some(cb) => Some((cb, query)),
            None => None,
        }
    }

    /// The call to make on Return: the activation callback, if there is one,
    /// with the selected row, if one is selected. A negative row number means
    /// that none is.
    pub fn activate_selected(&self, selected_row: isize) -> (r: Option<(&A, usize)>)
        ensures
            r == (match self.on_activate {
                Some(cb) if selected_row >= 0 => Some((&cb, selected_row as usize)),
                _ => None,
            }),
    {
        match selected_index(selected_row) {
            Some(i) => match &self.on_activate {
                Some(cb) => Some((cb, i)),
                None => None,
            },
            None => None,
        }
    }

    /// A copy of the row at `index`, or none past the end.
    pub fn row_at(&self, index: usize) -> (r: Option<RowData>)
        ensures
            r == (if index < self.rows@.len() {
                Some(self.rows@[index as int])
            } else {
                None
            }),
    {
        if index < self.rows.len() {
            Some(self.rows[index].copied())
        } else {
            None
        }
    }

    /// The number of rows.
    pub fn row_count(&self) -> (r: usize)
        ensures
            r == self.rows@.len(),
    {
        self.rows.len()
    }

    /// The row to select when the selection moves by `delta` rows from
    /// `selected_row`, wrapping at the ends. Where nothing is selected, down
    /// selects the first row and up the last.
    pub fn move_selection(&self, selected_row: isize, delta: isize) -> (r: Option<usize>)
        ensures
            match r {
                Some(i) => self.rows@.len() > 0 && i as int == moved_row(
                    self.rows@.len() as int,
                    selected_row as int,
                    delta as int,
                ) && i < self.rows@.len(),
                None => self.rows@.len() == 0,
            },
    {
        let rows: usize = self.rows.len();
        if rows == 0 {
            return None;
        }
        if selected_row < 0 {
            if delta >= 0 {
                Some(0)
            } else {
                Some(rows - 1)
            }
        } else {
            Some(cycle::wrap(selected_row as i128 + delta as i128, rows))
        }
    }

    /// What to draw in row `row` while `selected_row` is selected: the row's
    /// texts and whether it is the selected one. None for a row that does not
    /// exist.
    pub fn object_value(&self, row: isize, selected_row: isize) -> (r: Option<(RowData, bool)>)
        ensures
            r == (if 0 <= row < self.rows@.len() {
                Some((self.rows@[row as int], row == selected_row))
            } else {
                None
            }),
    {
        if row < 0 {
            return None;
        }
        match self.row_at(row as usize) {
            Some(data) => Some((data, row == selected_row)),
            None => None,
        }
    }
}

/// The row that a move by `delta` from `current` leads to in a list of `rows`
/// rows.
pub open spec fn moved_row(rows: int, current: int, delta: int) -> int {
    if current < 0 {
        if delta >= 0 {
            0
        } else {
            rows - 1
        }
    } else {
        (current + delta) % rows
    }
}

/// The selection wraps: down from the last row leads to the first, and up from
/// the first to the last; anywhere else it moves by one.
pub proof fn law_selection_wraps(rows: int, current: int)
    requires
        0 <= current < rows,
    ensures
        moved_row(rows, current, 1) == (if current == rows - 1 {
            0
        } else {
            current + 1
        }),
        moved_row(rows, current, -1) == (if current == 0 {
            rows - 1
        } else {
            current - 1
        }),
{
    cycle::lemma_steps(current, rows);
}

/// A move and the opposite move lead back to the row one started from,
/// whatever the step.
pub proof fn law_a_move_back_undoes_a_move(rows: int, current: int, delta: int)
    requires
        0 <= current < rows,
    ensures
        0 <= moved_row(rows, current, delta) < rows,
        moved_row(rows, moved_row(rows, current, delta), -delta) == current,
{
    cycle::lemma_back(current, delta, rows);
}

/// The selected row, where a negative row number means that none is.
pub fn selected_index(selected_row: isize) -> (r: Option<usize>)
    ensures
        r == (if selected_row >= 0 {
            Some(selected_row as usize)
        } else {
            None
        }),
{
    if selected_row >= 0 {
        Some(selected_row as usize)
    } else {
        None
    }
}

/// What a key command asks for while the query field has focus.
#[derive(Clone, Copy, Debug, PartialEq, Eq, Structural)]
pub enum KeyCommand {
    /// Hide the panel.
    Hide,
    /// Move the selection one row up.
    Up,
    /// Move the selection one row down.
    Down,
    /// Activate the selected row.
    Activate,
}

/// What a command selector asks for. None leaves the command to the field.
pub fn control_do_command(command: &str) -> (r: Option<KeyCommand>)
    ensures
        r == (if command@ == "cancelOperation:"@ {
            Some(KeyCommand::Hide)
        } else if command@ == "moveUp:"@ {
            Some(KeyCommand::Up)
        } else if command@ == "moveDown:"@ {
            Some(KeyCommand::Down)
        } else if command@ == "insertNewline:"@ {
            Some(KeyCommand::Activate)
        } else {
            None
        }),
{
    if text::same(command, "cancelOperation:") {
        Some(KeyCommand::Hide)
    } else if text::same(command, "moveUp:") {
        Some(KeyCommand::Up)
    } else if text::same(command, "moveDown:") {
        Some(KeyCommand::Down)
    } else if text::same(command, "insertNewline:") {
        Some(KeyCommand::Activate)
    } else {
        None
    }
}

/// How one row is drawn: the title in `title_color`, and where there is a
/// subtitle its text, set off by two spaces, in a dimmed `subtitle_color`.
/// Fonts scale by `font_size` over the built-in 22 points.
#[derive(Debug, PartialEq, Eq)]
pub struct RowDrawing {
    pub title_color: (u8, u8, u8),
    pub subtitle: Option<String>,
    pub subtitle_color: (u8, u8, u8),
    pub font_size: u32,
}

/// How to draw a row. The title takes the foreground color, and the accent
/// where the row is selected. Without an applied theme rows are white.
pub fn row_value(data: &RowData, selected: bool, style: Option<RowStyle>) -> (r: RowDrawing)
    ensures
        ({
            let (fg, accent, size) = match style {
                Some(s) => (s.foreground, s.accent, s.font_size),
                None => ((255u8, 255u8, 255u8), (255u8, 255u8, 255u8), 22u32),
            };
            &&& r.title_color == (if selected {
                accent
            } else {
                fg
            })
            &&& r.subtitle_color == fg
            &&& r.font_size == size
            &&& r.subtitle is Some <==> data.subtitle@.len() > 0
            &&& r.subtitle matches Some(s) ==> s@ == "  "@ + data.subtitle@
        }),
{
    let (fg, accent, size): ((u8, u8, u8), (u8, u8, u8), u32) = match style {
        Some(s) => (s.foreground, s.accent, s.font_size),
        None => ((255, 255, 255), (255, 255, 255), 22),
    };
    let subtitle = if data.subtitle.as_str().is_empty() {
        None
    } else {
        Some(text::join("  ", &data.subtitle))
    };
    RowDrawing {
        title_color: if selected {
            accent
        } else {
            fg
        },
        subtitle,
        subtitle_color: fg,
        font_size: size,
    }
}

/// Where no row is selected, a move down leads to the first row and a move up to
/// the last. From a selected row any move stays in the list and leads as many
/// rows on as asked, whole turns aside.
pub proof fn law_moves_lead_where_they_say(rows: int, current: int, delta: int)
    requires
        0 < rows,
        current < rows,
    ensures
        current < 0 && delta >= 0 ==> moved_row(rows, current, delta) == 0,
        current < 0 && delta < 0 ==> moved_row(rows, current, delta) == rows - 1,
        0 <= moved_row(rows, current, delta) < rows,
        current >= 0 ==> exists|turns: int|
            moved_row(rows, current, delta) + #[trigger] (turns * rows) == current + delta,
{
    if current >= 0 {
        let n = current + delta;
        vstd::arithmetic::div_mod::lemma_fundamental_div_mod(n, rows);
        vstd::arithmetic::div_mod::lemma_mod_bound(n, rows);
        assert(rows * (n / rows) == (n / rows) * rows) by (nonlinear_arith);
        assert(moved_row(rows, current, delta) + (n / rows) * rows == n);
    }
}

} // verus!
