//! The rows that sources offer to the launcher.

use crate::text;
use vstd::prelude::*;

verus! {

/// What sort of thing a row stands for.
#[derive(Clone, Copy, Debug, PartialEq, Eq, Structural)]
pub enum ItemKind {
    App,
    SystemCommand,
    Script,
    File,
    Window,
}

/// One activatable row: a stable id, what the list shows, and its kind.
#[derive(Clone, Debug, PartialEq, Eq)]
pub struct Item {
    pub id: String,
    pub title: String,
    pub subtitle: String,
    pub kind: ItemKind,
}

/// What an [`Item`] holds.
#[verifier::ext_equal]
pub struct ItemView {
    pub id: Seq<char>,
    pub title: Seq<char>,
    pub subtitle: Seq<char>,
    pub kind: ItemKind,
}

impl View for Item {
    type V = ItemView;

    open spec fn view(&self) -> ItemView {
        ItemView {
            id: self.id@,
            title: self.title@,
            subtitle: self.subtitle@,
            kind: self.kind,
        }
    }
}

impl Item {
    /// A row with the given id, title, subtitle and kind.
    pub fn new(id: &str, title: &str, subtitle: &str, kind: ItemKind) -> (r: Item)
        ensures
            r@ == (ItemView { id: id@, title: title@, subtitle: subtitle@, kind }),
    {
        Item {
            id: text::copy(id),
            title: text::copy(title),
            subtitle: text::copy(subtitle),
            kind,
        }
    }

    /// A copy of the row.
    pub fn copied(&self) -> (r: Item)
        ensures
            r == *self,
    {
        Item {
            id: self.id.clone(),
            title: self.title.clone(),
            subtitle: self.subtitle.clone(),
            kind: self.kind,
        }
    }
}

} // verus!
