//! The command line, the panel, the list and the accessibility replies.

use beckon_macos::ax::{
    ax_err, copy_attr, focused_window, set_attr, start, Geometry, Search, Start,
};
use beckon_macos::hotkey::{event_class_keyboard, four_char, signature};
use beckon_macos::panel::{dismiss, hotkey_pressed, show, toggle, Move, Press, Window};
use beckon_macos::router::{Item, ItemKind};
use beckon_macos::shell::{
    command, index_line, smoke_calc, smoke_exit, smoke_search, smoke_show, Command, SearchSeen,
};
use beckon_macos::theme::RowStyle;
use beckon_macos::ui::{
    control_do_command, row_value, selected_index, KeyCommand, List, RowData,
};

fn args(list: &[&str]) -> Vec<String> {
    list.iter().map(|a| a.to_string()).collect()
}

#[test]
fn the_version_comes_before_all_else() {
    assert_eq!(command(&args(&["beckon", "--smoke", "-V"]), true), Command::Version);
    assert_eq!(command(&args(&["beckon", "--version"]), false), Command::Version);
    assert_eq!(command(&args(&["beckon", "--index-apps"]), true), Command::IndexApps);
    assert_eq!(
        command(&args(&["beckon", "--index-apps"]), false),
        Command::Run { smoke: false }
    );
    assert_eq!(command(&args(&["beckon", "--smoke"]), true), Command::Run { smoke: true });
    assert_eq!(command(&args(&[]), true), Command::Run { smoke: false });
    let item = Item::new("id", "T", "/p.app", ItemKind::App);
    assert_eq!(index_line(&item), "T\tid\t/p.app");
}

fn seen() -> SearchSeen {
    SearchSeen {
        rows: 3,
        top: "Safari".to_string(),
        down_handled: true,
        selected: Some(1),
        command_top: "Window: Left Half".to_string(),
        window_rows: 2,
        emoji_top: "\u{1F525} fire".to_string(),
        uuid_rows: 1,
        uuid_top: "123e4567-e89b-42d3-a456-426614174000".to_string(),
        snippet_rows: 1,
        link_subtitle: "https://www.google.com/search?q=rust%20launcher".to_string(),
    }
}

#[test]
fn the_self_test_asks_for_every_part() {
    assert!(smoke_search(&seen()));
    assert!(!smoke_search(&SearchSeen { rows: 0, ..seen() }));
    assert!(!smoke_search(&SearchSeen { selected: Some(0), ..seen() }));
    assert!(smoke_search(&SearchSeen { rows: 1, selected: Some(0), ..seen() }));
    assert!(!smoke_search(&SearchSeen { uuid_top: "x".repeat(36), ..seen() }));
    assert!(!smoke_search(&SearchSeen { link_subtitle: String::new(), ..seen() }));
    assert!(smoke_show(true, 1, "beckon smoke"));
    assert!(!smoke_show(true, 0, "beckon smoke"));
    assert!(!smoke_show(true, 1, "beckon"));
    assert!(smoke_calc(1, "4", true, "4", true));
    assert!(!smoke_calc(1, "4", true, "5", true));
    assert_eq!(smoke_exit(true, true, true, true, true), 0);
    assert_eq!(smoke_exit(true, true, true, false, true), 1);
}

#[test]
fn the_panel_toggles() {
    assert_eq!(toggle(Window::Visible), Move::Hide);
    assert_eq!(toggle(Window::Hidden), Move::Show);
    assert_eq!(toggle(Window::Missing), Move::Stay);
    assert_eq!(show(Window::Visible), Move::Show);
    assert_eq!(dismiss(Window::Hidden), Move::Stay);
    assert_eq!(hotkey_pressed(Window::Visible), Press::Hide);
    assert_eq!(hotkey_pressed(Window::Hidden), Press::Summon);
}

#[test]
fn replies_read_as_words() {
    assert_eq!(ax_err(-25200), "kAXErrorFailure [-25200]");
    assert_eq!(
        ax_err(-25204),
        "kAXErrorCannotComplete (is the target app responding?) [-25204]"
    );
    assert_eq!(ax_err(-25212), "kAXErrorNoValue [-25212]");
    assert_eq!(ax_err(-1), "AXError -1");
    assert_eq!(copy_attr("AXSize", 0, true), Ok(()));
    assert_eq!(
        copy_attr("AXSize", 0, false),
        Err("reading AXSize returned no value".to_string())
    );
    assert_eq!(
        copy_attr("AXSize", -25205, true),
        Err("reading AXSize failed: kAXErrorAttributeUnsupported [-25205]".to_string())
    );
    assert_eq!(set_attr("AXSize", 0), Ok(()));
    assert_eq!(
        set_attr("AXSize", -7),
        Err("writing AXSize failed: AXError -7".to_string())
    );
}

#[test]
fn the_focused_window_is_searched_from_the_front() {
    assert_eq!(start(Some(7)), Start::App(7));
    assert_eq!(start(None), Start::SystemWide);
    assert_eq!(focused_window(Search::Found), Ok(()));
    assert_eq!(
        focused_window(Search::NoElement(Start::App(7))),
        Err("AXUIElementCreateApplication returned null".to_string())
    );
    assert_eq!(
        focused_window(Search::NoElement(Start::SystemWide)),
        Err("AXUIElementCreateSystemWide returned null".to_string())
    );
    assert_eq!(
        focused_window(Search::NoApp("e".to_string())),
        Err("no frontmost application: e".to_string())
    );
    assert_eq!(
        focused_window(Search::NoWindow("e".to_string())),
        Err("no focused window on the frontmost app: e".to_string())
    );
    assert_eq!(Geometry::Position.attribute(), "AXPosition");
    assert_eq!(Geometry::Size.decoded(true), Ok(()));
    assert_eq!(
        Geometry::Position.decoded(false),
        Err("AXPosition did not decode as a CGPoint".to_string())
    );
    assert_eq!(Geometry::Size.made(false), Err("AXValueCreate(CGSize) failed".to_string()));
}

#[test]
fn codes_of_four_characters() {
    assert_eq!(four_char(b"bckn"), u32::from_be_bytes(*b"bckn"));
    assert_eq!(event_class_keyboard(), u32::from_be_bytes(*b"keyb"));
    assert_eq!(signature(), u32::from_be_bytes(*b"bckn"));
}

#[test]
fn the_list_selects_and_wraps() {
    let mut list: List<u8, u8> = List::new();
    assert_eq!(list.move_selection(-1, 1), None);
    assert_eq!(list.set_items(vec![]), None);
    let rows = vec![RowData::new("a", ""), RowData::new("b", "x"), RowData::new("c", "")];
    assert_eq!(list.set_items(rows), Some(0));
    assert_eq!(list.row_count(), 3);
    assert_eq!(list.row_at(1), Some(RowData::new("b", "x")));
    assert_eq!(list.row_at(3), None);
    assert_eq!(list.move_selection(2, 1), Some(0));
    assert_eq!(list.move_selection(0, -1), Some(2));
    assert_eq!(list.move_selection(-1, 1), Some(0));
    assert_eq!(list.move_selection(-1, -1), Some(2));
    assert_eq!(list.object_value(1, 1), Some((RowData::new("b", "x"), true)));
    assert_eq!(list.object_value(-1, 1), None);
    assert_eq!(list.activate_selected(1), None);
    list.set_on_activate(4);
    assert_eq!(list.activate_selected(1), Some((&4, 1)));
    assert_eq!(list.activate_selected(-1), None);
    assert_eq!(list.notify_query_changed("q".to_string()), None);
    list.set_on_query_changed(5);
    assert_eq!(list.notify_query_changed("q".to_string()), Some((&5, "q".to_string())));
    assert_eq!(selected_index(-1), None);
    assert_eq!(selected_index(4), Some(4));
}

#[test]
fn keys_and_colours_of_rows() {
    assert_eq!(control_do_command("moveUp:"), Some(KeyCommand::Up));
    assert_eq!(control_do_command("moveDown:"), Some(KeyCommand::Down));
    assert_eq!(control_do_command("insertNewline:"), Some(KeyCommand::Activate));
    assert_eq!(control_do_command("cancelOperation:"), Some(KeyCommand::Hide));
    assert_eq!(control_do_command("deleteBackward:"), None);
    let style = RowStyle { foreground: (1, 1, 1), accent: (2, 2, 2), font_size: 14 };
    let drawn = row_value(&RowData::new("t", "s"), true, Some(style));
    assert_eq!(drawn.title_color, (2, 2, 2));
    assert_eq!(drawn.subtitle_color, (1, 1, 1));
    assert_eq!(drawn.subtitle.as_deref(), Some("  s"));
    assert_eq!(drawn.font_size, 14);
    let plain = row_value(&RowData::new("t", ""), false, None);
    assert_eq!(plain.title_color, (255, 255, 255));
    assert_eq!(plain.subtitle, None);
}
