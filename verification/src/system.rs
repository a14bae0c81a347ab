//! System commands: sleep, lock, trash, dark mode, volume and the panes of
//! System Settings.
//!
//! The listing is a constant: a fixed order and ids that never change. What
//! each command runs follows from its id alone, so every command line can be
//! looked at without running anything.

use crate::order::views;
use crate::router::{Item, ItemKind, ItemView};
use crate::text;
use vstd::prelude::*;

verus! {

/// The program that runs scripts.
pub const OSASCRIPT: &'static str = "/usr/bin/osascript";

/// The framework that holds the lock-screen function.
pub const LOGIN_FRAMEWORK: &'static str =
    "/System/Library/PrivateFrameworks/login.framework/Versions/A/login";

/// The lock-screen function.
pub const LOCK_SYMBOL: &'static str = "SACLockScreenImmediate";

/// One system command as it is listed.
#[derive(Clone, Copy)]
pub struct Spec {
    pub id: &'static str,
    pub title: &'static str,
    pub subtitle: &'static str,
}

/// One pane of System Settings: the tail of its id, its title, and the name
/// that the settings scheme knows it by.
#[derive(Clone, Copy)]
pub struct Pane {
    pub slug: &'static str,
    pub title: &'static str,
    pub pane: &'static str,
}

/// What a [`Spec`] holds.
#[verifier::ext_equal]
pub struct SpecView {
    pub id: Seq<char>,
    pub title: Seq<char>,
    pub subtitle: Seq<char>,
}

/// What a [`Pane`] holds.
#[verifier::ext_equal]
pub struct PaneView {
    pub slug: Seq<char>,
    pub title: Seq<char>,
    pub pane: Seq<char>,
}

impl View for Spec {
    type V = SpecView;

    open spec fn view(&self) -> SpecView {
        SpecView { id: self.id@, title: self.title@, subtitle: self.subtitle@ }
    }
}

impl View for Pane {
    type V = PaneView;

    open spec fn view(&self) -> PaneView {
        PaneView { slug: self.slug@, title: self.title@, pane: self.pane@ }
    }
}

/// The system commands, in listing order.
pub open spec fn spec_table() -> Seq<SpecView> {
    seq![
        SpecView {
            id: "system.sleep"@,
            title: "Sleep"@,
            subtitle: "Put the Mac to sleep now"@,
        },
        SpecView {
            id: "system.lock-screen"@,
            title: "Lock Screen"@,
            subtitle: "Lock the screen immediately"@,
        },
        SpecView {
            id: "system.empty-trash"@,
            title: "Empty Trash"@,
            subtitle: "Permanently delete everything in the Trash"@,
        },
        SpecView {
            id: "system.toggle-dark-mode"@,
            title: "Toggle Dark Mode"@,
            subtitle: "Switch between light and dark appearance"@,
        },
        SpecView {
            id: "system.toggle-mute"@,
            title: "Toggle Mute"@,
            subtitle: "Mute or unmute the output volume"@,
        },
        SpecView {
            id: "system.volume-up"@,
            title: "Volume Up"@,
            subtitle: "Raise the output volume one step"@,
        },
        SpecView {
            id: "system.volume-down"@,
            title: "Volume Down"@,
            subtitle: "Lower the output volume one step"@,
        },
        SpecView {
            id: "system.quit-frontmost"@,
            title: "Quit Frontmost App"@,
            subtitle: "Ask the app in front to quit"@,
        },
        SpecView {
            id: "system.restart-finder"@,
            title: "Restart Finder"@,
            subtitle: "Relaunch Finder (fixes a stuck desktop)"@,
        },
    ]
}

/// The panes of System Settings, in listing order.
pub open spec fn pane_table() -> Seq<PaneView> {
    seq![
        PaneView {
            slug: "keyboard"@,
            title: "Keyboard Settings"@,
            pane: "com.apple.Keyboard-Settings.extension"@,
        },
        PaneView {
            slug: "displays"@,
            title: "Displays Settings"@,
            pane: "com.apple.Displays-Settings.extension"@,
        },
        PaneView {
            slug: "bluetooth"@,
            title: "Bluetooth Settings"@,
            pane: "com.apple.BluetoothSettings"@,
        },
        PaneView {
            slug: "wifi"@,
            title: "Wi-Fi Settings"@,
            pane: "com.apple.wifi-settings-extension"@,
        },
        PaneView {
            slug: "battery"@,
            title: "Battery Settings"@,
            pane: "com.apple.Battery-Settings.extension"@,
        },
        PaneView {
            slug: "sound"@,
            title: "Sound Settings"@,
            pane: "com.apple.Sound-Settings.extension"@,
        },
        PaneView {
            slug: "notifications"@,
            title: "Notifications Settings"@,
            pane: "com.apple.Notifications-Settings.extension"@,
        },
        PaneView {
            slug: "appearance"@,
            title: "Appearance Settings"@,
            pane: "com.apple.Appearance-Settings.extension"@,
        },
        PaneView {
            slug: "accessibility"@,
            title: "Accessibility Settings"@,
            pane: "com.apple.Accessibility-Settings.extension"@,
        },
        PaneView {
            slug: "privacy"@,
            title: "Privacy & Security Settings"@,
            pane: "com.apple.settings.PrivacySecurity.extension"@,
        },
        PaneView {
            slug: "trackpad"@,
            title: "Trackpad Settings"@,
            pane: "com.apple.Trackpad-Settings.extension"@,
        },
        PaneView {
            slug: "dock"@,
            title: "Desktop & Dock Settings"@,
            pane: "com.apple.Desktop-Settings.extension"@,
        },
        PaneView {
            slug: "software-update"@,
            title: "Software Update Settings"@,
            pane: "com.apple.Software-Update-Settings.extension"@,
        },
        PaneView {
            slug: "network"@,
            title: "Network Settings"@,
            pane: "com.apple.Network-Settings.extension"@,
        },
        PaneView {
            slug: "screen-time"@,
            title: "Screen Time Settings"@,
            pane: "com.apple.Screen-Time-Settings.extension"@,
        },
    ]
}

/// The system commands, in listing order.
pub fn specs() -> (r: Vec<Spec>)
    ensures
        views(r@) == spec_table(),
{
    let r = vec![
        Spec {
            id: "system.sleep",
            title: "Sleep",
            subtitle: "Put the Mac to sleep now",
        },
        Spec {
            id: "system.lock-screen",
            title: "Lock Screen",
            subtitle: "Lock the screen immediately",
        },
        Spec {
            id: "system.empty-trash",
            title: "Empty Trash",
            subtitle: "Permanently delete everything in the Trash",
        },
        Spec {
            id: "system.toggle-dark-mode",
            title: "Toggle Dark Mode",
            subtitle: "Switch between light and dark appearance",
        },
        Spec {
            id: "system.toggle-mute",
            title: "Toggle Mute",
            subtitle: "Mute or unmute the output volume",
        },
        Spec {
            id: "system.volume-up",
            title: "Volume Up",
            subtitle: "Raise the output volume one step",
        },
        Spec {
            id: "system.volume-down",
            title: "Volume Down",
            subtitle: "Lower the output volume one step",
        },
        Spec {
            id: "system.quit-frontmost",
            title: "Quit Frontmost App",
            subtitle: "Ask the app in front to quit",
        },
        Spec {
            id: "system.restart-finder",
            title: "Restart Finder",
            subtitle: "Relaunch Finder (fixes a stuck desktop)",
        },
    ];
    assert(views(r@) =~= spec_table());
    r
}

/// The panes of System Settings, in listing order.
pub fn settings_panes() -> (r: Vec<Pane>)
    ensures
        views(r@) == pane_table(),
{
    let r = vec![
        Pane {
            slug: "keyboard",
            title: "Keyboard Settings",
            pane: "com.apple.Keyboard-Settings.extension",
        },
        Pane {
            slug: "displays",
            title: "Displays Settings",
            pane: "com.apple.Displays-Settings.extension",
        },
        Pane {
            slug: "bluetooth",
            title: "Bluetooth Settings",
            pane: "com.apple.BluetoothSettings",
        },
        Pane {
            slug: "wifi",
            title: "Wi-Fi Settings",
            pane: "com.apple.wifi-settings-extension",
        },
        Pane {
            slug: "battery",
            title: "Battery Settings",
            pane: "com.apple.Battery-Settings.extension",
        },
        Pane {
            slug: "sound",
            title: "Sound Settings",
            pane: "com.apple.Sound-Settings.extension",
        },
        Pane {
            slug: "notifications",
            title: "Notifications Settings",
            pane: "com.apple.Notifications-Settings.extension",
        },
        Pane {
            slug: "appearance",
            title: "Appearance Settings",
            pane: "com.apple.Appearance-Settings.extension",
        },
        Pane {
            slug: "accessibility",
            title: "Accessibility Settings",
            pane: "com.apple.Accessibility-Settings.extension",
        },
        Pane {
            slug: "privacy",
            title: "Privacy & Security Settings",
            pane: "com.apple.settings.PrivacySecurity.extension",
        },
        Pane {
            slug: "trackpad",
            title: "Trackpad Settings",
            pane: "com.apple.Trackpad-Settings.extension",
        },
        Pane {
            slug: "dock",
            title: "Desktop & Dock Settings",
            pane: "com.apple.Desktop-Settings.extension",
        },
        Pane {
            slug: "software-update",
            title: "Software Update Settings",
            pane: "com.apple.Software-Update-Settings.extension",
        },
        Pane {
            slug: "network",
            title: "Network Settings",
            pane: "com.apple.Network-Settings.extension",
        },
        Pane {
            slug: "screen-time",
            title: "Screen Time Settings",
            pane: "com.apple.Screen-Time-Settings.extension",
        },
    ];
    assert(views(r@) =~= pane_table());
    r
}

/// How a command happens.
#[derive(Clone, Debug, PartialEq, Eq)]
pub enum Mechanism {
    /// Run the first element with the others as its arguments.
    Spawn(Vec<String>),
    /// Call a function without arguments out of a framework.
    Call { framework: &'static str, symbol: &'static str },
}

/// What a [`Mechanism`] holds.
#[verifier::ext_equal]
pub enum MechanismView {
    Spawn(Seq<Seq<char>>),
    Call { framework: Seq<char>, symbol: Seq<char> },
}

impl View for Mechanism {
    type V = MechanismView;

    open spec fn view(&self) -> MechanismView {
        match self {
            Mechanism::Spawn(argv) => MechanismView::Spawn(views(argv@)),
            Mechanism::Call { framework, symbol } => MechanismView::Call {
                framework: framework@,
                symbol: symbol@,
            },
        }
    }
}

/// A command with one argument.
fn spawn(program: &str, argument: &str) -> (r: Mechanism)
    ensures
        r@ == MechanismView::Spawn(seq![program@, argument@]),
{
    let argv = vec![text::copy(program), text::copy(argument)];
    assert(views(argv@) =~= seq![program@, argument@]);
    Mechanism::Spawn(argv)
}

/// A script of one line.
pub open spec fn one_line(line: Seq<char>) -> MechanismView {
    MechanismView::Spawn(seq![OSASCRIPT@, "-e"@, line])
}

/// A script of two lines.
pub open spec fn two_lines(first: Seq<char>, second: Seq<char>) -> MechanismView {
    MechanismView::Spawn(seq![OSASCRIPT@, "-e"@, first, "-e"@, second])
}

/// A script of one line.
fn script(line: &str) -> (r: Mechanism)
    ensures
        r@ == one_line(line@),
{
    let argv = vec![text::copy(OSASCRIPT), text::copy("-e"), text::copy(line)];
    assert(views(argv@) =~= seq![OSASCRIPT@, "-e"@, line@]);
    Mechanism::Spawn(argv)
}

/// A script of two lines, across which variables carry.
fn long_script(first: &str, second: &str) -> (r: Mechanism)
    ensures
        r@ == two_lines(first@, second@),
{
    let argv = vec![
        text::copy(OSASCRIPT),
        text::copy("-e"),
        text::copy(first),
        text::copy("-e"),
        text::copy(second),
    ];
    assert(views(argv@) =~= seq![OSASCRIPT@, "-e"@, first@, "-e"@, second@]);
    Mechanism::Spawn(argv)
}

/// The first pane with the given slug.
pub open spec fn pane_of(panes: Seq<PaneView>, slug: Seq<char>) -> Option<PaneView>
    decreases panes.len(),
{
    if panes.len() == 0 {
        None
    } else if panes[0].slug == slug {
        Some(panes[0])
    } else {
        pane_of(panes.drop_first(), slug)
    }
}

/// How the command with the given id happens, none where there is no such
/// command.
pub open spec fn mechanism_of(id: Seq<char>) -> Option<MechanismView> {
    if "settings."@.is_prefix_of(id) {
        match pane_of(pane_table(), id.skip("settings."@.len() as int)) {
            Some(p) => Some(
                MechanismView::Spawn(
                    seq!["/usr/bin/open"@, "x-apple.systempreferences:"@ + p.pane],
                ),
            ),
            None => None,
        }
    } else if id == "system.sleep"@ {
        Some(MechanismView::Spawn(seq!["/usr/bin/pmset"@, "sleepnow"@]))
    } else if id == "system.lock-screen"@ {
        Some(MechanismView::Call { framework: LOGIN_FRAMEWORK@, symbol: LOCK_SYMBOL@ })
    } else if id == "system.empty-trash"@ {
        Some(one_line("tell application \"Finder\" to empty trash"@))
    } else if id == "system.toggle-dark-mode"@ {
        Some(
            one_line(
                "tell application \"System Events\" to tell appearance preferences to set dark mode to not dark mode"@,
            ),
        )
    } else if id == "system.toggle-mute"@ {
        Some(one_line("set volume output muted (not (output muted of (get volume settings)))"@))
    } else if id == "system.volume-up"@ {
        Some(
            two_lines(
                "set cur to output volume of (get volume settings)"@,
                "set volume output volume (cur + 6)"@,
            ),
        )
    } else if id == "system.volume-down"@ {
        Some(
            two_lines(
                "set cur to output volume of (get volume settings)"@,
                "set volume output volume (cur - 6)"@,
            ),
        )
    } else if id == "system.quit-frontmost"@ {
        Some(
            two_lines(
                "tell application \"System Events\" to set frontName to name of first application process whose frontmost is true"@,
                "tell application frontName to quit"@,
            ),
        )
    } else if id == "system.restart-finder"@ {
        Some(MechanismView::Spawn(seq!["/usr/bin/killall"@, "Finder"@]))
    } else {
        None
    }
}

/// Opens a pane of System Settings.
fn pane_mechanism(slug: &str) -> (r: Option<Mechanism>)
    ensures
        match pane_of(pane_table(), slug@) {
            Some(p) => r matches Some(m) && m@ == MechanismView::Spawn(
                seq!["/usr/bin/open"@, "x-apple.systempreferences:"@ + p.pane],
            ),
            None => r is None,
        },
{
    let panes = settings_panes();
    let mut i: usize = 0;
    assert(pane_table().skip(0) =~= pane_table());
    while i < panes.len()
        invariant
            i <= panes@.len(),
            views(panes@) == pane_table(),
            pane_of(pane_table(), slug@) == pane_of(pane_table().skip(i as int), slug@),
        decreases panes@.len() - i,
    {
        proof {
            assert(pane_table()[i as int] == panes@[i as int]@);
            assert(pane_table().skip(i as int).drop_first() =~= pane_table().skip(i + 1));
        }
        if text::same(panes[i].slug, slug) {
            return Some(
                spawn("/usr/bin/open", &text::join("x-apple.systempreferences:", panes[i].pane)),
            );
        }
        i = i + 1;
    }
    None
}

/// How the command with the given id happens. Several lines of one script
/// share their variables.
pub fn mechanism(id: &str) -> (r: Option<Mechanism>)
    ensures
        match r {
            Some(m) => mechanism_of(id@) == Some(m@),
            None => mechanism_of(id@) is None,
        },
{
    if let Some(slug) = text::strip_prefix(id, "settings.") {
        return pane_mechanism(&slug);
    }
    if text::same(id, "system.sleep") {
        return Some(spawn("/usr/bin/pmset", "sleepnow"));
    }
    if text::same(id, "system.lock-screen") {
        return Some(Mechanism::Call { framework: LOGIN_FRAMEWORK, symbol: LOCK_SYMBOL });
    }
    if text::same(id, "system.empty-trash") {
        return Some(script("tell application \"Finder\" to empty trash"));
    }
    if text::same(id, "system.toggle-dark-mode") {
        return Some(
            script(
                "tell application \"System Events\" to tell appearance preferences to set dark mode to not dark mode",
            ),
        );
    }
    if text::same(id, "system.toggle-mute") {
        return Some(
            script("set volume output muted (not (output muted of (get volume settings)))"),
        );
    }
    if text::same(id, "system.volume-up") {
        return Some(
            long_script(
                "set cur to output volume of (get volume settings)",
                "set volume output volume (cur + 6)",
            ),
        );
    }
    if text::same(id, "system.volume-down") {
        return Some(
            long_script(
                "set cur to output volume of (get volume settings)",
                "set volume output volume (cur - 6)",
            ),
        );
    }
    if text::same(id, "system.quit-frontmost") {
        return Some(
            long_script(
                "tell application \"System Events\" to set frontName to name of first application process whose frontmost is true",
                "tell application frontName to quit",
            ),
        );
    }
    if text::same(id, "system.restart-finder") {
        return Some(spawn("/usr/bin/killall", "Finder"));
    }
    None
}

/// The row of a system command.
pub open spec fn spec_item(s: SpecView) -> ItemView {
    ItemView {
        id: s.id,
        title: s.title,
        subtitle: s.subtitle,
        kind: ItemKind::SystemCommand,
    }
}

/// The row of a pane of System Settings.
pub open spec fn pane_item(p: PaneView) -> ItemView {
    ItemView {
        id: "settings."@ + p.slug,
        title: p.title,
        subtitle: "Open in System Settings"@,
        kind: ItemKind::SystemCommand,
    }
}

/// The listing: the system commands, then the panes.
pub open spec fn listing() -> Seq<ItemView> {
    spec_table().map_values(|s: SpecView| spec_item(s)) + pane_table().map_values(
        |p: PaneView| pane_item(p),
    )
}

/// Every system command as a row, in a fixed order.
pub fn items() -> (r: Vec<Item>)
    ensures
        views(r@) == listing(),
{
    let all = specs();
    let panes = settings_panes();
    let mut out: Vec<Item> = Vec::new();
    let mut i: usize = 0;
    while i < all.len()
        invariant
            i <= all@.len(),
            out@.len() == i,
            forall|k: int| 0 <= k < i ==> #[trigger] out@[k]@ == spec_item(all@[k]@),
        decreases all@.len() - i,
    {
        out.push(Item::new(all[i].id, all[i].title, all[i].subtitle, ItemKind::SystemCommand));
        i = i + 1;
    }
    let ghost n = all@.len() as int;
    let mut j: usize = 0;
    while j < panes.len()
        invariant
            j <= panes@.len(),
            n == all@.len(),
            out@.len() == n + j,
            forall|k: int| 0 <= k < n ==> #[trigger] out@[k]@ == spec_item(all@[k]@),
            forall|k: int| n <= k < n + j ==> #[trigger] out@[k]@ == pane_item(panes@[k - n]@),
        decreases panes@.len() - j,
    {
        out.push(
            Item::new(
                &text::join("settings.", panes[j].slug),
                panes[j].title,
                "Open in System Settings",
                ItemKind::SystemCommand,
            ),
        );
        j = j + 1;
    }
    proof {
        assert(spec_table() == views(all@));
        assert(pane_table() == views(panes@));
        assert(views(out@) =~= listing());
    }
    out
}

/// What the command with the given id is to run; an id that names no command
/// is an error.
pub fn activate(id: &str) -> (r: Result<Mechanism, String>)
    ensures
        match r {
            Ok(m) => mechanism_of(id@) == Some(m@),
            Err(e) => mechanism_of(id@) is None && e@ == "unknown system command id: "@ + id@,
        },
{
    match mechanism(id) {
        Some(m) => Ok(m),
        None => Err(text::join("unknown system command id: ", id)),
    }
}

/// How running a program went.
pub enum Ran {
    /// It could not be started, for this reason.
    NotStarted(String),
    /// It came to an end.
    Ended { success: bool, status: String, stderr: Vec<u8> },
}

/// What is shown of a program that failed: what it wrote to its error
/// stream, or how it ended where it wrote nothing.
pub open spec fn failure_line(program: Seq<char>, status: Seq<char>, stderr: Seq<char>) -> Seq<
    char,
> {
    if text::trimmed(stderr).len() == 0 {
        program + " failed with "@ + status
    } else {
        text::trimmed(stderr)
    }
}

/// What is shown of a program that failed.
pub fn failed(program: &str, status: &str, stderr: &str) -> (r: String)
    ensures
        r@ == failure_line(program@, status@, stderr@),
{
    let said = text::trim(stderr);
    if said.as_str().is_empty() {
        text::join3(program, " failed with ", status)
    } else {
        said
    }
}

/// The outcome of running a command line: nothing is run of an empty one.
pub fn run_spawn(argv: &Vec<String>, ran: Ran) -> (r: Result<(), String>)
    ensures
        argv@.len() == 0 ==> (r matches Err(e) && e@ == "empty argv"@),
        argv@.len() > 0 ==> match ran {
            Ran::NotStarted(why) => r matches Err(e) && e@ == "cannot run "@ + argv@[0]@ + (": "@
                + why@),
            Ran::Ended { success, status, stderr } => if success {
                r is Ok
            } else {
                r matches Err(e) && e@ == failure_line(
                    argv@[0]@,
                    status@,
                    text::lossy_text(stderr@),
                )
            },
        },
{
    if argv.len() == 0 {
        return Err(text::copy("empty argv"));
    }
    let program = &argv[0];
    match ran {
        Ran::NotStarted(why) => Err(
            text::join3("cannot run ", program, &text::join(": ", &why)),
        ),
        Ran::Ended { success, status, stderr } => if success {
            Ok(())
        } else {
            Err(failed(program, &status, &text::from_utf8_lossy(stderr.as_slice())))
        },
    }
}

/// How calling a function of a framework went.
pub enum Called {
    /// The framework's path is no C string, for this reason.
    BadPath(String),
    /// The function's name is no C string, for this reason.
    BadName(String),
    /// The framework did not load.
    NotLoaded,
    /// The framework holds no such function.
    NotFound,
    /// The call was made.
    Made,
}

/// The outcome of calling a function of a framework.
pub fn run_call(framework: &str, symbol: &str, called: Called) -> (r: Result<(), String>)
    ensures
        match called {
            Called::BadPath(why) => r matches Err(e) && e@ == "bad framework path: "@ + why@,
            Called::BadName(why) => r matches Err(e) && e@ == "bad symbol name: "@ + why@,
            Called::NotLoaded => r matches Err(e) && e@ == "dlopen failed for "@ + framework@,
            Called::NotFound => r matches Err(e) && e@ == symbol@ + " not found in "@ + framework@,
            Called::Made => r is Ok,
        },
{
    match called {
        Called::BadPath(why) => Err(text::join("bad framework path: ", &why)),
        Called::BadName(why) => Err(text::join("bad symbol name: ", &why)),
        Called::NotLoaded => Err(text::join("dlopen failed for ", framework)),
        Called::NotFound => Err(text::join3(symbol, " not found in ", framework)),
        Called::Made => Ok(()),
    }
}

/// Every command that is listed can be activated.
pub proof fn law_every_item_has_a_mechanism(i: int)
    requires
        0 <= i < listing().len(),
    ensures
        mechanism_of(listing()[i].id) is Some,
{
    reveal_strlit("settings.");
    reveal_strlit("system.sleep");
    reveal_strlit("system.lock-screen");
    reveal_strlit("system.empty-trash");
    reveal_strlit("system.toggle-dark-mode");
    reveal_strlit("system.toggle-mute");
    reveal_strlit("system.volume-up");
    reveal_strlit("system.volume-down");
    reveal_strlit("system.quit-frontmost");
    reveal_strlit("system.restart-finder");
    if i < spec_table().len() {
        assert(listing()[i].id == spec_table()[i].id);
        assert("settings."@[1] == 'e');
    } else {
        let k = i - spec_table().len();
        let p = pane_table()[k];
        assert(listing()[i].id == "settings."@ + p.slug);
        assert("settings."@.is_prefix_of("settings."@ + p.slug));
        assert(("settings."@ + p.slug).skip("settings."@.len() as int) =~= p.slug);
        lemma_listed_panes_are_found(pane_table(), k);
    }
}

/// A pane that is listed is found by its slug.
proof fn lemma_listed_panes_are_found(panes: Seq<PaneView>, k: int)
    requires
        0 <= k < panes.len(),
    ensures
        pane_of(panes, panes[k].slug) is Some,
    decreases k,
{
    if panes[0].slug != panes[k].slug {
        lemma_listed_panes_are_found(panes.drop_first(), k - 1);
    }
}

/// The place of a pane that is found by its slug.
proof fn lemma_found_panes_are_listed(panes: Seq<PaneView>, slug: Seq<char>) -> (k: int)
    requires
        pane_of(panes, slug) is Some,
    ensures
        0 <= k < panes.len(),
        panes[k].slug == slug,
    decreases panes.len(),
{
    if panes[0].slug == slug {
        0
    } else {
        lemma_found_panes_are_listed(panes.drop_first(), slug) + 1
    }
}

/// Every command that can be activated is listed.
pub proof fn law_every_mechanism_has_an_item(id: Seq<char>)
    requires
        mechanism_of(id) is Some,
    ensures
        exists|i: int| 0 <= i < listing().len() && (#[trigger] listing()[i]).id == id,
{
    let n = spec_table().len() as int;
    if "settings."@.is_prefix_of(id) {
        let slug = id.skip("settings."@.len() as int);
        let k = lemma_found_panes_are_listed(pane_table(), slug);
        assert(listing()[n + k] == pane_item(pane_table()[k]));
        assert(id =~= "settings."@ + slug);
    } else {
        assert forall|i: int| 0 <= i < n implies (#[trigger] listing()[i]).id == spec_table()[i].id
            by {
            assert(listing()[i] == spec_item(spec_table()[i]));
        }
        assert(exists|i: int| 0 <= i < n && (#[trigger] spec_table()[i]).id == id) by {
            assert(spec_table()[0].id == "system.sleep"@);
            assert(spec_table()[1].id == "system.lock-screen"@);
            assert(spec_table()[2].id == "system.empty-trash"@);
            assert(spec_table()[3].id == "system.toggle-dark-mode"@);
            assert(spec_table()[4].id == "system.toggle-mute"@);
            assert(spec_table()[5].id == "system.volume-up"@);
            assert(spec_table()[6].id == "system.volume-down"@);
            assert(spec_table()[7].id == "system.quit-frontmost"@);
            assert(spec_table()[8].id == "system.restart-finder"@);
        }
        let i = choose|i: int| 0 <= i < n && (#[trigger] spec_table()[i]).id == id;
        assert(listing()[i].id == id);
    }
}

/// No two commands share an id.
pub proof fn law_ids_are_unique(i: int, j: int)
    requires
        0 <= i < j < listing().len(),
    ensures
        listing()[i].id != listing()[j].id,
{
    reveal_strlit("settings.");
    reveal_strlit("system.sleep");
    reveal_strlit("system.lock-screen");
    reveal_strlit("system.empty-trash");
    reveal_strlit("system.toggle-dark-mode");
    reveal_strlit("system.toggle-mute");
    reveal_strlit("system.volume-up");
    reveal_strlit("system.volume-down");
    reveal_strlit("system.quit-frontmost");
    reveal_strlit("system.restart-finder");
    reveal_strlit("keyboard");
    reveal_strlit("displays");
    reveal_strlit("bluetooth");
    reveal_strlit("wifi");
    reveal_strlit("battery");
    reveal_strlit("sound");
    reveal_strlit("notifications");
    reveal_strlit("appearance");
    reveal_strlit("accessibility");
    reveal_strlit("privacy");
    reveal_strlit("trackpad");
    reveal_strlit("dock");
    reveal_strlit("software-update");
    reveal_strlit("network");
    reveal_strlit("screen-time");
    let n = spec_table().len() as int;
    let x = listing()[i].id;
    let y = listing()[j].id;
    if j < n {
        assert(x == spec_table()[i].id && y == spec_table()[j].id);
        assert(x.len() != y.len() || x[7] != y[7]);
    } else if i < n {
        assert(x == spec_table()[i].id);
        assert(y == "settings."@ + pane_table()[j - n].slug);
        assert(x[1] == 'y' && y[1] == "settings."@[1]);
    } else {
        let a = pane_table()[i - n].slug;
        let b = pane_table()[j - n].slug;
        assert(x == "settings."@ + a && y == "settings."@ + b);
        assert(a.len() != b.len() || a[0] != b[0]);
        assert(x.len() != y.len() || x[9] != y[9]);
    }
}

/// Each system command does what its id says, with the program that does it.
pub proof fn law_commands_do_what_their_id_says()
    ensures
        mechanism_of("system.sleep"@) == Some(
            MechanismView::Spawn(seq!["/usr/bin/pmset"@, "sleepnow"@]),
        ),
        mechanism_of("system.lock-screen"@) matches Some(MechanismView::Call { framework, symbol })
            && symbol == "SACLockScreenImmediate"@,
        mechanism_of("system.empty-trash"@) == Some(
            MechanismView::Spawn(
                seq![
                    "/usr/bin/osascript"@,
                    "-e"@,
                    "tell application \"Finder\" to empty trash"@,
                ],
            ),
        ),
        mechanism_of("system.toggle-dark-mode"@) == Some(
            MechanismView::Spawn(
                seq![
                    "/usr/bin/osascript"@,
                    "-e"@,
                    "tell application \"System Events\" to tell appearance preferences to set dark mode to not dark mode"@,
                ],
            ),
        ),
        mechanism_of("system.toggle-mute"@) == Some(
            MechanismView::Spawn(
                seq![
                    "/usr/bin/osascript"@,
                    "-e"@,
                    "set volume output muted (not (output muted of (get volume settings)))"@,
                ],
            ),
        ),
        mechanism_of("system.volume-up"@) == Some(
            MechanismView::Spawn(
                seq![
                    "/usr/bin/osascript"@,
                    "-e"@,
                    "set cur to output volume of (get volume settings)"@,
                    "-e"@,
                    "set volume output volume (cur + 6)"@,
                ],
            ),
        ),
        mechanism_of("system.volume-down"@) == Some(
            MechanismView::Spawn(
                seq![
                    "/usr/bin/osascript"@,
                    "-e"@,
                    "set cur to output volume of (get volume settings)"@,
                    "-e"@,
                    "set volume output volume (cur - 6)"@,
                ],
            ),
        ),
        mechanism_of("system.quit-frontmost"@) == Some(
            MechanismView::Spawn(
                seq![
                    "/usr/bin/osascript"@,
                    "-e"@,
                    "tell application \"System Events\" to set frontName to name of first application process whose frontmost is true"@,
                    "-e"@,
                    "tell application frontName to quit"@,
                ],
            ),
        ),
        mechanism_of("system.restart-finder"@) == Some(
            MechanismView::Spawn(seq!["/usr/bin/killall"@, "Finder"@]),
        ),
{
    reveal_strlit("settings.");
    reveal_strlit("system.sleep");
    reveal_strlit("system.lock-screen");
    reveal_strlit("system.empty-trash");
    reveal_strlit("system.toggle-dark-mode");
    reveal_strlit("system.toggle-mute");
    reveal_strlit("system.volume-up");
    reveal_strlit("system.volume-down");
    reveal_strlit("system.quit-frontmost");
    reveal_strlit("system.restart-finder");
    assert("settings."@[1] == 'e');
    assert("system.sleep"@.len() == 12 && "system.lock-screen"@.len() == 18
        && "system.empty-trash"@.len() == 18 && "system.toggle-dark-mode"@.len() == 23
        && "system.toggle-mute"@.len() == 18 && "system.volume-up"@.len() == 16
        && "system.volume-down"@.len() == 18 && "system.quit-frontmost"@.len() == 21
        && "system.restart-finder"@.len() == 21);
    assert("system.lock-screen"@[7] == 'l' && "system.empty-trash"@[7] == 'e'
        && "system.toggle-mute"@[7] == 't' && "system.volume-down"@[7] == 'v'
        && "system.quit-frontmost"@[7] == 'q' && "system.restart-finder"@[7] == 'r');
}

/// Each listed pane of System Settings is opened by the name that the settings
/// scheme knows it by.
pub proof fn law_panes_are_opened_by_name(k: int)
    requires
        0 <= k < pane_table().len(),
    ensures
        mechanism_of("settings."@ + pane_table()[k].slug) == Some(
            MechanismView::Spawn(
                seq!["/usr/bin/open"@, "x-apple.systempreferences:"@ + pane_table()[k].pane],
            ),
        ),
        listing()[spec_table().len() + k].id == "settings."@ + pane_table()[k].slug,
        listing()[spec_table().len() + k].title == pane_table()[k].title,
        listing()[spec_table().len() + k].subtitle == "Open in System Settings"@,
{
    let p = pane_table()[k];
    let id = "settings."@ + p.slug;
    assert("settings."@.is_prefix_of(id)) by {
        assert(id.subrange(0, "settings."@.len() as int) =~= "settings."@);
    }
    assert(id.skip("settings."@.len() as int) =~= p.slug);
    assert forall|j: int| 0 <= j < k implies (#[trigger] pane_table()[j]).slug != p.slug by {
        law_ids_are_unique(spec_table().len() + j, spec_table().len() + k);
        assert(listing()[spec_table().len() + j].id == "settings."@ + pane_table()[j].slug);
        assert(listing()[spec_table().len() + k].id == "settings."@ + p.slug);
    }
    lemma_first_pane(pane_table(), k);
}

/// The pane found by a slug is the first that has it.
proof fn lemma_first_pane(panes: Seq<PaneView>, k: int)
    requires
        0 <= k < panes.len(),
        forall|j: int| 0 <= j < k ==> (#[trigger] panes[j]).slug != panes[k].slug,
    ensures
        pane_of(panes, panes[k].slug) == Some(panes[k]),
    decreases k,
{
    if k > 0 {
        assert(panes[0].slug != panes[k].slug);
        let t = panes.drop_first();
        assert forall|j: int| 0 <= j < k - 1 implies (#[trigger] t[j]).slug != t[k - 1].slug by {
            assert(t[j] == panes[j + 1]);
        }
        lemma_first_pane(t, k - 1);
    }
}

/// The pane of each slug.
pub proof fn law_slugs_name_their_pane(k: int)
    requires
        0 <= k < pane_table().len(),
    ensures
        pane_table().len() == 15,
        ({
            let p = pane_table()[k];
            &&& p.slug == "keyboard"@ ==> p.pane == "com.apple.Keyboard-Settings.extension"@
            &&& p.slug == "displays"@ ==> p.pane == "com.apple.Displays-Settings.extension"@
            &&& p.slug == "bluetooth"@ ==> p.pane == "com.apple.BluetoothSettings"@
            &&& p.slug == "wifi"@ ==> p.pane == "com.apple.wifi-settings-extension"@
            &&& p.slug == "battery"@ ==> p.pane == "com.apple.Battery-Settings.extension"@
            &&& p.slug == "sound"@ ==> p.pane == "com.apple.Sound-Settings.extension"@
            &&& p.slug == "notifications"@ ==> p.pane
                == "com.apple.Notifications-Settings.extension"@
            &&& p.slug == "appearance"@ ==> p.pane == "com.apple.Appearance-Settings.extension"@
            &&& p.slug == "accessibility"@ ==> p.pane
                == "com.apple.Accessibility-Settings.extension"@
            &&& p.slug == "privacy"@ ==> p.pane == "com.apple.settings.PrivacySecurity.extension"@
            &&& p.slug == "trackpad"@ ==> p.pane == "com.apple.Trackpad-Settings.extension"@
            &&& p.slug == "dock"@ ==> p.pane == "com.apple.Desktop-Settings.extension"@
            &&& p.slug == "software-update"@ ==> p.pane
                == "com.apple.Software-Update-Settings.extension"@
            &&& p.slug == "network"@ ==> p.pane == "com.apple.Network-Settings.extension"@
            &&& p.slug == "screen-time"@ ==> p.pane == "com.apple.Screen-Time-Settings.extension"@
        }),
{
    reveal_strlit("keyboard");
    reveal_strlit("displays");
    reveal_strlit("bluetooth");
    reveal_strlit("wifi");
    reveal_strlit("battery");
    reveal_strlit("sound");
    reveal_strlit("notifications");
    reveal_strlit("appearance");
    reveal_strlit("accessibility");
    reveal_strlit("privacy");
    reveal_strlit("trackpad");
    reveal_strlit("dock");
    reveal_strlit("software-update");
    reveal_strlit("network");
    reveal_strlit("screen-time");
    assert("keyboard"@[0] == 'k' && "displays"@[0] == 'd' && "bluetooth"@[0] == 'b' && "wifi"@[0]
        == 'w' && "battery"@[1] == 'a' && "bluetooth"@[1] == 'l' && "battery"@[0] == 'b' && "sound"@[0]
        == 's' && "notifications"@[0] == 'n' && "appearance"@[0] == 'a' && "accessibility"@[0]
        == 'a' && "appearance"@[1] == 'p' && "accessibility"@[1] == 'c' && "privacy"@[0] == 'p'
        && "trackpad"@[0] == 't' && "dock"@[0] == 'd' && "dock"@[1] == 'o' && "displays"@[1] == 'i'
        && "software-update"@.len() == 15 && "sound"@.len() == 5 && "screen-time"@.len() == 11
        && "software-update"@[0] == 's' && "screen-time"@[0] == 's' && "network"@[0] == 'n'
        && "network"@[1] == 'e' && "notifications"@[1] == 'o');
}

/// The row of a command shows its own title and subtitle.
pub proof fn law_rows_show_their_command(s: SpecView)
    ensures
        spec_item(s).id == s.id,
        spec_item(s).title == s.title,
        spec_item(s).subtitle == s.subtitle,
        listing().len() == spec_table().len() + pane_table().len(),
{
}

/// A program that failed is reported by what it wrote to its error stream,
/// trimmed, or by its name and how it ended where that is blank.
pub proof fn law_failures_say_what_was_written(
    program: Seq<char>,
    status: Seq<char>,
    stderr: Seq<char>,
)
    ensures
        text::trimmed(stderr).len() > 0 ==> failure_line(program, status, stderr) == text::trimmed(
            stderr,
        ),
        text::trimmed(stderr).len() == 0 ==> failure_line(program, status, stderr) == program
            + " failed with "@ + status,
{
}

} // verus!
