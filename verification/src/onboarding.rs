//! Accessibility onboarding: while the permission is missing, one row offers
//! the way to grant it; once it is granted the row retires.
//!
//! Activating the row opens the privacy pane, and the plain Settings app
//! where the pane does not open.

use crate::order::views;
use crate::router::{Item, ItemKind, ItemView};
use crate::text;
use vstd::prelude::*;

verus! {

/// The id of the one onboarding row.
pub const ACCESSIBILITY_ID: &'static str = "onboarding.accessibility";

/// The link to the privacy pane.
pub const SETTINGS_URL: &'static str =
    "x-apple.systempreferences:com.apple.preference.security?Privacy_Accessibility";

/// The bundle id of the Settings app.
pub const SETTINGS_BUNDLE_ID: &'static str = "com.apple.systempreferences";

/// The rows for a state of the permission: none once it is granted.
pub open spec fn rows_for(trusted: bool) -> Seq<ItemView> {
    if trusted {
        Seq::empty()
    } else {
        seq![
            ItemView {
                id: ACCESSIBILITY_ID@,
                title: "Grant Accessibility Access"@,
                subtitle:
                    "Window management and paste need this; approve beckon in System Settings, then relaunch"@,
                kind: ItemKind::SystemCommand,
            },
        ]
    }
}

/// The rows for a state of the permission: none once it is granted.
pub fn items_for(trusted: bool) -> (r: Vec<Item>)
    ensures
        views(r@) == rows_for(trusted),
{
    let mut rows: Vec<Item> = Vec::new();
    if !trusted {
        rows.push(
            Item::new(
                ACCESSIBILITY_ID,
                "Grant Accessibility Access",
                "Window management and paste need this; approve beckon in System Settings, then relaunch",
                ItemKind::SystemCommand,
            ),
        );
    }
    assert(views(rows@) =~= rows_for(trusted));
    rows
}

/// The state of the permission in one line.
pub fn status_line(trusted: bool) -> (r: String)
    ensures
        r@ == (if trusted {
            "Accessibility: granted"@
        } else {
            "Accessibility: not granted (window management and paste disabled)"@
        }),
{
    if trusted {
        text::copy("Accessibility: granted")
    } else {
        text::copy("Accessibility: not granted (window management and paste disabled)")
    }
}

/// The command line that opens the privacy pane.
pub fn settings_argv() -> (r: Vec<String>)
    ensures
        views(r@) == seq!["/usr/bin/open"@, SETTINGS_URL@],
{
    let argv = vec![text::copy("/usr/bin/open"), text::copy(SETTINGS_URL)];
    assert(views(argv@) =~= seq!["/usr/bin/open"@, SETTINGS_URL@]);
    argv
}

/// The command line that opens the Settings app.
pub fn settings_fallback_argv() -> (r: Vec<String>)
    ensures
        views(r@) == seq!["/usr/bin/open"@, "-b"@, SETTINGS_BUNDLE_ID@],
{
    let argv = vec![
        text::copy("/usr/bin/open"),
        text::copy("-b"),
        text::copy(SETTINGS_BUNDLE_ID),
    ];
    assert(views(argv@) =~= seq!["/usr/bin/open"@, "-b"@, SETTINGS_BUNDLE_ID@]);
    argv
}

/// What activating a row does first: ask for the permission and run this
/// command line. An id that is not the row's is an error.
pub fn activate(id: &str) -> (r: Result<Vec<String>, String>)
    ensures
        match r {
            Ok(argv) => id@ == ACCESSIBILITY_ID@ && views(argv@) == seq![
                "/usr/bin/open"@,
                SETTINGS_URL@,
            ],
            Err(e) => id@ != ACCESSIBILITY_ID@ && e@ == "unknown onboarding command id: "@ + id@,
        },
{
    if !text::same(id, ACCESSIBILITY_ID) {
        return Err(text::join("unknown onboarding command id: ", id));
    }
    Ok(settings_argv())
}

/// What comes after the privacy pane was opened: the end, or the fallback's
/// command line.
pub fn after_pane(outcome: Result<(), String>) -> (r: Result<(), (String, Vec<String>)>)
    ensures
        match outcome {
            Ok(_) => r is Ok,
            Err(first) => r matches Err((why, argv)) && why@ == first@ && views(argv@) == seq![
                "/usr/bin/open"@,
                "-b"@,
                SETTINGS_BUNDLE_ID@,
            ],
        },
{
    match outcome {
        Ok(_) => Ok(()),
        Err(first) => Err((first, settings_fallback_argv())),
    }
}

/// The outcome of the fallback, after the pane did not open for the reason
/// `first`.
pub fn after_fallback(first: &str, outcome: Result<(), String>) -> (r: Result<(), String>)
    ensures
        match outcome {
            Ok(_) => r is Ok,
            Err(second) => r matches Err(e) && e@ == "cannot open Accessibility settings: "@
                + first@ + ("; launching System Settings failed too: "@ + second@),
        },
{
    match outcome {
        Ok(_) => Ok(()),
        Err(second) => Err(
            text::join3(
                "cannot open Accessibility settings: ",
                first,
                &text::join("; launching System Settings failed too: ", &second),
            ),
        ),
    }
}

/// One row offers the permission while it is missing, and none once it is
/// granted.
pub proof fn law_the_offer_retires_with_the_permission(trusted: bool)
    ensures
        rows_for(trusted).len() == (if trusted {
            0nat
        } else {
            1
        }),
        !trusted ==> rows_for(trusted)[0].id == "onboarding.accessibility"@ && rows_for(
            trusted,
        )[0].title == "Grant Accessibility Access"@,
{
}

} // verus!
