//! Tray menu dispatch: the decision table behind the tray's menu events.
//! Building the menu and operating the window stay with the shell.

use crate::bytescan::bytes_equal;
use vstd::prelude::*;

verus! {

/// What the shell must do for a tray menu event.
#[derive(Debug, Clone, Copy, PartialEq, Eq, Structural)]
pub enum MenuAction {
    ShowWindow,
    HideWindow,
    NavigateNewPayment,
    NavigateReconciliation,
    NavigateSettings,
    SyncRequested,
    CheckUpdates,
    Quit,
    Ignore,
}

/// The action owed for each menu identifier; an unknown identifier is
/// ignored.
pub open spec fn menu_action_of(id: Seq<char>) -> MenuAction {
    if id == "show"@ {
        MenuAction::ShowWindow
    } else if id == "hide"@ {
        MenuAction::HideWindow
    } else if id == "new_payment"@ {
        MenuAction::NavigateNewPayment
    } else if id == "reconcile"@ {
        MenuAction::NavigateReconciliation
    } else if id == "preferences"@ {
        MenuAction::NavigateSettings
    } else if id == "sync_now"@ {
        MenuAction::SyncRequested
    } else if id == "check_updates"@ {
        MenuAction::CheckUpdates
    } else if id == "quit"@ {
        MenuAction::Quit
    } else {
        MenuAction::Ignore
    }
}

/// Decide the action for a tray menu event.
pub fn menu_action(id: &str) -> (r: MenuAction)
    ensures
        r == menu_action_of(id@),
{
    proof {
        vstd::utf8::encode_utf8_decode_utf8(id@);
        vstd::utf8::encode_utf8_decode_utf8("show"@);
        vstd::utf8::encode_utf8_decode_utf8("hide"@);
        vstd::utf8::encode_utf8_decode_utf8("new_payment"@);
        vstd::utf8::encode_utf8_decode_utf8("reconcile"@);
        vstd::utf8::encode_utf8_decode_utf8("preferences"@);
        vstd::utf8::encode_utf8_decode_utf8("sync_now"@);
        vstd::utf8::encode_utf8_decode_utf8("check_updates"@);
        vstd::utf8::encode_utf8_decode_utf8("quit"@);
    }
    if bytes_equal(id.as_bytes(), "show".as_bytes()) {
        MenuAction::ShowWindow
    } else if bytes_equal(id.as_bytes(), "hide".as_bytes()) {
        MenuAction::HideWindow
    } else if bytes_equal(id.as_bytes(), "new_payment".as_bytes()) {
        MenuAction::NavigateNewPayment
    } else if bytes_equal(id.as_bytes(), "reconcile".as_bytes()) {
        MenuAction::NavigateReconciliation
    } else if bytes_equal(id.as_bytes(), "preferences".as_bytes()) {
        MenuAction::NavigateSettings
    } else if bytes_equal(id.as_bytes(), "sync_now".as_bytes()) {
        MenuAction::SyncRequested
    } else if bytes_equal(id.as_bytes(), "check_updates".as_bytes()) {
        MenuAction::CheckUpdates
    } else if bytes_equal(id.as_bytes(), "quit".as_bytes()) {
        MenuAction::Quit
    } else {
        MenuAction::Ignore
    }
}

/// The front-end route a navigating action opens; `None` for the actions
/// that do not navigate.
pub fn navigate_path(action: MenuAction) -> (r: Option<String>)
    ensures
        action == MenuAction::NavigateNewPayment ==> (r matches Some(p) && p@
            == "/payments/new"@),
        action == MenuAction::NavigateReconciliation ==> (r matches Some(p) && p@
            == "/recon/new"@),
        action == MenuAction::NavigateSettings ==> (r matches Some(p) && p@ == "/settings"@),
        (action != MenuAction::NavigateNewPayment && action != MenuAction::NavigateReconciliation
            && action != MenuAction::NavigateSettings) ==> r is None,
{
    match action {
        MenuAction::NavigateNewPayment => Some("/payments/new".to_owned()),
        MenuAction::NavigateReconciliation => Some("/recon/new".to_owned()),
        MenuAction::NavigateSettings => Some("/settings".to_owned()),
        _ => None,
    }
}

} // verus!
