use staff_admin::tray::{menu_action, navigate_path, MenuAction};

#[test]
fn menu_identifiers_map_to_their_actions() {
    assert_eq!(menu_action("show"), MenuAction::ShowWindow);
    assert_eq!(menu_action("hide"), MenuAction::HideWindow);
    assert_eq!(menu_action("new_payment"), MenuAction::NavigateNewPayment);
    assert_eq!(menu_action("reconcile"), MenuAction::NavigateReconciliation);
    assert_eq!(menu_action("preferences"), MenuAction::NavigateSettings);
    assert_eq!(menu_action("sync_now"), MenuAction::SyncRequested);
    assert_eq!(menu_action("check_updates"), MenuAction::CheckUpdates);
    assert_eq!(menu_action("quit"), MenuAction::Quit);
}

#[test]
fn unknown_menu_identifiers_are_ignored() {
    assert_eq!(menu_action(""), MenuAction::Ignore);
    assert_eq!(menu_action("Show"), MenuAction::Ignore);
    assert_eq!(menu_action("something_else"), MenuAction::Ignore);
}

#[test]
fn navigating_actions_carry_their_route() {
    assert_eq!(navigate_path(MenuAction::NavigateNewPayment), Some("/payments/new".to_string()));
    assert_eq!(navigate_path(MenuAction::NavigateReconciliation), Some("/recon/new".to_string()));
    assert_eq!(navigate_path(MenuAction::NavigateSettings), Some("/settings".to_string()));
    assert_eq!(navigate_path(MenuAction::ShowWindow), None);
    assert_eq!(navigate_path(MenuAction::Quit), None);
    assert_eq!(navigate_path(MenuAction::Ignore), None);
}
