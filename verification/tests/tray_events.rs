use popup_core::tray::{menu, route_tray_event, MenuEntry, TrayAction};

#[test]
fn config_selection_opens_configuration() {
    assert_eq!(route_tray_event("config"), TrayAction::OpenConfig);
}

#[test]
fn quit_selection_quits() {
    assert_eq!(route_tray_event("quit"), TrayAction::Quit);
}

#[test]
fn unknown_selections_are_ignored() {
    assert_eq!(route_tray_event(""), TrayAction::Ignore);
    assert_eq!(route_tray_event("QUIT"), TrayAction::Ignore);
    assert_eq!(route_tray_event("confi"), TrayAction::Ignore);
    assert_eq!(route_tray_event("configg"), TrayAction::Ignore);
    assert_eq!(route_tray_event("settings"), TrayAction::Ignore);
}

#[test]
fn menu_holds_config_divider_quit() {
    let entries = menu();
    assert_eq!(entries.len(), 3);
    match &entries[0] {
        MenuEntry::Action { id, label } => {
            assert_eq!(id, "config");
            assert_eq!(label, "Config");
        },
        MenuEntry::Divider => panic!("first entry must be the Config item"),
    }
    assert!(matches!(entries[1], MenuEntry::Divider));
    match &entries[2] {
        MenuEntry::Action { id, label } => {
            assert_eq!(id, "quit");
            assert_eq!(label, "Quit");
        },
        MenuEntry::Divider => panic!("last entry must be the Quit item"),
    }
}
