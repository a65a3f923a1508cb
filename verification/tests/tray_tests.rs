use codex_quota::tray::{
    autostart_command, autostart_enabled, enabled_startup_value, menu_action, startup_approved, MenuAction, MENU_ITEMS,
};

#[test]
fn menu_contains_core_controls() {
    assert!(MENU_ITEMS.contains(&"显示悬浮球"));
    assert!(MENU_ITEMS.contains(&"更新数据"));
    assert!(MENU_ITEMS.contains(&"开机自启"));
    assert!(MENU_ITEMS.contains(&"退出"));
}

#[test]
fn startup_approval_reads_the_last_eight_bytes() {
    assert!(startup_approved(None));
    assert!(startup_approved(Some(&enabled_startup_value())));
    assert!(!startup_approved(Some(&[3, 0, 0, 0, 0, 0, 0, 0, 0, 0, 0, 1])));
    assert!(!startup_approved(Some(&[0, 0, 0])));
}

#[test]
fn autostart_command_quotes_the_program() {
    assert_eq!(autostart_command("C:\\Apps\\\"quota\".exe"), "\"C:\\Apps\\quota.exe\" --autostart");
}

#[test]
fn menu_entries_map_to_actions() {
    assert_eq!(menu_action("show"), MenuAction::Show);
    assert_eq!(menu_action("autostart"), MenuAction::ToggleAutostart);
    assert_eq!(menu_action("quit"), MenuAction::Quit);
    assert_eq!(menu_action("other"), MenuAction::Ignore);
    assert!(autostart_enabled(true, None));
    assert!(!autostart_enabled(false, None));
    assert!(!autostart_enabled(true, Some(&[1, 1, 1, 1, 1, 1, 1, 1])));
}
