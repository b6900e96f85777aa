use glorious_auto_polling_rate::autostart::{
    apply, command_line, disable_outcome, enable_at_startup, enable_outcome, entry_present,
    registry_data, Removal, RunChange,
};

#[test]
fn apply_picks_the_change() {
    assert_eq!(apply(true), RunChange::Enable);
    assert_eq!(apply(false), RunChange::Disable);
}

#[test]
fn command_line_is_quoted() {
    assert_eq!(command_line(20, 260, "C:\\My Tools\\a.exe"), Some("\"C:\\My Tools\\a.exe\"".to_string()));
    assert_eq!(command_line(0, 260, ""), None);
    assert_eq!(command_line(260, 260, "C:\\x"), None);
}

#[test]
fn registry_data_is_little_endian_utf16() {
    assert_eq!(registry_data("ab"), vec![0x61, 0, 0x62, 0, 0, 0]);
    assert_eq!(registry_data("\u{100}"), vec![0x00, 0x01, 0, 0]);
}

#[test]
fn removing_an_absent_entry_succeeds() {
    assert_eq!(disable_outcome(Removal::Deleted), Ok(()));
    assert_eq!(disable_outcome(Removal::NotFound), Ok(()));
    assert_eq!(disable_outcome(Removal::KeyMissing), Ok(()));
    assert_eq!(disable_outcome(Removal::Failed), Err("could not remove the autostart entry".to_string()));
    assert_eq!(enable_outcome(true), Ok(()));
    assert_eq!(enable_outcome(false), Err("could not write the autostart entry".to_string()));
}

#[test]
fn presence_and_startup() {
    assert!(entry_present(true, 10));
    assert!(!entry_present(true, 0));
    assert!(!entry_present(false, 10));
    assert!(enable_at_startup(true, false));
    assert!(enable_at_startup(false, true));
    assert!(!enable_at_startup(false, false));
}
