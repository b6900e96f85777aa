use glorious_auto_polling_rate::config::{CommandTable, Config};
use glorious_auto_polling_rate::tray::{
    autostart_notice, config_problem_text, dispatch_command, dispatch_rate, main_menu, menu_header,
    rate_menu, save_failed_notice, submenu_label, timer_interval, AppState, MenuCommand, MenuEntry,
    RateStep, CMD_ACTIVE_BASE, CMD_AUTOSTART, CMD_GITHUB, CMD_INACTIVE_BASE, CMD_NOTIFICATIONS,
    CMD_OPEN_LIST, CMD_PAUSE, CMD_QUIT, CMD_RELOAD,
};

#[test]
fn desired_rate_follows_running() {
    let s = AppState::new(Config::default());
    assert_eq!(s.desired_rate(true), 4000);
    assert_eq!(s.desired_rate(false), 500);
    assert!(s.evaluate());
}

#[test]
fn a_rate_is_sent_once() {
    let mut s = AppState::new(Config::default());
    // A listed program starts: the active rate applies and is announced.
    assert_eq!(s.observe(true, false), 4000);
    assert!(s.announce);
    assert!(matches!(s.set_rate(4000), RateStep::OpenDevice));
    let step = s.device_opened(4000, true);
    match step {
        RateStep::Send(bytes) => assert_eq!(bytes, vec![0, 0, 0, 2, 3, 1, 0x0A, 1, 0x40, 0x40]),
        _ => panic!("expected a report"),
    }
    let n = s.report_sent(4000, Ok(())).expect("a notice");
    assert_eq!(n.title, "Polling rate changed");
    assert_eq!(n.body, "4000 Hz");
    assert_eq!(s.current_rate, Some(4000));
    assert!(!s.announce);
    assert!(matches!(s.set_rate(4000), RateStep::Unchanged));
    assert_eq!(s.tray_tip(), "Glorious Auto Polling Rate\n4000 Hz");
    assert!(!s.tray_inactive());
    // The program exits: the inactive rate is sent again with the device
    // still open, and dropping to it says nothing.
    assert_eq!(s.observe(false, false), 500);
    assert!(matches!(s.set_rate(500), RateStep::Send(_)));
    assert!(s.report_sent(500, Ok(())).is_none());
    assert!(s.tray_inactive());
}

#[test]
fn failures_are_recorded_and_retried() {
    let mut s = AppState::new(Config::default());
    assert!(matches!(s.device_opened(4000, false), RateStep::Failed));
    assert_eq!(s.tray_tip(), "Glorious Auto Polling Rate\nmouse not found, is the dongle plugged in?");
    assert!(matches!(s.set_rate(4000), RateStep::OpenDevice));
    assert!(matches!(s.device_opened(4000, true), RateStep::Send(_)));
    assert!(s.report_sent(4000, Err("HidD_SetFeature failed".to_string())).is_none());
    assert!(!s.device_open);
    assert_eq!(s.device_error, Some("HidD_SetFeature failed".to_string()));
    assert!(matches!(s.device_opened(8000, true), RateStep::Failed));
    assert_eq!(s.device_error, Some("no command for 8000 Hz on this mouse".to_string()));
}

#[test]
fn manual_changes_and_switched_off_notices_say_nothing() {
    let mut s = AppState::new(Config::default());
    s.device_open = true;
    // A menu choice re-evaluates silently, even with a program running.
    assert_eq!(s.observe(true, true), 4000);
    assert!(!s.announce);
    assert!(matches!(s.set_rate(4000), RateStep::Send(_)));
    assert!(s.report_sent(4000, Ok(())).is_none());
    // With notifications off a program starting is not announced either.
    s.toggle_notifications();
    assert!(!s.config.settings.notifications);
    assert_eq!(s.observe(false, false), 500);
    assert!(matches!(s.set_rate(500), RateStep::Send(_)));
    assert!(s.report_sent(500, Ok(())).is_none());
    assert_eq!(s.observe(true, false), 4000);
    assert!(matches!(s.set_rate(4000), RateStep::Send(_)));
    assert!(s.report_sent(4000, Ok(())).is_none());
    s.toggle_notifications();
    s.device_error = Some("x".to_string());
    assert!(matches!(s.set_rate(500), RateStep::Send(_)));
    assert!(s.report_sent(500, Ok(())).is_none());
    assert_eq!(s.device_error, None);
}

#[test]
fn a_program_that_stays_open_is_announced_once() {
    let mut s = AppState::new(Config::default());
    s.device_open = true;
    assert_eq!(s.observe(true, false), 4000);
    assert!(matches!(s.set_rate(4000), RateStep::Send(_)));
    // The first attempt fails; the announcement waits for the retry.
    assert!(s.report_sent(4000, Err("HidD_SetFeature failed".to_string())).is_none());
    assert!(s.announce);
    assert_eq!(s.observe(true, false), 4000);
    assert!(s.announce);
    assert!(matches!(s.device_opened(4000, true), RateStep::Send(_)));
    let n = s.report_sent(4000, Ok(())).expect("a notice");
    assert_eq!((n.title.as_str(), n.body.as_str()), ("Polling rate changed", "4000 Hz"));
    // Later ticks with the program still open announce nothing.
    for _ in 0..3 {
        assert_eq!(s.observe(true, false), 4000);
        assert!(!s.announce);
        assert!(matches!(s.set_rate(4000), RateStep::Unchanged));
    }
}

#[test]
fn pause_and_tooltip() {
    let mut s = AppState::new(Config::default());
    assert_eq!(s.tray_tip(), "Glorious Auto Polling Rate\nstarting");
    assert!(!s.toggle_pause());
    assert!(!s.evaluate());
    assert_eq!(s.tray_tip(), "Glorious Auto Polling Rate\nstarting, paused");
    assert!(s.tray_inactive());
    assert!(s.toggle_pause());
    assert!(s.evaluate());
}

#[test]
fn choosing_and_reloading() {
    let mut s = AppState::new(Config::default());
    s.choose_rate(1000, true);
    s.choose_rate(125, false);
    assert_eq!(s.config.settings.active_rate, 1000);
    assert_eq!(s.config.settings.inactive_rate, 125);
    s.current_rate = Some(1000);
    s.device_open = true;
    let mut cfg = Config::default();
    cfg.programs = vec!["a.exe".to_string(), "b.exe".to_string()];
    s.apply_loaded(cfg);
    assert!(!s.device_open);
    assert_eq!(s.current_rate, None);
    let n = s.reload_notice(&Vec::new());
    assert_eq!((n.title.as_str(), n.body.as_str()), ("Reloaded", "Watching 2 program(s)"));
    let n = s.reload_notice(&vec!["one".to_string(), "two".to_string()]);
    assert_eq!((n.title.as_str(), n.body.as_str()), ("Config problem", "one\ntwo"));
}

#[test]
fn menu_ids() {
    assert_eq!(dispatch_command(100), MenuCommand::ActiveRate(0));
    assert_eq!(dispatch_command(199), MenuCommand::ActiveRate(99));
    assert_eq!(dispatch_command(205), MenuCommand::InactiveRate(5));
    assert_eq!(dispatch_command(10), MenuCommand::Pause);
    assert_eq!(dispatch_command(11), MenuCommand::Nothing);
    assert_eq!(dispatch_command(12), MenuCommand::Reload);
    assert_eq!(dispatch_command(13), MenuCommand::OpenList);
    assert_eq!(dispatch_command(14), MenuCommand::Github);
    assert_eq!(dispatch_command(15), MenuCommand::Quit);
    assert_eq!(dispatch_command(16), MenuCommand::Notifications);
    assert_eq!(dispatch_command(17), MenuCommand::Autostart);
    assert_eq!(dispatch_command(0), MenuCommand::Nothing);
    assert_eq!(dispatch_command(300), MenuCommand::Nothing);
}

#[test]
fn rate_ids_map_back_to_rates() {
    let c = Config::default();
    assert_eq!(dispatch_rate(&c, CMD_ACTIVE_BASE + 3, CMD_ACTIVE_BASE), Some(1000));
    assert_eq!(dispatch_rate(&c, CMD_INACTIVE_BASE, CMD_INACTIVE_BASE), Some(125));
    assert_eq!(dispatch_rate(&c, CMD_ACTIVE_BASE + 6, CMD_ACTIVE_BASE), None);
    let mut odd = Config::default();
    odd.protocol.commands = CommandTable::new();
    odd.protocol.commands.insert("333".to_string(), vec![1]);
    assert_eq!(dispatch_rate(&odd, CMD_ACTIVE_BASE, CMD_ACTIVE_BASE), Some(333));
    odd.protocol.commands = CommandTable::new();
    assert_eq!(dispatch_rate(&odd, CMD_ACTIVE_BASE, CMD_ACTIVE_BASE), None);
}

#[test]
fn rate_menu_entries() {
    let items = rate_menu(&vec![125, 250, 4000], 250, CMD_INACTIVE_BASE);
    assert_eq!(items.len(), 3);
    assert_eq!(items[1].id, 201);
    assert_eq!(items[1].text, "250 Hz");
    assert!(items[1].checked);
    assert!(!items[0].checked);
    let many: Vec<u32> = (0..150).collect();
    assert_eq!(rate_menu(&many, 0, CMD_ACTIVE_BASE).len(), 100);
    assert_eq!(submenu_label("Active rate", 4000), "Active rate: 4000 Hz");
    assert_eq!(menu_header(3), "Watching 3 program(s)");
}

#[test]
fn notices_and_texts() {
    let n = autostart_notice(true, &Ok(()));
    assert_eq!((n.title.as_str(), n.body.as_str()), ("Start with Windows", "on"));
    let n = autostart_notice(false, &Ok(()));
    assert_eq!(n.body, "off");
    let n = autostart_notice(true, &Err("could not open the Run key".to_string()));
    assert_eq!((n.title.as_str(), n.body.as_str()), ("Could not change autostart", "could not open the Run key"));
    let n = save_failed_notice(&"disk full".to_string());
    assert_eq!(n.title, "Could not save settings");
    assert_eq!(
        config_problem_text(&vec!["a".to_string()]),
        "a\n\nDefaults were used for whatever could not be read."
    );
}

#[test]
fn timer_interval_has_a_floor_and_a_ceiling() {
    assert_eq!(timer_interval(0), 250);
    assert_eq!(timer_interval(249), 250);
    assert_eq!(timer_interval(250), 250);
    assert_eq!(timer_interval(2000), 2000);
    assert_eq!(timer_interval(4_294_967_295), u32::MAX);
    assert_eq!(timer_interval((1u64 << 32) + 5), u32::MAX);
    assert_eq!(timer_interval(u64::MAX), u32::MAX);
}

fn item(e: &MenuEntry) -> (usize, &str, bool, bool) {
    match e {
        MenuEntry::Item { id, text, checked, greyed } => (*id, text.as_str(), *checked, *greyed),
        _ => panic!("expected an item"),
    }
}

#[test]
fn the_main_menu_lists_everything_in_order() {
    let mut s = AppState::new(Config::default());
    s.config.programs = vec!["cs2.exe".to_string(), "valorant.exe".to_string()];
    s.toggle_pause();
    let m = main_menu(&s, true);
    assert_eq!(m.len(), 15);
    assert_eq!(item(&m[0]), (0, "Watching 2 program(s)", false, true));
    assert!(matches!(m[1], MenuEntry::Separator));
    assert_eq!(item(&m[2]), (CMD_PAUSE, "Pause auto switching", true, false));
    assert!(matches!(m[3], MenuEntry::Separator));
    match &m[4] {
        MenuEntry::Submenu { text, items } => {
            assert_eq!(text, "Active rate: 4000 Hz");
            assert_eq!(items.len(), 6);
            assert_eq!(items[5].id, CMD_ACTIVE_BASE + 5);
            assert_eq!(items[5].text, "4000 Hz");
            assert!(items[5].checked);
            assert!(!items[2].checked);
        }
        _ => panic!("expected the active rate submenu"),
    }
    match &m[5] {
        MenuEntry::Submenu { text, items } => {
            assert_eq!(text, "Inactive rate: 500 Hz");
            assert_eq!(items[2].id, CMD_INACTIVE_BASE + 2);
            assert!(items[2].checked);
        }
        _ => panic!("expected the inactive rate submenu"),
    }
    assert!(matches!(m[6], MenuEntry::Separator));
    assert_eq!(item(&m[7]), (CMD_OPEN_LIST, "Edit program list", false, false));
    assert_eq!(item(&m[8]), (CMD_RELOAD, "Reload program list", false, false));
    assert!(matches!(m[9], MenuEntry::Separator));
    assert_eq!(item(&m[10]), (CMD_NOTIFICATIONS, "Show notifications", true, false));
    assert_eq!(item(&m[11]), (CMD_AUTOSTART, "Start with Windows", true, false));
    assert!(matches!(m[12], MenuEntry::Separator));
    assert_eq!(item(&m[13]), (CMD_GITHUB, "About and help", false, false));
    assert_eq!(item(&m[14]), (CMD_QUIT, "Quit", false, false));
    s.toggle_pause();
    s.toggle_notifications();
    let m = main_menu(&s, false);
    assert_eq!(item(&m[2]).2, false);
    assert_eq!(item(&m[10]).2, false);
    assert_eq!(item(&m[11]).2, false);
}
