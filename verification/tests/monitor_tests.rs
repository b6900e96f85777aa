use glorious_auto_polling_rate::monitor::{exe_file_name, Scan, Watcher};

fn names(list: &[&str]) -> Vec<String> {
    list.iter().map(|s| s.to_string()).collect()
}

#[test]
fn exe_names_are_lower_case_file_names() {
    assert_eq!(exe_file_name("C:\\Games\\Counter-Strike\\CS2.EXE"), "cs2.exe");
    assert_eq!(exe_file_name("C:/x/Valorant.exe"), "valorant.exe");
    assert_eq!(exe_file_name("plain.exe"), "plain.exe");
    assert_eq!(exe_file_name("C:\\dir\\"), "");
    assert_eq!(exe_file_name(""), "");
}

#[test]
fn nothing_to_watch_means_not_running() {
    let w = Watcher::new();
    assert_eq!(w.any_running(&[]), Scan::NotRunning);
    assert_eq!(w.any_running(&names(&["cs2.exe"])), Scan::ListProcesses);
}

#[test]
fn an_empty_process_list_means_not_running() {
    let mut w = Watcher::default();
    assert_eq!(w.pids_listed(&names(&["cs2.exe"]), vec![]), Scan::NotRunning);
}

#[test]
fn names_are_resolved_once_and_remembered() {
    let wanted = names(&["cs2.exe"]);
    let mut w = Watcher::new();
    assert_eq!(w.pids_listed(&wanted, vec![4, 8, 12]), Scan::Resolve(4));
    assert_eq!(w.name_resolved(&wanted, 4, Some("explorer.exe".to_string())), Scan::Resolve(8));
    assert_eq!(w.name_resolved(&wanted, 8, Some("cs2.exe".to_string())), Scan::Running);
    // Next tick: both names are known, nothing to resolve.
    assert_eq!(w.pids_listed(&wanted, vec![4, 8, 12]), Scan::Running);
    // The watch list is edited: remembered names are judged against it.
    let other = names(&["valorant.exe"]);
    assert_eq!(w.pids_listed(&other, vec![4, 8, 12]), Scan::Resolve(12));
    assert_eq!(w.name_resolved(&other, 12, None), Scan::NotRunning);
    assert_eq!(w.pids_listed(&other, vec![4, 8, 12]), Scan::NotRunning);
}

#[test]
fn exited_processes_are_forgotten() {
    let wanted = names(&["cs2.exe"]);
    let mut w = Watcher::new();
    assert_eq!(w.pids_listed(&wanted, vec![8]), Scan::Resolve(8));
    assert_eq!(w.name_resolved(&wanted, 8, Some("cs2.exe".to_string())), Scan::Running);
    // 8 exits; its id is later reused by another program.
    assert_eq!(w.pids_listed(&wanted, vec![4]), Scan::Resolve(4));
    assert_eq!(w.name_resolved(&wanted, 4, Some("notepad.exe".to_string())), Scan::NotRunning);
    assert_eq!(w.pids_listed(&wanted, vec![4, 8]), Scan::Resolve(8));
    assert_eq!(w.name_resolved(&wanted, 8, Some("notepad.exe".to_string())), Scan::NotRunning);
}

/// Runs one whole scan the way the program does, with `truth` standing for
/// the system calls.
fn answer(w: &mut Watcher, wanted: &[String], pids: &[u32], truth: &dyn Fn(u32) -> Option<String>) -> bool {
    let mut step = w.any_running(wanted);
    loop {
        match step {
            Scan::ListProcesses => step = w.pids_listed(wanted, pids.to_vec()),
            Scan::Resolve(pid) => step = w.name_resolved(wanted, pid, truth(pid)),
            Scan::Running => return true,
            Scan::NotRunning => return false,
        }
    }
}

#[test]
fn answers_ignore_earlier_watch_lists() {
    let truth = |pid: u32| match pid {
        4 => Some("explorer.exe".to_string()),
        8 => Some("cs2.exe".to_string()),
        _ => None,
    };
    let pids = [4, 8, 12];
    let first = names(&["valorant.exe"]);
    let second = names(&["cs2.exe"]);
    let mut used = Watcher::new();
    assert!(!answer(&mut used, &first, &pids, &truth));
    assert!(answer(&mut used, &second, &pids, &truth));
    assert!(answer(&mut Watcher::new(), &second, &pids, &truth));
    assert!(!answer(&mut used, &first, &pids, &truth));
    // Adding names never turns yes into no.
    let more = names(&["valorant.exe", "cs2.exe", "overwatch.exe"]);
    assert!(answer(&mut used, &more, &pids, &truth));
    assert!(!answer(&mut used, &names(&[]), &pids, &truth));
}
