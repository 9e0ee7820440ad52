use piranha_server::networking::server::is_stop_command;
use piranha_server::utils::logger::logs_to_remove;

#[test]
fn nothing_to_remove_under_the_limit() {
    assert!(logs_to_remove(&vec![5, 1, 3], 3).is_empty());
    assert!(logs_to_remove(&vec![], 0).is_empty());
}

#[test]
fn oldest_logs_are_removed() {
    let mut r = logs_to_remove(&vec![50, 10, 40, 20, 30], 2);
    r.sort();
    assert_eq!(r, vec![1, 3, 4]);
}

#[test]
fn all_logs_removed_when_none_may_stay() {
    let mut r = logs_to_remove(&vec![7, 7, 7], 0);
    r.sort();
    assert_eq!(r, vec![0, 1, 2]);
}

#[test]
fn stop_commands() {
    assert!(is_stop_command("exit"));
    assert!(is_stop_command("  stop\n"));
    assert!(is_stop_command("\texit \r\n"));
    assert!(!is_stop_command("exit now"));
    assert!(!is_stop_command("Stop"));
    assert!(!is_stop_command(""));
}
