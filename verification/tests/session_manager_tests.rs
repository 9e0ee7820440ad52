use piranha_server::networking::session_manager::SessionManager;

#[test]
fn first_session_gets_number_zero() {
    let mut m: SessionManager<&str> = SessionManager::new();
    assert_eq!(m.get_last_session(), None);
    m.new_session("a");
    assert_eq!(m.get_last_session(), Some(0));
    assert_eq!(m.get_client(0), Some(&"a"));
}

#[test]
fn next_session_follows_the_last_one() {
    let mut m: SessionManager<&str> = SessionManager::new();
    m.new_session("a");
    m.new_session("b");
    assert_eq!(m.get_client(1), Some(&"b"));
    assert_eq!(m.get_client(0), Some(&"a"));
}

#[test]
fn removed_session_is_gone() {
    let mut m: SessionManager<u32> = SessionManager::new();
    m.new_session(7);
    m.remove_session(0);
    assert_eq!(m.get_client(0), None);
    assert_eq!(m.get_last_session(), None);
    // Removing a number that is not there changes nothing.
    m.remove_session(3);
    assert_eq!(m.get_last_session(), None);
}

#[test]
fn last_session_is_one_of_the_open_ones() {
    let mut m: SessionManager<u32> = SessionManager::new();
    for v in 0..5 {
        m.new_session(v);
    }
    let last = m.get_last_session().unwrap();
    assert!(m.get_client(last).is_some());
}
