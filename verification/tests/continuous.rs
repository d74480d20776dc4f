use dreamcatcher::ContinuousSessions;

#[test]
fn start_then_stop_before_the_interval_prevents_any_successor() {
    let mut sessions = ContinuousSessions::new();
    sessions.register("dream-1".to_string());
    assert!(sessions.is_registered(&"dream-1".to_string()));

    // The stop request lands while the background task is still sleeping.
    sessions.stop(&"dream-1".to_string());

    // When the task wakes it rotates atomically: the rotation sees the
    // stop and must not register the successor.
    let rotated = sessions.rotate(&"dream-1".to_string(), "dream-2".to_string());
    assert!(!rotated);
    assert!(!sessions.is_registered(&"dream-1".to_string()));
    assert!(!sessions.is_registered(&"dream-2".to_string()));
    assert_eq!(sessions.len(), 0);
}

#[test]
fn one_interval_replaces_the_identifier_with_exactly_one_successor() {
    let mut sessions = ContinuousSessions::new();
    sessions.register("dream-1".to_string());

    let rotated = sessions.rotate(&"dream-1".to_string(), "dream-2".to_string());
    assert!(rotated);
    assert!(!sessions.is_registered(&"dream-1".to_string()));
    assert!(sessions.is_registered(&"dream-2".to_string()));
    assert_eq!(sessions.len(), 1);
}

#[test]
fn stop_of_one_session_leaves_the_others_running() {
    let mut sessions = ContinuousSessions::new();
    sessions.register("a".to_string());
    sessions.register("b".to_string());
    sessions.stop(&"a".to_string());
    assert!(!sessions.is_registered(&"a".to_string()));
    assert!(sessions.is_registered(&"b".to_string()));
    assert_eq!(sessions.len(), 1);
}

#[test]
fn registering_twice_holds_one_entry() {
    let mut sessions = ContinuousSessions::new();
    sessions.register("a".to_string());
    sessions.register("a".to_string());
    assert_eq!(sessions.len(), 1);
    sessions.stop(&"a".to_string());
    assert!(!sessions.is_registered(&"a".to_string()));
    assert_eq!(sessions.len(), 0);
}

#[test]
fn stopping_an_unknown_identifier_changes_nothing() {
    let mut sessions = ContinuousSessions::new();
    sessions.register("a".to_string());
    sessions.stop(&"ghost".to_string());
    assert!(sessions.is_registered(&"a".to_string()));
    assert_eq!(sessions.len(), 1);
}

#[test]
fn stopped_session_can_never_give_rise_to_later_successors() {
    let mut sessions = ContinuousSessions::new();
    sessions.register("a".to_string());
    sessions.stop(&"a".to_string());
    // However often the loop would try, rotation under the stopped
    // identifier keeps failing and registers nothing.
    for next in ["b", "c", "d"] {
        assert!(!sessions.rotate(&"a".to_string(), next.to_string()));
        assert!(!sessions.is_registered(&next.to_string()));
    }
    assert_eq!(sessions.len(), 0);
}
