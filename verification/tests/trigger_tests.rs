use panoptes::trigger::{owner_of, path_contains, poll_due, relevant_event, Debouncer, FsEventKind};

#[test]
fn poll_fires_exactly_on_the_delay() {
    assert!(!poll_due(104, 100, 5));
    assert!(poll_due(105, 100, 5));
    assert!(poll_due(200, 100, 5));
    assert!(!poll_due(99, 100, 5));
    assert!(poll_due(0, 0, 0));
}

#[test]
fn relevant_events_trigger_and_odd_ones_are_skipped() {
    assert!(relevant_event(FsEventKind::Created));
    assert!(relevant_event(FsEventKind::Written));
    assert!(relevant_event(FsEventKind::Removed));
    assert!(relevant_event(FsEventKind::PermissionChanged));
    assert!(relevant_event(FsEventKind::Settled));
    assert!(!relevant_event(FsEventKind::Renamed));
    assert!(!relevant_event(FsEventKind::Rescan));
    assert!(!relevant_event(FsEventKind::Faulted));
}

#[test]
fn path_containment_respects_component_boundaries() {
    let root = "/repo/a/.git".to_string();
    assert!(path_contains(&root, &"/repo/a/.git/index".to_string()));
    assert!(path_contains(&root, &"/repo/a/.git".to_string()));
    assert!(!path_contains(&root, &"/repo/a/.gitmodules".to_string()));
    assert!(!path_contains(&root, &"/repo/b/.git/index".to_string()));
    assert!(!path_contains(&root, &"/repo".to_string()));
}

#[test]
fn changed_path_maps_to_owning_repository() {
    let roots = vec![
        "/repo/a/.git".to_string(),
        "/repo/b/.git".to_string(),
    ];
    assert_eq!(owner_of(&roots, &"/repo/b/.git/HEAD".to_string()), Some(1));
    assert_eq!(owner_of(&roots, &"/repo/a/.git/objects/ab".to_string()), Some(0));
    assert_eq!(owner_of(&roots, &"/elsewhere/x".to_string()), None);
}

#[test]
fn debouncer_coalesces_a_burst_into_one_trigger() {
    let mut d = Debouncer::new(3);
    assert_eq!(d.fire(10), None);
    d.note_event(0, 10);
    d.note_event(1, 11);
    d.note_event(0, 12);
    assert_eq!(d.fire(12), None);
    let fired = d.fire(13);
    assert_eq!(fired, Some(vec![0, 1]));
    assert_eq!(d.fire(14), None);
}

#[test]
fn debouncer_window_is_not_extended_by_later_events() {
    let mut d = Debouncer::new(5);
    d.note_event(7, 100);
    d.note_event(7, 104);
    let fired = d.fire(105);
    assert_eq!(fired, Some(vec![7]));
}
