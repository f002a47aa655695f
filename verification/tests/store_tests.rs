use panoptes::store::Watchlist;

fn list(w: &Watchlist, group: Option<&str>) -> Vec<String> {
    let owned = group.map(|g| g.to_string());
    w.get_repositories(owned.as_ref())
}

#[test]
fn register_is_idempotent() {
    let mut w = Watchlist::new();
    w.add_repository("/repo/a".to_string(), Some("work".to_string()));
    w.add_repository("/repo/a".to_string(), Some("work".to_string()));
    assert_eq!(w.membership_count(), 1);
    assert_eq!(list(&w, None), vec!["/repo/a".to_string()]);
    assert_eq!(list(&w, Some("work")), vec!["/repo/a".to_string()]);
}

#[test]
fn list_all_returns_each_repository_once() {
    let mut w = Watchlist::new();
    w.add_repository("/repo/a".to_string(), Some("work".to_string()));
    w.add_repository("/repo/b".to_string(), None);
    w.add_repository("/repo/c".to_string(), Some("play".to_string()));
    w.add_repository("/repo/a".to_string(), Some("play".to_string()));
    let all = list(&w, None);
    assert_eq!(
        all,
        vec!["/repo/a".to_string(), "/repo/b".to_string(), "/repo/c".to_string()]
    );
}

#[test]
fn group_listing_is_exact_and_stable() {
    let mut w = Watchlist::new();
    w.add_repository("/repo/a".to_string(), Some("work".to_string()));
    w.add_repository("/repo/b".to_string(), Some("work".to_string()));
    w.add_repository("/repo/c".to_string(), Some("play".to_string()));
    let first = list(&w, Some("work"));
    let second = list(&w, Some("work"));
    assert_eq!(first, vec!["/repo/a".to_string(), "/repo/b".to_string()]);
    assert_eq!(first, second);
    assert_eq!(list(&w, Some("play")), vec!["/repo/c".to_string()]);
}

#[test]
fn scenario_two_repositories_one_group() {
    let mut w = Watchlist::new();
    w.add_repository("/repo/a".to_string(), Some("work".to_string()));
    w.add_repository("/repo/b".to_string(), None);
    assert_eq!(
        list(&w, None),
        vec!["/repo/a".to_string(), "/repo/b".to_string()]
    );
    assert_eq!(list(&w, Some("work")), vec!["/repo/a".to_string()]);
    assert_eq!(list(&w, Some("missing")), Vec::<String>::new());
}

#[test]
fn empty_group_left_in_store() {
    let mut w = Watchlist::new();
    w.add_repository("/repo/a".to_string(), Some("work".to_string()));
    // The same repository joins a second group; the first keeps its member.
    w.add_repository("/repo/a".to_string(), Some("extra".to_string()));
    assert_eq!(w.membership_count(), 2);
    assert_eq!(list(&w, Some("work")), vec!["/repo/a".to_string()]);
    assert_eq!(list(&w, Some("extra")), vec!["/repo/a".to_string()]);
    assert_eq!(list(&w, None), vec!["/repo/a".to_string()]);
}

#[test]
fn fresh_store_is_empty() {
    let w = Watchlist::new();
    assert_eq!(list(&w, None), Vec::<String>::new());
    assert_eq!(list(&w, Some("anything")), Vec::<String>::new());
    assert_eq!(w.membership_count(), 0);
}
