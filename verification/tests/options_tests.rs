use panoptes::options::CommitOptions;

#[test]
fn parse_mixed_case_and_unknown_tokens() {
    let o = CommitOptions::parse("date,HASH, bogus");
    assert!(o.date);
    assert!(o.hash);
    assert!(!o.message);
}

#[test]
fn parse_all_and_empty() {
    let all = CommitOptions::parse("all");
    assert_eq!(all, CommitOptions::all());
    assert!(all.date && all.hash && all.message);

    let none = CommitOptions::parse("");
    assert_eq!(none, CommitOptions::empty());
    assert!(none.is_empty());
}

#[test]
fn parse_trims_whitespace() {
    let o = CommitOptions::parse("  MeSsAgE\t ");
    assert!(o.message);
    assert!(!o.date);
    assert!(!o.hash);
}

#[test]
fn parse_trims_unicode_whitespace() {
    let o = CommitOptions::parse("\u{00A0}date\u{2003}");
    assert!(o.date);
    assert!(!o.hash);
    assert!(!o.message);
}

#[test]
fn parse_never_fails_on_garbage() {
    let o = CommitOptions::parse(",,;;not a flag,,\n,");
    assert!(o.is_empty());
}

#[test]
fn parse_combines_repeated_and_all() {
    let o = CommitOptions::parse("date,date,hash");
    assert!(o.date && o.hash && !o.message);

    let p = CommitOptions::parse("bogus,all");
    assert_eq!(p, CommitOptions::all());
}

#[test]
fn flag_set_operations() {
    let d = CommitOptions { date: true, hash: false, message: false };
    let h = CommitOptions { date: false, hash: true, message: false };
    let dh = d.union(h);
    assert!(dh.date && dh.hash && !dh.message);
    assert!(dh.contains(d));
    assert!(dh.contains(h));
    assert!(!d.contains(h));
    assert!(CommitOptions::all().contains(dh));
    assert!(!CommitOptions::empty().contains(d));
}

#[test]
fn flag_domain_length() {
    assert_eq!(CommitOptions::length(), 3);
}
