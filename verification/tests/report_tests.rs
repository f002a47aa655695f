use panoptes::options::CommitOptions;
use panoptes::report::{
    render, summarize_all, CommitInfo, CommitSection, RepoSnapshot, ResolveOutcome, StatusFlags,
    Summarize,
};

fn sample_snapshot() -> RepoSnapshot {
    RepoSnapshot {
        path: "/work/demo".to_string(),
        branch: Some("main".to_string()),
        statuses: vec![(
            "src/lib.rs".to_string(),
            StatusFlags { wt_modified: true, ..Default::default() },
        )],
        commit: Some(CommitInfo {
            message: "add feature\n\nlong body".to_string(),
            timestamp: 1,
            hash: "deadbeef".to_string(),
        }),
    }
}

#[test]
fn no_changes_omits_file_status_section() {
    let mut snap = sample_snapshot();
    snap.statuses = Vec::new();
    let report = snap.summarize(&CommitOptions::all());
    let text = render(&report);
    assert!(!text.contains("File status"));
    assert!(text.contains("Last commit:"));
}

#[test]
fn empty_options_omit_commit_section() {
    let snap = sample_snapshot();
    let report = snap.summarize(&CommitOptions::empty());
    assert!(matches!(report.commit, CommitSection::Omitted));
    let text = render(&report);
    assert!(!text.contains("Last commit"));
    assert!(text.contains("File status:"));
}

#[test]
fn message_is_truncated_to_first_line() {
    let snap = sample_snapshot();
    let report = snap.summarize(&CommitOptions::all());
    match &report.commit {
        CommitSection::Details { message, .. } => {
            assert_eq!(message.as_deref(), Some("add feature"));
        }
        _ => panic!("expected commit details"),
    }
    let text = render(&report);
    assert!(text.contains("    add feature\n"));
    assert!(!text.contains("long body"));
}

#[test]
fn date_is_rendered_from_epoch_seconds() {
    let snap = sample_snapshot();
    let report = snap.summarize(&CommitOptions { date: true, hash: false, message: false });
    match &report.commit {
        CommitSection::Details { message, date, hash } => {
            assert!(message.is_none());
            assert!(hash.is_none());
            assert_eq!(date.as_deref(), Some("1970-01-01 00:00:01"));
        }
        _ => panic!("expected commit details"),
    }
}

#[test]
fn flags_are_independent() {
    let snap = sample_snapshot();
    let report = snap.summarize(&CommitOptions { date: false, hash: true, message: false });
    match &report.commit {
        CommitSection::Details { message, date, hash } => {
            assert!(message.is_none());
            assert!(date.is_none());
            assert_eq!(hash.as_deref(), Some("deadbeef"));
        }
        _ => panic!("expected commit details"),
    }
}

#[test]
fn unresolved_head_gets_unknown_label() {
    let mut snap = sample_snapshot();
    snap.branch = None;
    let report = snap.summarize(&CommitOptions::empty());
    assert_eq!(report.branch, "unknown");
}

#[test]
fn unresolved_commit_reported_inline() {
    let mut snap = sample_snapshot();
    snap.commit = None;
    let report = snap.summarize(&CommitOptions::all());
    assert!(matches!(report.commit, CommitSection::Unavailable));
    let text = render(&report);
    assert!(text.contains("Last commit: unavailable"));
}

#[test]
fn full_report_text_is_deterministic() {
    let snap = sample_snapshot();
    let report = snap.summarize(&CommitOptions::all());
    let text = render(&report);
    let expected = "/work/demo [main]\n\
                    File status:\n\
                    \x20 WT_MODIFIED src/lib.rs\n\
                    Last commit:\n\
                    \x20 Message:\n\
                    \x20   add feature\n\
                    \x20 Date:\n\
                    \x20   1970-01-01 00:00:01\n\
                    \x20 Hash:\n\
                    \x20   deadbeef\n";
    assert_eq!(text, expected);
}

#[test]
fn combined_flags_render_with_separator() {
    let mut snap = sample_snapshot();
    snap.statuses = vec![(
        "src/lib.rs".to_string(),
        StatusFlags { index_new: true, wt_modified: true, ..Default::default() },
    )];
    let report = snap.summarize(&CommitOptions::empty());
    let text = render(&report);
    assert!(text.contains("  INDEX_NEW | WT_MODIFIED src/lib.rs\n"));
}

#[test]
fn one_broken_repository_does_not_stop_the_report() {
    let healthy = sample_snapshot();
    let items = vec![
        ResolveOutcome::Failed {
            path: "/gone".to_string(),
            error: "not a repository".to_string(),
        },
        ResolveOutcome::Resolved(healthy),
    ];
    let rendered = summarize_all(&items, &CommitOptions::empty());
    assert_eq!(rendered.len(), 2);
    assert_eq!(rendered[0], "/gone [unavailable: not a repository]\n");
    assert!(rendered[1].starts_with("/work/demo [main]\n"));
}
