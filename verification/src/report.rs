//! The status summarizer: turns a per-repository inspection snapshot and a
//! commit-detail configuration into a structured report, and renders the
//! report as deterministic text.

use vstd::prelude::*;
use vstd::string::*;

use crate::options::CommitOptions;

verus! {

/// The largest epoch-seconds value (exclusive) up to which a calendar
/// rendering is promised: the first instant of year 10000, UTC.
pub const MAX_RENDERED_TIMESTAMP: i64 = 253402300800;

/// Status flags for one working-tree path. A path can carry several at
/// once (index-dirty and worktree-dirty at the same time).
#[derive(Clone, Copy, Debug, PartialEq, Eq, Structural, Default)]
pub struct StatusFlags {
    pub index_new: bool,
    pub index_modified: bool,
    pub index_deleted: bool,
    pub index_renamed: bool,
    pub index_typechange: bool,
    pub wt_new: bool,
    pub wt_modified: bool,
    pub wt_deleted: bool,
    pub wt_renamed: bool,
    pub wt_typechange: bool,
    pub ignored: bool,
    pub conflicted: bool,
}

/// The last-commit metadata of a repository, as plain values.
pub struct CommitInfo {
    pub message: String,
    pub timestamp: i64,
    pub hash: String,
}

/// What one inspection of a repository yielded, as plain values: the
/// repository's display path, its head branch shorthand (or nothing, when
/// the head could not be resolved), the working-tree status entries in
/// inspector order, and the last commit (or nothing, when unresolved).
pub struct RepoSnapshot {
    pub path: String,
    pub branch: Option<String>,
    pub statuses: Vec<(String, StatusFlags)>,
    pub commit: Option<CommitInfo>,
}

/// The mathematical content of a [`CommitInfo`].
pub ghost struct CommitInfoModel {
    pub message: Seq<char>,
    pub timestamp: int,
    pub hash: Seq<char>,
}

/// The mathematical content of a [`RepoSnapshot`].
pub ghost struct SnapModel {
    pub path: Seq<char>,
    pub branch: Option<Seq<char>>,
    pub statuses: Seq<(Seq<char>, StatusFlags)>,
    pub commit: Option<CommitInfoModel>,
}

impl View for CommitInfo {
    type V = CommitInfoModel;

    open spec fn view(&self) -> CommitInfoModel {
        CommitInfoModel {
            message: self.message@,
            timestamp: self.timestamp as int,
            hash: self.hash@,
        }
    }
}

impl View for RepoSnapshot {
    type V = SnapModel;

    open spec fn view(&self) -> SnapModel {
        SnapModel {
            path: self.path@,
            branch: match self.branch {
                Option::None => Option::None,
                Option::Some(b) => Option::Some(b@),
            },
            statuses: self.statuses@.map_values(|e: (String, StatusFlags)| (e.0@, e.1)),
            commit: match self.commit {
                Option::None => Option::None,
                Option::Some(c) => Option::Some(c@),
            },
        }
    }
}

/// The commit section of a report: omitted (no detail requested),
/// unavailable (detail requested but the head commit unresolved), or the
/// requested details, each present exactly when its flag is set.
pub enum CommitSection {
    Omitted,
    Unavailable,
    Details { message: Option<String>, date: Option<String>, hash: Option<String> },
}

/// The ghost counterpart of [`CommitSection`].
pub ghost enum CommitSectionModel {
    Omitted,
    Unavailable,
    Details { message: Option<Seq<char>>, date: Option<Seq<char>>, hash: Option<Seq<char>> },
}

impl View for CommitSection {
    type V = CommitSectionModel;

    open spec fn view(&self) -> CommitSectionModel {
        match self {
            CommitSection::Omitted => CommitSectionModel::Omitted,
            CommitSection::Unavailable => CommitSectionModel::Unavailable,
            CommitSection::Details { message, date, hash } => CommitSectionModel::Details {
                message: match message {
                    Option::None => Option::None,
                    Option::Some(m) => Option::Some(m@),
                },
                date: match date {
                    Option::None => Option::None,
                    Option::Some(d) => Option::Some(d@),
                },
                hash: match hash {
                    Option::None => Option::None,
                    Option::Some(h) => Option::Some(h@),
                },
            },
        }
    }
}

/// A structured status report for one repository.
pub struct StatusReport {
    pub path: String,
    pub branch: String,
    pub entries: Vec<(String, StatusFlags)>,
    pub commit: CommitSection,
}

/// The mathematical content of a [`StatusReport`].
pub ghost struct ReportModel {
    pub path: Seq<char>,
    pub branch: Seq<char>,
    pub entries: Seq<(Seq<char>, StatusFlags)>,
    pub commit: CommitSectionModel,
}

impl View for StatusReport {
    type V = ReportModel;

    open spec fn view(&self) -> ReportModel {
        ReportModel {
            path: self.path@,
            branch: self.branch@,
            entries: self.entries@.map_values(|e: (String, StatusFlags)| (e.0@, e.1)),
            commit: self.commit@,
        }
    }
}

/// The calendar text chrono renders for an epoch-seconds timestamp
/// ("year-month-day hour:minute:second", UTC, second precision): a function
/// of the timestamp alone.
pub uninterp spec fn timestamp_text(secs: int) -> Seq<char>;

/// Relies on chrono's `DateTime::<Utc>::from_timestamp` and the `Display`
/// rendering of `NaiveDateTime`: the text depends on the epoch seconds
/// alone (UTC, second precision), and a timestamp between the epoch and
/// year 10000 is documented to be well inside chrono's representable range.
#[verifier::external_body]
fn format_timestamp(secs: i64) -> (r: Option<String>)
    ensures
        r matches Some(t) ==> t@ == timestamp_text(secs as int),
        0 <= secs < MAX_RENDERED_TIMESTAMP ==> r is Some,
{
    match chrono::DateTime::<chrono::Utc>::from_timestamp(secs, 0) {
        Option::Some(dt) => Option::Some(format!("{}", dt.naive_utc())),
        Option::None => Option::None,
    }
}

/// The index of the first line break in `s`, or `s.len()` if there is none.
pub open spec fn first_newline(s: Seq<char>) -> nat
    decreases s.len(),
{
    if s.len() == 0 {
        0
    } else if s[0] == '\n' {
        0
    } else {
        1 + first_newline(s.drop_first())
    }
}

/// The first line of `s`: everything before the first line break.
pub open spec fn first_line(s: Seq<char>) -> Seq<char> {
    s.take(first_newline(s) as int)
}

/// `first_newline` points at a line break, and no line break comes before it.
proof fn lemma_first_newline(s: Seq<char>)
    ensures
        first_newline(s) <= s.len(),
        first_newline(s) < s.len() ==> s[first_newline(s) as int] == '\n',
        forall|j: int| 0 <= j < first_newline(s) ==> s[j] != '\n',
    decreases s.len(),
{
    if s.len() == 0 || s[0] == '\n' {
    } else {
        lemma_first_newline(s.drop_first());
        assert forall|j: int| 0 <= j < first_newline(s) implies s[j] != '\n' by {
            if j > 0 {
                assert(s.drop_first()[j - 1] != '\n');
                assert(s.drop_first()[j - 1] == s[j]);
            }
        }
    }
}

/// A commit message is truncated to its first line: the rendered message
/// holds no line break, is a prefix of the full message, and stops exactly
/// at the first line break, if any.
pub proof fn lemma_first_line(s: Seq<char>)
    ensures
        forall|j: int| 0 <= j < first_line(s).len() ==> first_line(s)[j] != '\n',
        first_line(s) == s.take(first_line(s).len() as int),
        first_line(s).len() <= s.len(),
        first_line(s).len() < s.len() ==> s[first_line(s).len() as int] == '\n',
{
    lemma_first_newline(s);
}

/// Extracts the first line of a string.
fn first_line_of(s: &String) -> (r: String)
    ensures
        r@ == first_line(s@),
{
    let n = s.as_str().unicode_len();
    let mut i: usize = 0;
    loop
        invariant
            i <= n,
            n == s@.len(),
            forall|j: int| 0 <= j < i ==> s@[j] != '\n',
        ensures
            i <= n,
            forall|j: int| 0 <= j < i ==> s@[j] != '\n',
            i < n ==> s@[i as int] == '\n',
        decreases n - i,
    {
        if i == n {
            break ;
        }
        if s.as_str().get_char(i) == '\n' {
            break ;
        }
        i = i + 1;
    }
    proof {
        lemma_first_newline(s@);
        assert(first_newline(s@) == i) by {
            if first_newline(s@) < i {
                assert(s@[first_newline(s@) as int] == '\n');
            } else if first_newline(s@) > i {
                assert(i < s@.len());
                assert(s@[i as int] != '\n');
            }
        }
    }
    let part = s.as_str().substring_char(0, i);
    String::from_str(part)
}

/// The label a report carries when the head reference cannot be resolved.
pub open spec fn unknown_branch() -> Seq<char> {
    "unknown"@
}

/// Does the report `r` summarize the snapshot `s` under options `opts`?
/// The identity and entries carry over unchanged; the branch label falls
/// back to a marked "unknown"; the commit section is omitted exactly when
/// no detail is requested, marked unavailable when detail is requested but
/// the commit is unresolved, and otherwise holds each detail exactly when
/// its flag is set, the message truncated to its first line and the date
/// rendered from the epoch-seconds timestamp.
pub open spec fn report_matches(s: SnapModel, opts: CommitOptions, r: ReportModel) -> bool {
    &&& r.path == s.path
    &&& (match s.branch {
        Option::Some(b) => r.branch == b,
        Option::None => r.branch == unknown_branch(),
    })
    &&& r.entries == s.statuses
    &&& (if opts.spec_is_empty() {
        r.commit is Omitted
    } else {
        match s.commit {
            Option::None => r.commit is Unavailable,
            Option::Some(c) => match r.commit {
                CommitSectionModel::Details { message, date, hash } => {
                    &&& message == (if opts.message {
                        Option::Some(first_line(c.message))
                    } else {
                        Option::<Seq<char>>::None
                    })
                    &&& hash == (if opts.hash {
                        Option::Some(c.hash)
                    } else {
                        Option::<Seq<char>>::None
                    })
                    &&& (opts.date <==> date is Some)
                    &&& (opts.date && 0 <= c.timestamp < MAX_RENDERED_TIMESTAMP as int
                        ==> date == Option::Some(timestamp_text(c.timestamp)))
                },
                _ => false,
            },
        }
    })
}

/// Summarization: building the structured status report of a repository
/// snapshot under a commit-detail configuration.
pub trait Summarize {
    /// What this value exposes to the summarizer.
    spec fn snap_model(&self) -> SnapModel;

    /// Builds the structured status report.
    fn summarize(&self, commit_opts: &CommitOptions) -> (r: StatusReport)
        ensures
            report_matches(self.snap_model(), *commit_opts, r@),
    ;
}

/// Clones working-tree status entries, preserving content and order.
fn clone_entries(v: &Vec<(String, StatusFlags)>) -> (r: Vec<(String, StatusFlags)>)
    ensures
        r@.map_values(|e: (String, StatusFlags)| (e.0@, e.1)) == v@.map_values(
            |e: (String, StatusFlags)| (e.0@, e.1),
        ),
{
    let mut out: Vec<(String, StatusFlags)> = Vec::new();
    let mut i: usize = 0;
    while i < v.len()
        invariant
            i <= v@.len(),
            out@.len() == i,
            forall|j: int|
                0 <= j < i ==> (#[trigger] out@[j]).0@ == v@[j].0@ && out@[j].1 == v@[j].1,
        decreases v@.len() - i,
    {
        let s = v[i].0.clone();
        let f = v[i].1;
        out.push((s, f));
        i = i + 1;
    }
    proof {
        assert(out@.map_values(|e: (String, StatusFlags)| (e.0@, e.1)) =~~= v@.map_values(
            |e: (String, StatusFlags)| (e.0@, e.1),
        ));
    }
    out
}

impl Summarize for RepoSnapshot {
    open spec fn snap_model(&self) -> SnapModel {
        self@
    }

    fn summarize(&self, commit_opts: &CommitOptions) -> (r: StatusReport) {
        let branch = match &self.branch {
            Option::Some(b) => b.clone(),
            Option::None => String::from_str("unknown"),
        };
        let entries = clone_entries(&self.statuses);
        let commit = if commit_opts.is_empty() {
            CommitSection::Omitted
        } else {
            match &self.commit {
                Option::None => CommitSection::Unavailable,
                Option::Some(c) => {
                    let message = if commit_opts.message {
                        Option::Some(first_line_of(&c.message))
                    } else {
                        Option::None
                    };
                    let date = if commit_opts.date {
                        match format_timestamp(c.timestamp) {
                            Option::Some(t) => Option::Some(t),
                            Option::None => Option::Some(String::from_str("(time out of range)")),
                        }
                    } else {
                        Option::None
                    };
                    let hash = if commit_opts.hash {
                        Option::Some(c.hash.clone())
                    } else {
                        Option::None
                    };
                    CommitSection::Details { message, date, hash }
                },
            }
        };
        StatusReport { path: self.path.clone(), branch, entries, commit }
    }
}

/// Joins `name` onto a flag list: nothing when the flag is clear, the bare
/// name onto an empty list, and a " | "-separated continuation otherwise.
pub open spec fn append_part(acc: Seq<char>, cond: bool, name: Seq<char>) -> Seq<char> {
    if !cond {
        acc
    } else if acc.len() == 0 {
        name
    } else {
        acc + " | "@ + name
    }
}

/// The textual form of a status flag set: the names of the set flags, in a
/// fixed order, separated by " | " (empty when no flag is set).
pub open spec fn flags_text(f: StatusFlags) -> Seq<char> {
    let t = Seq::<char>::empty();
    let t = append_part(t, f.index_new, "INDEX_NEW"@);
    let t = append_part(t, f.index_modified, "INDEX_MODIFIED"@);
    let t = append_part(t, f.index_deleted, "INDEX_DELETED"@);
    let t = append_part(t, f.index_renamed, "INDEX_RENAMED"@);
    let t = append_part(t, f.index_typechange, "INDEX_TYPECHANGE"@);
    let t = append_part(t, f.wt_new, "WT_NEW"@);
    let t = append_part(t, f.wt_modified, "WT_MODIFIED"@);
    let t = append_part(t, f.wt_deleted, "WT_DELETED"@);
    let t = append_part(t, f.wt_renamed, "WT_RENAMED"@);
    let t = append_part(t, f.wt_typechange, "WT_TYPECHANGE"@);
    let t = append_part(t, f.ignored, "IGNORED"@);
    let t = append_part(t, f.conflicted, "CONFLICTED"@);
    t
}

/// Joins one flag name onto the textual flag list being built.
fn append_flag(acc: &mut String, cond: bool, name: &str)
    ensures
        final(acc)@ == append_part(old(acc)@, cond, name@),
{
    if cond {
        if acc.as_str().unicode_len() == 0 {
            let replaced = String::from_str(name);
            *acc = replaced;
            proof {
                assert(acc@ =~= append_part(old(acc)@, cond, name@));
            }
        } else {
            acc.append(" | ");
            acc.append(name);
            proof {
                assert(acc@ =~= old(acc)@ + " | "@ + name@);
            }
        }
    }
}

/// The textual form of one entry's status flag set.
fn flags_text_of(f: &StatusFlags) -> (r: String)
    ensures
        r@ == flags_text(*f),
{
    let mut t = String::new();
    append_flag(&mut t, f.index_new, "INDEX_NEW");
    append_flag(&mut t, f.index_modified, "INDEX_MODIFIED");
    append_flag(&mut t, f.index_deleted, "INDEX_DELETED");
    append_flag(&mut t, f.index_renamed, "INDEX_RENAMED");
    append_flag(&mut t, f.index_typechange, "INDEX_TYPECHANGE");
    append_flag(&mut t, f.wt_new, "WT_NEW");
    append_flag(&mut t, f.wt_modified, "WT_MODIFIED");
    append_flag(&mut t, f.wt_deleted, "WT_DELETED");
    append_flag(&mut t, f.wt_renamed, "WT_RENAMED");
    append_flag(&mut t, f.wt_typechange, "WT_TYPECHANGE");
    append_flag(&mut t, f.ignored, "IGNORED");
    append_flag(&mut t, f.conflicted, "CONFLICTED");
    t
}

/// The repository identity line: path and branch label.
pub open spec fn ident_line(path: Seq<char>, branch: Seq<char>) -> Seq<char> {
    path + " ["@ + branch + "]\n"@
}

/// The rendered line of one working-tree status entry.
pub open spec fn entry_line(e: (Seq<char>, StatusFlags)) -> Seq<char> {
    "  "@ + flags_text(e.1) + " "@ + e.0 + "\n"@
}

/// The rendered lines of all working-tree status entries, in order.
pub open spec fn entry_lines(es: Seq<(Seq<char>, StatusFlags)>) -> Seq<char>
    decreases es.len(),
{
    if es.len() == 0 {
        Seq::<char>::empty()
    } else {
        entry_lines(es.drop_last()) + entry_line(es.last())
    }
}

/// The file-status section: omitted entirely when there are no entries.
pub open spec fn entries_block(es: Seq<(Seq<char>, StatusFlags)>) -> Seq<char> {
    if es.len() == 0 {
        Seq::<char>::empty()
    } else {
        "File status:\n"@ + entry_lines(es)
    }
}

/// The commit section: empty when omitted, a marked diagnostic when the
/// commit was unresolved, and otherwise the requested details.
pub open spec fn commit_block(c: CommitSectionModel) -> Seq<char> {
    match c {
        CommitSectionModel::Omitted => Seq::<char>::empty(),
        CommitSectionModel::Unavailable => "Last commit: unavailable\n"@,
        CommitSectionModel::Details { message, date, hash } => "Last commit:\n"@ + (match message {
            Option::Some(m) => "  Message:\n    "@ + m + "\n"@,
            Option::None => Seq::<char>::empty(),
        }) + (match date {
            Option::Some(d) => "  Date:\n    "@ + d + "\n"@,
            Option::None => Seq::<char>::empty(),
        }) + (match hash {
            Option::Some(h) => "  Hash:\n    "@ + h + "\n"@,
            Option::None => Seq::<char>::empty(),
        }),
    }
}

/// The full deterministic rendering of a status report.
pub open spec fn render_spec(r: ReportModel) -> Seq<char> {
    ident_line(r.path, r.branch) + entries_block(r.entries) + commit_block(r.commit)
}

/// Appends the rendered line of one working-tree status entry.
fn render_entry(out: &mut String, e: &(String, StatusFlags))
    ensures
        final(out)@ == old(out)@ + entry_line((e.0@, e.1)),
{
    out.append("  ");
    let ft = flags_text_of(&e.1);
    out.append(ft.as_str());
    out.append(" ");
    out.append(e.0.as_str());
    out.append("\n");
    proof {
        assert(out@ =~= old(out)@ + entry_line((e.0@, e.1)));
    }
}

/// Appends the file-status section, omitted entirely when there are no
/// entries.
fn render_entries(out: &mut String, entries: &Vec<(String, StatusFlags)>)
    ensures
        final(out)@ == old(out)@ + entries_block(
            entries@.map_values(|e: (String, StatusFlags)| (e.0@, e.1)),
        ),
{
    let ghost em = entries@.map_values(|e: (String, StatusFlags)| (e.0@, e.1));
    if entries.len() == 0 {
        proof {
            assert(old(out)@ + entries_block(em) =~= out@);
        }
        return ;
    }
    out.append("File status:\n");
    let mut i: usize = 0;
    proof {
        assert(out@ =~= old(out)@ + "File status:\n"@ + entry_lines(em.take(0)));
    }
    while i < entries.len()
        invariant
            i <= entries@.len(),
            em == entries@.map_values(|e: (String, StatusFlags)| (e.0@, e.1)),
            out@ == old(out)@ + "File status:\n"@ + entry_lines(em.take(i as int)),
        decreases entries@.len() - i,
    {
        render_entry(out, &entries[i]);
        proof {
            assert(em.take(i as int + 1).drop_last() =~~= em.take(i as int));
            assert(em.take(i as int + 1).last() == em[i as int]);
            assert(em[i as int] == (entries@[i as int].0@, entries@[i as int].1));
            assert(out@ =~= old(out)@ + "File status:\n"@ + entry_lines(em.take(i as int + 1)));
        }
        i = i + 1;
    }
    proof {
        assert(em.take(em.len() as int) =~~= em);
        assert(out@ =~= old(out)@ + entries_block(em));
    }
}

/// Appends the commit section.
fn render_commit(out: &mut String, commit: &CommitSection)
    ensures
        final(out)@ == old(out)@ + commit_block(commit@),
{
    match commit {
        CommitSection::Omitted => {
            proof {
                assert(out@ =~= old(out)@ + commit_block(commit@));
            }
        },
        CommitSection::Unavailable => {
            out.append("Last commit: unavailable\n");
            proof {
                assert(out@ =~= old(out)@ + commit_block(commit@));
            }
        },
        CommitSection::Details { message, date, hash } => {
            out.append("Last commit:\n");
            match message {
                Option::Some(m) => {
                    out.append("  Message:\n    ");
                    out.append(m.as_str());
                    out.append("\n");
                },
                Option::None => {},
            }
            match date {
                Option::Some(d) => {
                    out.append("  Date:\n    ");
                    out.append(d.as_str());
                    out.append("\n");
                },
                Option::None => {},
            }
            match hash {
                Option::Some(h) => {
                    out.append("  Hash:\n    ");
                    out.append(h.as_str());
                    out.append("\n");
                },
                Option::None => {},
            }
            proof {
                assert(out@ =~= old(out)@ + commit_block(commit@));
            }
        },
    }
}

/// Renders a status report as text.
pub fn render(report: &StatusReport) -> (r: String)
    ensures
        r@ == render_spec(report@),
{
    let mut out = String::new();
    out.append(report.path.as_str());
    out.append(" [");
    out.append(report.branch.as_str());
    out.append("]\n");
    proof {
        assert(out@ =~= ident_line(report@.path, report@.branch));
    }
    let ghost head = out@;
    render_entries(&mut out, &report.entries);
    let ghost body = out@;
    render_commit(&mut out, &report.commit);
    proof {
        assert(out@ =~= render_spec(report@));
    }
    out
}

/// A report of a repository with zero working-tree changes omits the
/// file-status section, and a report under an empty commit-detail
/// configuration omits the commit section entirely: in each case the
/// rendered text is exactly the remaining sections.
pub proof fn lemma_sections_omitted(s: SnapModel, opts: CommitOptions, r: ReportModel)
    requires
        report_matches(s, opts, r),
    ensures
        s.statuses.len() == 0 ==> render_spec(r) == ident_line(r.path, r.branch) + commit_block(
            r.commit,
        ),
        opts.spec_is_empty() ==> render_spec(r) == ident_line(r.path, r.branch) + entries_block(
            r.entries,
        ),
{
    if s.statuses.len() == 0 {
        assert(render_spec(r) =~= ident_line(r.path, r.branch) + commit_block(r.commit));
    }
    if opts.spec_is_empty() {
        assert(render_spec(r) =~= ident_line(r.path, r.branch) + entries_block(r.entries));
    }
}

/// What one refresh cycle found for one watched repository: a snapshot, or
/// a resolution failure with the path and a diagnostic.
pub enum ResolveOutcome {
    Resolved(RepoSnapshot),
    Failed { path: String, error: String },
}

/// The inline diagnostic rendered in place of an unresolvable repository's
/// report.
pub open spec fn failure_text(path: Seq<char>, error: Seq<char>) -> Seq<char> {
    path + " [unavailable: "@ + error + "]\n"@
}

/// Renders the diagnostic for a repository that could not be resolved.
fn render_failure(path: &String, error: &String) -> (r: String)
    ensures
        r@ == failure_text(path@, error@),
{
    let mut out = String::new();
    out.append(path.as_str());
    out.append(" [unavailable: ");
    out.append(error.as_str());
    out.append("]\n");
    proof {
        assert(out@ =~= failure_text(path@, error@));
    }
    out
}

/// Is `text` the rendered block owed for `item`: a rendered report of the
/// snapshot when it resolved, and the inline diagnostic when it did not?
pub open spec fn outcome_reported(item: ResolveOutcome, opts: CommitOptions, text: Seq<char>) -> bool {
    match item {
        ResolveOutcome::Resolved(s) => exists|m: ReportModel|
            report_matches(s@, opts, m) && text == render_spec(m),
        ResolveOutcome::Failed { path, error } => text == failure_text(path@, error@),
    }
}

/// Summarizes one refresh cycle: every outcome yields one rendered block,
/// in order. A resolution failure yields an inline diagnostic and never
/// stops the remaining repositories from being reported.
pub fn summarize_all(items: &Vec<ResolveOutcome>, commit_opts: &CommitOptions) -> (r: Vec<String>)
    ensures
        r@.len() == items@.len(),
        forall|i: int|
            0 <= i < items@.len() ==> outcome_reported(
                items@[i],
                *commit_opts,
                (#[trigger] r@[i])@,
            ),
{
    let mut out: Vec<String> = Vec::new();
    let mut i: usize = 0;
    while i < items.len()
        invariant
            i <= items@.len(),
            out@.len() == i,
            forall|j: int|
                0 <= j < i ==> outcome_reported(items@[j], *commit_opts, (#[trigger] out@[j])@),
        decreases items@.len() - i,
    {
        let ghost out0 = out@;
        match &items[i] {
            ResolveOutcome::Resolved(s) => {
                let rep = s.summarize(commit_opts);
                let text = render(&rep);
                let ghost m = rep@;
                let ghost tview = text@;
                proof {
                    assert(report_matches(s@, *commit_opts, m) && tview == render_spec(m));
                }
                out.push(text);
                proof {
                    assert((out@[i as int])@ == render_spec(m));
                    assert(outcome_reported(items@[i as int], *commit_opts, (out@[i as int])@));
                }
            },
            ResolveOutcome::Failed { path, error } => {
                let ghost pview = path@;
                let ghost eview = error@;
                let text = render_failure(path, error);
                out.push(text);
                proof {
                    assert((out@[i as int])@ == failure_text(pview, eview));
                    assert(outcome_reported(items@[i as int], *commit_opts, (out@[i as int])@));
                }
            },
        }
        proof {
            assert(forall|j: int| 0 <= j < i ==> out@[j] == out0[j]);
        }
        i = i + 1;
    }
    out
}

} // verus!
