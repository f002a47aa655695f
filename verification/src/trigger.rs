//! The refresh trigger: the decisions of the loop that re-inspects watched
//! repositories, either on a fixed-interval timer or on a debounced stream
//! of filesystem change notifications. The waiting itself (timer sleep,
//! channel receive) happens outside; this module decides, from plain
//! values, when a re-scan is due and which repository it concerns.

use vstd::prelude::*;

verus! {

/// A filesystem change notification kind, as delivered by the OS-level
/// watch facility.
#[derive(Clone, Copy, Debug, PartialEq, Eq, Structural)]
pub enum FsEventKind {
    Created,
    Written,
    Removed,
    PermissionChanged,
    Settled,
    Renamed,
    Rescan,
    Faulted,
}

/// Which event kinds trigger a re-summarization. Rename, rescan and fault
/// notifications are deliberately skipped (after logging, outside this
/// module): their intended semantics are unspecified, and skipping is the
/// safe default that cannot crash the loop.
pub open spec fn is_relevant(kind: FsEventKind) -> bool {
    match kind {
        FsEventKind::Created => true,
        FsEventKind::Written => true,
        FsEventKind::Removed => true,
        FsEventKind::PermissionChanged => true,
        FsEventKind::Settled => true,
        FsEventKind::Renamed => false,
        FsEventKind::Rescan => false,
        FsEventKind::Faulted => false,
    }
}

/// Decides whether an event kind triggers a re-summarization.
pub fn relevant_event(kind: FsEventKind) -> (r: bool)
    ensures
        r == is_relevant(kind),
{
    match kind {
        FsEventKind::Created => true,
        FsEventKind::Written => true,
        FsEventKind::Removed => true,
        FsEventKind::PermissionChanged => true,
        FsEventKind::Settled => true,
        FsEventKind::Renamed => false,
        FsEventKind::Rescan => false,
        FsEventKind::Faulted => false,
    }
}

/// Does the path `p` lie under the directory `root` (or name it exactly)?
/// Containment is by path components: `root` is a prefix and the next
/// character, if any, is a separator.
pub open spec fn path_under(root: Seq<char>, p: Seq<char>) -> bool {
    &&& root.len() <= p.len()
    &&& p.take(root.len() as int) == root
    &&& (p.len() == root.len() || p[root.len() as int] == '/')
}

/// Decides path containment.
pub fn path_contains(root: &String, p: &String) -> (r: bool)
    ensures
        r == path_under(root@, p@),
{
    let rl = root.as_str().unicode_len();
    let pl = p.as_str().unicode_len();
    if rl > pl {
        return false;
    }
    let mut i: usize = 0;
    while i < rl
        invariant
            i <= rl <= pl,
            rl == root@.len(),
            pl == p@.len(),
            forall|j: int| 0 <= j < i ==> p@[j] == root@[j],
        decreases rl - i,
    {
        if p.as_str().get_char(i) != root.as_str().get_char(i) {
            proof {
                assert(p@.take(rl as int)[i as int] != root@[i as int]);
            }
            return false;
        }
        i = i + 1;
    }
    proof {
        assert(p@.take(rl as int) =~= root@);
    }
    if pl == rl {
        true
    } else {
        p.as_str().get_char(rl) == '/'
    }
}

/// Finds which watched repository owns a changed path: the first stored
/// root under which the path lies, if any.
pub fn owner_of(roots: &Vec<String>, changed: &String) -> (r: Option<usize>)
    ensures
        match r {
            Option::Some(i) => i < roots@.len() && path_under(roots@[i as int]@, changed@)
                && forall|j: int| 0 <= j < i ==> !path_under((#[trigger] roots@[j])@, changed@),
            Option::None => forall|j: int|
                0 <= j < roots@.len() ==> !path_under((#[trigger] roots@[j])@, changed@),
        },
{
    let mut i: usize = 0;
    while i < roots.len()
        invariant
            i <= roots@.len(),
            forall|j: int| 0 <= j < i ==> !path_under((#[trigger] roots@[j])@, changed@),
        decreases roots@.len() - i,
    {
        if path_contains(&roots[i], changed) {
            return Option::Some(i);
        }
        i = i + 1;
    }
    Option::None
}

/// Is a purely time-driven refresh due? It is exactly when `delay` seconds
/// (or more) have passed since the last firing.
pub fn poll_due(now: u64, last: u64, delay: u64) -> (r: bool)
    ensures
        r == (now as int >= last as int + delay as int),
{
    now >= last && now - last >= delay
}

/// The debouncing state of the event-driven trigger: notifications landing
/// while a trigger is pending coalesce into it; the trigger fires once its
/// deadline passes, carrying every repository a coalesced event concerned.
pub struct Debouncer {
    pub window: u64,
    pub deadline: Option<u64>,
    pub pending: Vec<usize>,
}

impl Debouncer {
    /// Pending repository indices are stored once each.
    pub open spec fn wf(self) -> bool {
        forall|i: int, j: int|
            0 <= i < j < self.pending@.len() ==> self.pending@[i] != self.pending@[j]
    }

    /// A fresh debouncer with the given coalescing window, holding nothing.
    pub fn new(window: u64) -> (d: Debouncer)
        ensures
            d.wf(),
            d.window == window,
            d.deadline is None,
            d.pending@ == Seq::<usize>::empty(),
    {
        let d = Debouncer { window, deadline: Option::None, pending: Vec::new() };
        proof {
            assert(d.pending@ =~= Seq::<usize>::empty());
        }
        d
    }

    /// Notes a relevant event for the repository at index `repo`. The first
    /// event opens the coalescing window and sets the deadline; later
    /// events coalesce into the same pending trigger without extending it.
    /// The repository joins the pending set once, keeping first-event
    /// order.
    pub fn note_event(&mut self, repo: usize, now: u64)
        requires
            old(self).wf(),
        ensures
            final(self).wf(),
            final(self).window == old(self).window,
            final(self).deadline == (match old(self).deadline {
                Option::None => Option::Some(
                    (
                    if now as int + old(self).window as int <= u64::MAX as int {
                        (now + old(self).window) as u64
                    } else {
                        u64::MAX
                    }),
                ),
                Option::Some(d) => Option::Some(d),
            }),
            old(self).pending@.contains(repo) ==> final(self).pending@ == old(self).pending@,
            !old(self).pending@.contains(repo) ==> final(self).pending@ == old(
                self,
            ).pending@.push(repo),
    {
        if self.deadline.is_none() {
            let deadline = if now <= u64::MAX - self.window {
                now + self.window
            } else {
                u64::MAX
            };
            self.deadline = Option::Some(deadline);
        }
        let mut seen = false;
        let mut i: usize = 0;
        while i < self.pending.len()
            invariant
                i <= self.pending@.len(),
                seen == exists|j: int| 0 <= j < i && self.pending@[j] == repo,
            decreases self.pending@.len() - i,
        {
            if self.pending[i] == repo {
                seen = true;
                proof {
                    assert(self.pending@[i as int] == repo);
                }
            }
            i = i + 1;
        }
        if !seen {
            self.pending.push(repo);
        }
    }

    /// Fires the pending trigger if its deadline has passed: hands out the
    /// coalesced repository set and resets the state. Returns nothing when
    /// no trigger is pending or the window is still open.
    pub fn fire(&mut self, now: u64) -> (r: Option<Vec<usize>>)
        requires
            old(self).wf(),
        ensures
            final(self).wf(),
            final(self).window == old(self).window,
            match old(self).deadline {
                Option::Some(d) => if now >= d {
                    &&& r matches Some(v) && v@ == old(self).pending@
                    &&& final(self).deadline is None
                    &&& final(self).pending@ == Seq::<usize>::empty()
                } else {
                    r is None && *final(self) == *old(self)
                },
                Option::None => r is None && *final(self) == *old(self),
            },
    {
        match self.deadline {
            Option::Some(d) => {
                if now >= d {
                    let mut fired: Vec<usize> = Vec::new();
                    core::mem::swap(&mut fired, &mut self.pending);
                    self.deadline = Option::None;
                    proof {
                        assert(self.pending@ =~= Seq::<usize>::empty());
                    }
                    Option::Some(fired)
                } else {
                    Option::None
                }
            },
            Option::None => Option::None,
        }
    }
}

} // verus!
