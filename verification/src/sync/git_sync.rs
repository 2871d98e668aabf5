//! The decisions of the git back end: messages, credentials, and the steps of
//! a synchronisation.
//!
//! A synchronisation fetches from the remote, merges what came into the local
//! branch and pushes the result. [`SyncCycle`] says at each point what to do
//! next; whoever drives it does it and reports what came of it.

use crate::ids::{uuid_text, Uuid};
use crate::paths::{
    is_name, joined_parts, parts_below, paths_lie_below_their_directories, strip_prefix, FsPath,
    PathModel, SLASH,
};
use crate::sync::error::Error;
use crate::text::same_text;
use vstd::prelude::*;

verus! {

/// Synchronisation of a workspace with git.
#[derive(Debug, Clone)]
pub struct GitSync {
    /// A path in the repository.
    search_path: FsPath,
    /// The name of the remote.
    remote: String,
    /// The device that commits are marked with.
    device_id: Option<Uuid>,
}

/// The message of a commit, with the device that it comes from.
pub open spec fn message_of(device_id: Option<Uuid>) -> Seq<char> {
    match device_id {
        None => "auto: sync"@,
        Some(id) => "auto: sync by ["@ + uuid_text(id@) + "]\n\nDevice-Id: "@ + uuid_text(id@)
            + "\n"@,
    }
}

impl GitSync {
    /// The path at which the repository is looked for.
    pub closed spec fn path(&self) -> PathModel {
        self.search_path@
    }

    /// The name of the remote.
    pub closed spec fn remote_spec(&self) -> Seq<char> {
        self.remote@
    }

    /// The device that commits are marked with.
    pub closed spec fn device(&self) -> Option<Uuid> {
        self.device_id
    }

    /// Synchronisation of the repository at `path` with the remote `origin`.
    /// `found` says whether there is a repository.
    pub fn open(path: &FsPath, found: bool) -> (r: Result<GitSync, Error>)
        ensures
            match r {
                Ok(git) => found && git.path() == path@ && git.remote_spec() == "origin"@
                    && git.device() is None,
                Err(e) => !found && (e matches Error::NoRepository { path: p } && p@ == path.text@),
            },
    {
        GitSync::with_remote(path, "origin", found)
    }

    /// Synchronisation of the repository at `path` with the given remote.
    /// `found` says whether there is a repository.
    pub fn with_remote(path: &FsPath, remote: &str, found: bool) -> (r: Result<GitSync, Error>)
        ensures
            match r {
                Ok(git) => found && git.path() == path@ && git.remote_spec() == remote@
                    && git.device() is None,
                Err(e) => !found && (e matches Error::NoRepository { path: p } && p@ == path.text@),
            },
    {
        if !found {
            return Err(Error::NoRepository { path: path.text.clone() });
        }
        Ok(
            GitSync {
                search_path: path.copy(),
                remote: remote.to_owned(),
                device_id: None,
            },
        )
    }

    /// The same, with commits marked with the given device.
    pub fn with_device_id(self, id: Uuid) -> (r: GitSync)
        ensures
            r.path() == self.path(),
            r.remote_spec() == self.remote_spec(),
            r.device() == Some(id),
    {
        GitSync { search_path: self.search_path, remote: self.remote, device_id: Some(id) }
    }

    /// The path at which the repository is looked for.
    pub fn search_path(&self) -> (r: &FsPath)
        ensures
            r@ == self.path(),
    {
        &self.search_path
    }

    /// The name of the remote.
    pub fn remote(&self) -> (r: &str)
        ensures
            r@ == self.remote_spec(),
    {
        self.remote.as_str()
    }

    /// The message of a commit.
    pub fn commit_message(&self) -> (r: String)
        ensures
            r@ == message_of(self.device()),
    {
        match self.device_id {
            None => "auto: sync".to_owned(),
            Some(id) => {
                let text = id.to_text();
                let mut r = "auto: sync by [".to_owned();
                r.append(&text);
                r.append("]\n\nDevice-Id: ");
                r.append(&text);
                r.append("\n");
                r
            },
        }
    }
}

/// The path of a file within the working directory of a repository, in bytes.
/// Fails for a file outside.
pub fn relative_path(path: &FsPath, workdir: &FsPath) -> (r: Result<Vec<u8>, Error>)
    ensures
        match parts_below(path.raw@, workdir.raw@) {
            Some(rest) => r is Ok && r->Ok_0@ == joined_parts(rest),
            None => r is Err && (r->Err_0 matches Error::PathOutsideWorkdir {
                path: p,
                workdir: w,
            } && p@ == path.text@ && w@ == workdir.text@),
        },
{
    match strip_prefix(&path.raw, &workdir.raw) {
        Some(rest) => Ok(rest),
        None => Err(
            Error::PathOutsideWorkdir { path: path.text.clone(), workdir: workdir.text.clone() },
        ),
    }
}

/// A way to authenticate with a remote over SSH, in the order in which they
/// are tried.
#[derive(Debug, Clone, Copy, PartialEq, Eq, Structural)]
pub enum SshMethod {
    Agent,
    Ed25519,
    Ecdsa,
    Rsa,
}

impl SshMethod {
    /// The place of the method in the order.
    pub open spec fn index(self) -> int {
        match self {
            SshMethod::Agent => 0,
            SshMethod::Ed25519 => 1,
            SshMethod::Ecdsa => 2,
            SshMethod::Rsa => 3,
        }
    }

    /// The name of the key file.
    pub fn key_name(self) -> (r: Option<&'static str>)
        ensures
            match r {
                None => self == SshMethod::Agent,
                Some(name) => name@ == (match self {
                    SshMethod::Agent => ""@,
                    SshMethod::Ed25519 => "id_ed25519"@,
                    SshMethod::Ecdsa => "id_ecdsa"@,
                    SshMethod::Rsa => "id_rsa"@,
                }) && self != SshMethod::Agent,
            },
    {
        match self {
            SshMethod::Agent => None,
            SshMethod::Ed25519 => Some("id_ed25519"),
            SshMethod::Ecdsa => Some("id_ecdsa"),
            SshMethod::Rsa => Some("id_rsa"),
        }
    }
}

/// Which of the methods can be used at the moment.
#[derive(Debug, Clone, Copy, PartialEq, Eq, Structural)]
pub struct SshAvailable {
    pub agent: bool,
    pub ed25519: bool,
    pub ecdsa: bool,
    pub rsa: bool,
}

impl SshAvailable {
    /// The method can be used.
    pub open spec fn has(self, method: SshMethod) -> bool {
        match method {
            SshMethod::Agent => self.agent,
            SshMethod::Ed25519 => self.ed25519,
            SshMethod::Ecdsa => self.ecdsa,
            SshMethod::Rsa => self.rsa,
        }
    }
}

/// From the place `from` on, `given` is the first method that can be used, and
/// `to` is the place after it; where no method is left, `to` is the end.
pub open spec fn next_in_order(
    from: int,
    available: SshAvailable,
    given: Option<SshMethod>,
    to: int,
) -> bool {
    match given {
        Some(method) => {
            &&& available.has(method)
            &&& from <= method.index()
            &&& to == method.index() + 1
            &&& forall|m: SshMethod|
                from <= #[trigger] m.index() < method.index() ==> !available.has(m)
        },
        None => {
            &&& forall|m: SshMethod| from <= #[trigger] m.index() ==> !available.has(m)
            &&& to == (if from < 4 {
                4
            } else {
                from
            })
        },
    }
}

/// No method is tried twice with one remote, whatever becomes available in the
/// meantime, and once there was none left there is none any more.
pub proof fn no_method_twice(
    from: int,
    available: SshAvailable,
    given: Option<SshMethod>,
    to: int,
    later: int,
    available_later: SshAvailable,
    given_later: Option<SshMethod>,
    to_later: int,
)
    requires
        next_in_order(from, available, given, to),
        to <= later,
        next_in_order(later, available_later, given_later, to_later),
    ensures
        from <= to,
        given is Some && given_later is Some ==> given->0.index() < given_later->0.index()
            && given != given_later,
        given is None ==> given_later is None,
{
}

/// The methods that are still to be tried with a remote. The remote asks again
/// after each one that it refuses.
#[derive(Debug, Clone, Copy)]
pub struct SshAttempts {
    next: usize,
}

impl SshAttempts {
    /// The place of the first method that is still to be tried.
    pub closed spec fn from(&self) -> int {
        self.next as int
    }

    /// All methods are to be tried.
    pub fn new() -> (r: SshAttempts)
        ensures
            r.from() == 0,
    {
        SshAttempts { next: 0 }
    }

    /// Whether the agent is still to be tried.
    pub fn wants_agent(&self) -> (r: bool)
        ensures
            r == (self.from() == 0),
    {
        self.next == 0
    }

    /// The next method to be tried: the first one from the present place on
    /// that can be used. No method is given out twice; when none is left there
    /// is none.
    pub fn next_method(&mut self, available: SshAvailable) -> (r: Option<SshMethod>)
        ensures
            next_in_order(old(self).from(), available, r, final(self).from()),
    {
        if self.next <= 0 && available.agent {
            self.next = 1;
            Some(SshMethod::Agent)
        } else if self.next <= 1 && available.ed25519 {
            self.next = 2;
            Some(SshMethod::Ed25519)
        } else if self.next <= 2 && available.ecdsa {
            self.next = 3;
            Some(SshMethod::Ecdsa)
        } else if self.next <= 3 && available.rsa {
            self.next = 4;
            Some(SshMethod::Rsa)
        } else {
            if self.next < 4 {
                self.next = 4;
            }
            None
        }
    }
}

/// The user name for a remote: the one in its address, or else `git`.
pub fn ssh_username(from_url: Option<&str>) -> (r: &str)
    ensures
        r@ == (match from_url {
            Some(name) => name@,
            None => "git"@,
        }),
{
    match from_url {
        Some(name) => name,
        None => "git",
    }
}

/// A commit: its identifier, and the time at which it was written, in seconds.
#[derive(Debug, Clone)]
pub struct CommitInfo {
    pub id: String,
    pub author_time: i64,
}

/// The path of an index entry, as far as it is text.
#[derive(Debug, Clone)]
pub enum EntryPath {
    Text(String),
    NotText,
}

/// A file that both sides changed, with the entries of the two sides that are
/// there.
#[derive(Debug, Clone)]
pub struct Conflict {
    pub our: Option<EntryPath>,
    pub their: Option<EntryPath>,
}

/// The path of an entry; nothing where it is not text.
pub open spec fn entry_text(entry: EntryPath) -> Seq<char> {
    match entry {
        EntryPath::Text(path) => path@,
        EntryPath::NotText => Seq::empty(),
    }
}

/// The path of a conflict: that of our entry, or else of theirs.
pub open spec fn conflict_text(conflict: Conflict) -> Seq<char> {
    match conflict.our {
        Some(entry) => entry_text(entry),
        None => match conflict.their {
            Some(entry) => entry_text(entry),
            None => Seq::empty(),
        },
    }
}

fn entry_path(entry: &EntryPath) -> (r: String)
    ensures
        r@ == entry_text(*entry),
{
    match entry {
        EntryPath::Text(path) => path.clone(),
        EntryPath::NotText => String::new(),
    }
}

/// The path of a conflict.
pub fn conflict_path(conflict: &Conflict) -> (r: String)
    ensures
        r@ == conflict_text(*conflict),
{
    match &conflict.our {
        Some(entry) => entry_path(entry),
        None => match &conflict.their {
            Some(entry) => entry_path(entry),
            None => String::new(),
        },
    }
}

/// What to do next in a synchronisation.
#[derive(Debug, Clone)]
pub enum GitAction {
    /// Fetch from the remote.
    Fetch,
    /// Find out how the fetched commit relates to the local branch.
    Analyse { commit: String },
    /// Move the local branch to the fetched commit and check it out.
    FastForward { commit: String },
    /// Merge the fetched commit into the index, with conflicts left in it.
    Merge { commit: String },
    /// Check out one side of a conflict and put it into the index.
    Resolve { path: String, ours: bool },
    /// Commit the index with the given message and these two commits as
    /// parents, ours first.
    CommitMerge { message: String, ours: String, theirs: String },
    /// Find out the name of the local branch.
    ReadBranch,
    /// Push to the remote.
    Push { refspec: String },
    /// Nothing is left to do.
    Finish,
}

/// What came of the last action.
#[derive(Debug, Clone)]
pub enum GitEvent {
    /// The fetch brought `remote`; the local branch is at `head`, if it has
    /// any commit.
    Fetched { head: Option<CommitInfo>, remote: CommitInfo },
    /// How the fetched commit relates to the local branch.
    Analysed { up_to_date: bool, fast_forward: bool },
    /// The local branch was moved.
    FastForwarded,
    /// The index holds the merge and these conflicts.
    Merged { conflicts: Vec<Conflict> },
    /// The conflict was resolved.
    Resolved,
    /// The merge was committed.
    Committed,
    /// The name of the local branch, if it has one.
    BranchRead { shorthand: Option<String> },
    /// The push was done.
    Pushed,
}

/// Where a synchronisation stands: the action whose outcome is awaited.
#[derive(Debug, Clone, Copy, PartialEq, Eq, Structural)]
pub enum Phase {
    Fetching,
    Analysing,
    FastForwarding,
    Merging,
    Resolving,
    Committing,
    Naming,
    Pushing,
    Finished,
}

/// A synchronisation under way.
#[derive(Debug)]
pub struct SyncCycle {
    phase: Phase,
    head: String,
    remote: String,
    use_ours: bool,
    conflicts: Vec<Conflict>,
    resolved: usize,
}

/// The mathematical counterpart of a [`SyncCycle`].
pub struct CycleModel {
    /// The action whose outcome is awaited.
    pub phase: Phase,
    /// The commit of the local branch when the fetch was done.
    pub head: Seq<char>,
    /// The fetched commit.
    pub remote: Seq<char>,
    /// Conflicts are resolved in our favour.
    pub use_ours: bool,
    /// The conflicts that are not resolved yet.
    pub open: Seq<Conflict>,
}

/// The mathematical counterpart of a [`GitAction`].
pub enum ActionModel {
    Fetch,
    Analyse(Seq<char>),
    FastForward(Seq<char>),
    Merge(Seq<char>),
    Resolve(Seq<char>, bool),
    CommitMerge { message: Seq<char>, ours: Seq<char>, theirs: Seq<char> },
    ReadBranch,
    Push(Seq<char>),
    Finish,
}

impl View for GitAction {
    type V = ActionModel;

    open spec fn view(&self) -> ActionModel {
        match self {
            GitAction::Fetch => ActionModel::Fetch,
            GitAction::Analyse { commit } => ActionModel::Analyse(commit@),
            GitAction::FastForward { commit } => ActionModel::FastForward(commit@),
            GitAction::Merge { commit } => ActionModel::Merge(commit@),
            GitAction::Resolve { path, ours } => ActionModel::Resolve(path@, *ours),
            GitAction::CommitMerge { message, ours, theirs } => ActionModel::CommitMerge {
                message: message@,
                ours: ours@,
                theirs: theirs@,
            },
            GitAction::ReadBranch => ActionModel::ReadBranch,
            GitAction::Push { refspec } => ActionModel::Push(refspec@),
            GitAction::Finish => ActionModel::Finish,
        }
    }
}

/// The event is one that the present phase awaits.
pub open spec fn awaited(phase: Phase, event: GitEvent) -> bool {
    match phase {
        Phase::Fetching => event is Fetched,
        Phase::Analysing => event is Analysed,
        Phase::FastForwarding => event is FastForwarded,
        Phase::Merging => event is Merged,
        Phase::Resolving => event is Resolved,
        Phase::Committing => event is Committed,
        Phase::Naming => event is BranchRead,
        Phase::Pushing => event is Pushed,
        Phase::Finished => false,
    }
}

/// What pushes the branch `name` to the branch of the same name.
pub open spec fn refspec_of(name: Seq<char>) -> Seq<char> {
    "refs/heads/"@ + name + ":refs/heads/"@ + name
}

/// The action for the first open conflict, or the commit where there is none.
pub open spec fn resolve_or_commit(c: CycleModel) -> (CycleModel, ActionModel) {
    if c.open.len() > 0 {
        (
            CycleModel { phase: Phase::Resolving, ..c },
            ActionModel::Resolve(conflict_text(c.open[0]), c.use_ours),
        )
    } else {
        (
            CycleModel { phase: Phase::Committing, ..c },
            ActionModel::CommitMerge {
                message: "merge: remote sync"@,
                ours: c.head,
                theirs: c.remote,
            },
        )
    }
}

/// The next state and action. Without local commits, and where the local
/// branch is at the fetched commit, there is nothing to do. Otherwise the
/// fetched commit is merged: not at all where it is part of the local branch
/// already, by moving the branch where that is possible, else by a merge
/// commit, for which every conflict is resolved in favour of the commit that
/// was written later, ours if both were written at the same time. In the end
/// the branch is pushed.
pub open spec fn cycle_step(c: CycleModel, event: GitEvent) -> (CycleModel, ActionModel) {
    match event {
        GitEvent::Fetched { head, remote } => match head {
            None => (CycleModel { phase: Phase::Finished, ..c }, ActionModel::Finish),
            Some(head) => if head.id@ == remote.id@ {
                (CycleModel { phase: Phase::Finished, ..c }, ActionModel::Finish)
            } else {
                (
                    CycleModel {
                        phase: Phase::Analysing,
                        head: head.id@,
                        remote: remote.id@,
                        use_ours: head.author_time >= remote.author_time,
                        ..c
                    },
                    ActionModel::Analyse(remote.id@),
                )
            },
        },
        GitEvent::Analysed { up_to_date, fast_forward } => if up_to_date {
            (CycleModel { phase: Phase::Naming, ..c }, ActionModel::ReadBranch)
        } else if fast_forward {
            (CycleModel { phase: Phase::FastForwarding, ..c }, ActionModel::FastForward(c.remote))
        } else {
            (CycleModel { phase: Phase::Merging, ..c }, ActionModel::Merge(c.remote))
        },
        GitEvent::FastForwarded => (
            CycleModel { phase: Phase::Naming, ..c },
            ActionModel::ReadBranch,
        ),
        GitEvent::Merged { conflicts } => resolve_or_commit(CycleModel { open: conflicts@, ..c }),
        GitEvent::Resolved => resolve_or_commit(CycleModel { open: c.open.drop_first(), ..c }),
        GitEvent::Committed => (CycleModel { phase: Phase::Naming, ..c }, ActionModel::ReadBranch),
        GitEvent::BranchRead { shorthand } => (
            CycleModel { phase: Phase::Pushing, ..c },
            ActionModel::Push(
                refspec_of(
                    match shorthand {
                        Some(name) => name@,
                        None => "main"@,
                    },
                ),
            ),
        ),
        GitEvent::Pushed => (CycleModel { phase: Phase::Finished, ..c }, ActionModel::Finish),
    }
}

/// What pushes the local branch to the branch of the same name.
pub fn push_refspec(shorthand: Option<&str>) -> (r: String)
    ensures
        r@ == refspec_of(
            match shorthand {
                Some(name) => name@,
                None => "main"@,
            },
        ),
{
    let name = match shorthand {
        Some(name) => name,
        None => "main",
    };
    let mut r = "refs/heads/".to_owned();
    r.append(name);
    r.append(":refs/heads/");
    r.append(name);
    r
}

impl SyncCycle {
    /// Where the synchronisation stands.
    pub closed spec fn model(&self) -> CycleModel {
        CycleModel {
            phase: self.phase,
            head: self.head@,
            remote: self.remote@,
            use_ours: self.use_ours,
            open: self.conflicts@.skip(self.resolved as int),
        }
    }

    /// While a conflict is being resolved there is one that is open.
    pub closed spec fn wf(&self) -> bool {
        &&& self.resolved <= self.conflicts.len()
        &&& self.phase == Phase::Resolving ==> self.resolved < self.conflicts.len()
    }

    /// A synchronisation begins with a fetch.
    pub fn start() -> (r: (SyncCycle, GitAction))
        ensures
            r.0.wf(),
            r.0.model().phase == Phase::Fetching,
            r.0.model().open.len() == 0,
            r.1@ == ActionModel::Fetch,
    {
        (
            SyncCycle {
                phase: Phase::Fetching,
                head: String::new(),
                remote: String::new(),
                use_ours: false,
                conflicts: Vec::new(),
                resolved: 0,
            },
            GitAction::Fetch,
        )
    }

    /// The next action for an open conflict, or the commit.
    fn resolve_or_commit(&mut self) -> (r: GitAction)
        requires
            old(self).resolved <= old(self).conflicts@.len(),
        ensures
            final(self).wf(),
            (final(self).model(), r@) == resolve_or_commit(old(self).model()),
    {
        if self.resolved < self.conflicts.len() {
            self.phase = Phase::Resolving;
            GitAction::Resolve {
                path: conflict_path(&self.conflicts[self.resolved]),
                ours: self.use_ours,
            }
        } else {
            self.phase = Phase::Committing;
            GitAction::CommitMerge {
                message: "merge: remote sync".to_owned(),
                ours: self.head.clone(),
                theirs: self.remote.clone(),
            }
        }
    }

    /// Takes in what came of the last action and says what to do next; see
    /// [`cycle_step`].
    pub fn advance(&mut self, event: GitEvent) -> (r: GitAction)
        requires
            old(self).wf(),
            awaited(old(self).model().phase, event),
        ensures
            final(self).wf(),
            (final(self).model(), r@) == cycle_step(old(self).model(), event),
    {
        match event {
            GitEvent::Fetched { head, remote } => match head {
                None => {
                    self.phase = Phase::Finished;
                    GitAction::Finish
                },
                Some(head) => {
                    if same_text(&head.id, &remote.id) {
                        self.phase = Phase::Finished;
                        GitAction::Finish
                    } else {
                        self.use_ours = head.author_time >= remote.author_time;
                        self.phase = Phase::Analysing;
                        self.head = head.id;
                        self.remote = remote.id;
                        GitAction::Analyse { commit: self.remote.clone() }
                    }
                },
            },
            GitEvent::Analysed { up_to_date, fast_forward } => {
                if up_to_date {
                    self.phase = Phase::Naming;
                    GitAction::ReadBranch
                } else if fast_forward {
                    self.phase = Phase::FastForwarding;
                    GitAction::FastForward { commit: self.remote.clone() }
                } else {
                    self.phase = Phase::Merging;
                    GitAction::Merge { commit: self.remote.clone() }
                }
            },
            GitEvent::FastForwarded => {
                self.phase = Phase::Naming;
                GitAction::ReadBranch
            },
            GitEvent::Merged { conflicts } => {
                proof {
                    assert(conflicts@.skip(0) =~= conflicts@);
                }
                self.conflicts = conflicts;
                self.resolved = 0;
                self.resolve_or_commit()
            },
            GitEvent::Resolved => {
                proof {
                    assert(self.conflicts@.skip(self.resolved as int).drop_first()
                        =~= self.conflicts@.skip(self.resolved + 1));
                }
                self.resolved += 1;
                self.resolve_or_commit()
            },
            GitEvent::Committed => {
                self.phase = Phase::Naming;
                GitAction::ReadBranch
            },
            GitEvent::BranchRead { shorthand } => {
                self.phase = Phase::Pushing;
                let refspec = match &shorthand {
                    Some(name) => push_refspec(Some(name.as_str())),
                    None => push_refspec(None),
                };
                GitAction::Push { refspec }
            },
            GitEvent::Pushed => {
                self.phase = Phase::Finished;
                GitAction::Finish
            },
        }
    }
}

/// How far a synchronisation is from its end, conflicts aside.
pub open spec fn phases_left(phase: Phase) -> int {
    match phase {
        Phase::Fetching => 8,
        Phase::Analysing => 7,
        Phase::FastForwarding => 6,
        Phase::Merging => 6,
        Phase::Resolving => 5,
        Phase::Committing => 4,
        Phase::Naming => 3,
        Phase::Pushing => 2,
        Phase::Finished => 0,
    }
}

/// Every step brings a synchronisation nearer to its end: to a later phase, or
/// to fewer open conflicts.
pub proof fn cycle_ends(c: CycleModel, event: GitEvent)
    requires
        awaited(c.phase, event),
        c.phase == Phase::Resolving ==> c.open.len() > 0,
    ensures
        ({
            let next = cycle_step(c, event).0;
            ||| phases_left(next.phase) < phases_left(c.phase)
            ||| next.phase == Phase::Resolving && c.phase == Phase::Resolving && next.open.len()
                < c.open.len()
        }),
{
}

/// The merge is committed only when no conflict is open, every conflict is
/// resolved in favour of the same side, and that side does not change once the
/// fetch has decided on it, nor do the two commits that are merged.
pub proof fn conflicts_go_to_one_side(c: CycleModel, event: GitEvent)
    requires
        awaited(c.phase, event),
    ensures
        ({
            let (next, action) = cycle_step(c, event);
            &&& action is CommitMerge ==> next.open.len() == 0
            &&& action matches ActionModel::Resolve(path, ours) ==> ours == next.use_ours && path
                == conflict_text(next.open[0])
            &&& !(event is Fetched) ==> next.use_ours == c.use_ours && next.head == c.head
                && next.remote == c.remote
            &&& action matches ActionModel::CommitMerge { message, ours, theirs } ==> ours
                == next.head && theirs == next.remote
        }),
{
}

/// A push is the last thing that a synchronisation does, and one that finishes
/// without it has found nothing to do.
pub proof fn push_comes_last(c: CycleModel, event: GitEvent, after: GitEvent)
    requires
        awaited(c.phase, event),
    ensures
        ({
            let (next, action) = cycle_step(c, event);
            &&& action is Push ==> next.phase == Phase::Pushing && (awaited(next.phase, after)
                ==> cycle_step(next, after).1 is Finish)
            &&& action is Finish ==> event is Pushed || (event matches GitEvent::Fetched {
                head,
                remote,
            } && (head is None || head->0.id@ == remote.id@))
        }),
{
}

/// The actions that a synchronisation asks for when `events` come of them, one
/// after the other.
pub open spec fn actions(c: CycleModel, events: Seq<GitEvent>) -> Seq<ActionModel>
    decreases events.len(),
{
    if events.len() == 0 {
        Seq::empty()
    } else {
        let (next, action) = cycle_step(c, events[0]);
        seq![action] + actions(next, events.drop_first())
    }
}

/// What is asked for first, and the rest.
proof fn lemma_actions(c: CycleModel, event: GitEvent, events: Seq<GitEvent>)
    ensures
        actions(c, seq![event] + events) == seq![cycle_step(c, event).1] + actions(
            cycle_step(c, event).0,
            events,
        ),
{
    let all = seq![event] + events;
    assert(all.drop_first() =~= events);
    assert(all[0] == event);
}

/// The events that end every synchronisation that has something to push.
pub open spec fn push_events(shorthand: Option<String>) -> Seq<GitEvent> {
    seq![GitEvent::BranchRead { shorthand }, GitEvent::Pushed]
}

/// The branch is pushed to the branch of the same name, and that is the end.
/// A branch without a name is pushed as `main`.
pub proof fn branches_are_pushed_under_their_name(
    c: CycleModel,
    name: Seq<char>,
    shorthand: Option<String>,
)
    requires
        shorthand is Some ==> shorthand->0@ == name,
        shorthand is None ==> name == "main"@,
    ensures
        actions(c, push_events(shorthand)) == seq![
            ActionModel::Push("refs/heads/"@ + name + ":refs/heads/"@ + name),
            ActionModel::Finish,
        ],
{
    let events = push_events(shorthand);
    assert(events =~= seq![events[0]] + (seq![events[1]] + Seq::empty()));
    lemma_actions(c, events[0], seq![events[1]] + Seq::empty());
    lemma_actions(cycle_step(c, events[0]).0, events[1], Seq::empty());
    assert(actions(c, events) =~= seq![
        ActionModel::Push("refs/heads/"@ + name + ":refs/heads/"@ + name),
        ActionModel::Finish,
    ]);
}

/// Where the local branch has no commit, or is at the fetched commit, the
/// synchronisation is over after the fetch. Only then.
pub proof fn nothing_to_do_after_the_fetch(
    c: CycleModel,
    head: Option<CommitInfo>,
    remote: CommitInfo,
)
    ensures
        ({
            let action = cycle_step(c, GitEvent::Fetched { head, remote }).1;
            &&& action is Finish <==> head is None || head->0.id@ == remote.id@
            &&& !(action is Finish) ==> action == ActionModel::Analyse(remote.id@)
        }),
{
}

/// Local commits on top of the fetched one are pushed and nothing else is
/// done, whatever else the analysis says: the branch is not moved, and nothing
/// is merged.
pub proof fn local_lead_is_only_pushed(
    c: CycleModel,
    head: CommitInfo,
    remote: CommitInfo,
    fast_forward: bool,
    shorthand: Option<String>,
)
    requires
        head.id@ != remote.id@,
    ensures
        actions(
            c,
            seq![
                GitEvent::Fetched { head: Some(head), remote },
                GitEvent::Analysed { up_to_date: true, fast_forward },
            ] + push_events(shorthand),
        ) == seq![ActionModel::Analyse(remote.id@), ActionModel::ReadBranch] + actions(
            c,
            push_events(shorthand),
        ),
{
    let fetched = GitEvent::Fetched { head: Some(head), remote };
    let analysed = GitEvent::Analysed { up_to_date: true, fast_forward };
    let rest = push_events(shorthand);
    let c1 = cycle_step(c, fetched).0;
    let c2 = cycle_step(c1, analysed).0;
    assert(seq![fetched, analysed] + rest =~= seq![fetched] + (seq![analysed] + rest));
    lemma_actions(c, fetched, seq![analysed] + rest);
    lemma_actions(c1, analysed, rest);
    lemma_pushes_alike(c, c2, shorthand);
    assert(actions(c, seq![fetched, analysed] + rest) =~= seq![
        ActionModel::Analyse(remote.id@),
        ActionModel::ReadBranch,
    ] + actions(c, rest));
}

proof fn lemma_pushes_alike(c: CycleModel, d: CycleModel, shorthand: Option<String>)
    ensures
        actions(c, push_events(shorthand)) == actions(d, push_events(shorthand)),
{
    let name = match shorthand {
        Some(name) => name@,
        None => "main"@,
    };
    branches_are_pushed_under_their_name(c, name, shorthand);
    branches_are_pushed_under_their_name(d, name, shorthand);
}

/// A branch that can be moved to the fetched commit is moved there, and then
/// pushed. Nothing is merged and no commit is made.
pub proof fn remote_lead_is_taken_over(
    c: CycleModel,
    head: CommitInfo,
    remote: CommitInfo,
    shorthand: Option<String>,
)
    requires
        head.id@ != remote.id@,
    ensures
        actions(
            c,
            seq![
                GitEvent::Fetched { head: Some(head), remote },
                GitEvent::Analysed { up_to_date: false, fast_forward: true },
                GitEvent::FastForwarded,
            ] + push_events(shorthand),
        ) == seq![
            ActionModel::Analyse(remote.id@),
            ActionModel::FastForward(remote.id@),
            ActionModel::ReadBranch,
        ] + actions(c, push_events(shorthand)),
{
    let fetched = GitEvent::Fetched { head: Some(head), remote };
    let analysed = GitEvent::Analysed { up_to_date: false, fast_forward: true };
    let moved = GitEvent::FastForwarded;
    let rest = push_events(shorthand);
    let c1 = cycle_step(c, fetched).0;
    let c2 = cycle_step(c1, analysed).0;
    let c3 = cycle_step(c2, moved).0;
    assert(seq![fetched, analysed, moved] + rest =~= seq![fetched] + (seq![analysed] + (seq![moved]
        + rest)));
    lemma_actions(c, fetched, seq![analysed] + (seq![moved] + rest));
    lemma_actions(c1, analysed, seq![moved] + rest);
    lemma_actions(c2, moved, rest);
    lemma_pushes_alike(c, c3, shorthand);
    assert(actions(c, seq![fetched, analysed, moved] + rest) =~= seq![
        ActionModel::Analyse(remote.id@),
        ActionModel::FastForward(remote.id@),
        ActionModel::ReadBranch,
    ] + actions(c, rest));
}

/// `n` times the report that a conflict was resolved.
pub open spec fn resolutions(n: nat) -> Seq<GitEvent> {
    Seq::new(n, |i: int| GitEvent::Resolved)
}

proof fn lemma_resolving(c: CycleModel, shorthand: Option<String>)
    requires
        c.open.len() > 0,
    ensures
        ({
            let n = c.open.len();
            actions(
                c,
                resolutions(n) + (seq![GitEvent::Committed] + push_events(shorthand)),
            ) == Seq::new(
                (n - 1) as nat,
                |i: int| ActionModel::Resolve(conflict_text(c.open[i + 1]), c.use_ours),
            ) + (seq![
                ActionModel::CommitMerge {
                    message: "merge: remote sync"@,
                    ours: c.head,
                    theirs: c.remote,
                },
                ActionModel::ReadBranch,
            ] + actions(c, push_events(shorthand)))
        }),
    decreases c.open.len(),
{
    let n = c.open.len();
    let committed = seq![GitEvent::Committed] + push_events(shorthand);
    let (next, action) = cycle_step(c, GitEvent::Resolved);
    let left = resolutions((n - 1) as nat);
    assert(resolutions(n) + committed =~= seq![GitEvent::Resolved] + (left + committed));
    lemma_actions(c, GitEvent::Resolved, left + committed);
    let commit = ActionModel::CommitMerge {
        message: "merge: remote sync"@,
        ours: c.head,
        theirs: c.remote,
    };
    let end = seq![commit, ActionModel::ReadBranch] + actions(c, push_events(shorthand));
    let resolves = Seq::new(
        (n - 1) as nat,
        |i: int| ActionModel::Resolve(conflict_text(c.open[i + 1]), c.use_ours),
    );
    if n > 1 {
        lemma_resolving(next, shorthand);
        lemma_pushes_alike(c, next, shorthand);
        let later = Seq::new(
            (n - 2) as nat,
            |i: int| ActionModel::Resolve(conflict_text(next.open[i + 1]), next.use_ours),
        );
        assert(resolves =~= seq![action] + later);
        assert(actions(c, resolutions(n) + committed) =~= resolves + end);
    } else {
        assert(left + committed =~= committed);
        lemma_actions(next, GitEvent::Committed, push_events(shorthand));
        lemma_pushes_alike(c, cycle_step(next, GitEvent::Committed).0, shorthand);
        assert(actions(c, resolutions(n) + committed) =~= resolves + end);
    }
}

/// Branches that have gone different ways are merged: every conflict is
/// resolved, one after the other, in favour of the side whose commit was
/// written later, ours where both were written at the same time; then the
/// merge is committed with our commit and the fetched one as parents, and
/// pushed.
pub proof fn diverged_branches_are_merged(
    c: CycleModel,
    head: CommitInfo,
    remote: CommitInfo,
    conflicts: Vec<Conflict>,
    shorthand: Option<String>,
)
    requires
        head.id@ != remote.id@,
    ensures
        actions(
            c,
            seq![
                GitEvent::Fetched { head: Some(head), remote },
                GitEvent::Analysed { up_to_date: false, fast_forward: false },
                GitEvent::Merged { conflicts },
            ] + (resolutions(conflicts@.len()) + (seq![GitEvent::Committed] + push_events(
                shorthand,
            ))),
        ) == seq![ActionModel::Analyse(remote.id@), ActionModel::Merge(remote.id@)] + (Seq::new(
            conflicts@.len(),
            |i: int|
                ActionModel::Resolve(
                    conflict_text(conflicts@[i]),
                    !(head.author_time < remote.author_time),
                ),
        ) + (seq![
            ActionModel::CommitMerge {
                message: "merge: remote sync"@,
                ours: head.id@,
                theirs: remote.id@,
            },
            ActionModel::ReadBranch,
        ] + actions(c, push_events(shorthand)))),
{
    let fetched = GitEvent::Fetched { head: Some(head), remote };
    let analysed = GitEvent::Analysed { up_to_date: false, fast_forward: false };
    let merged = GitEvent::Merged { conflicts };
    let n = conflicts@.len();
    let committed = seq![GitEvent::Committed] + push_events(shorthand);
    let rest = resolutions(n) + committed;
    let c1 = cycle_step(c, fetched).0;
    let c2 = cycle_step(c1, analysed).0;
    let (c3, action) = cycle_step(c2, merged);
    assert(seq![fetched, analysed, merged] + rest =~= seq![fetched] + (seq![analysed] + (seq![
        merged,
    ] + rest)));
    lemma_actions(c, fetched, seq![analysed] + (seq![merged] + rest));
    lemma_actions(c1, analysed, seq![merged] + rest);
    lemma_actions(c2, merged, rest);
    let commit = ActionModel::CommitMerge {
        message: "merge: remote sync"@,
        ours: head.id@,
        theirs: remote.id@,
    };
    let end = seq![commit, ActionModel::ReadBranch] + actions(c, push_events(shorthand));
    let resolves = Seq::new(
        n,
        |i: int|
            ActionModel::Resolve(
                conflict_text(conflicts@[i]),
                !(head.author_time < remote.author_time),
            ),
    );
    if n > 0 {
        lemma_resolving(c3, shorthand);
        lemma_pushes_alike(c, c3, shorthand);
        let later = Seq::new(
            (n - 1) as nat,
            |i: int| ActionModel::Resolve(conflict_text(c3.open[i + 1]), c3.use_ours),
        );
        assert(resolves =~= seq![action] + later);
    } else {
        assert(rest =~= committed);
        lemma_actions(c3, GitEvent::Committed, push_events(shorthand));
        lemma_pushes_alike(c, cycle_step(c3, GitEvent::Committed).0, shorthand);
    }
    assert(actions(c, seq![fetched, analysed, merged] + rest) =~= seq![
        ActionModel::Analyse(remote.id@),
        ActionModel::Merge(remote.id@),
    ] + (resolves + end));
}

/// The local branch is moved only where the fetched commit is not part of it
/// and it can be moved without a merge; it is merged only where it cannot; and
/// nothing is done to it where the fetched commit is part of it already.
pub proof fn the_analysis_decides(c: CycleModel, up_to_date: bool, fast_forward: bool)
    ensures
        ({
            let action = cycle_step(c, GitEvent::Analysed { up_to_date, fast_forward }).1;
            &&& action is ReadBranch <==> up_to_date
            &&& action is FastForward <==> !up_to_date && fast_forward
            &&& action is Merge <==> !up_to_date && !fast_forward
            &&& action is FastForward ==> action == ActionModel::FastForward(c.remote)
            &&& action is Merge ==> action == ActionModel::Merge(c.remote)
        }),
{
}

/// Commits are only moved or merged after an analysis that calls for it.
pub proof fn branches_change_only_after_analysis(c: CycleModel, event: GitEvent)
    requires
        awaited(c.phase, event),
    ensures
        ({
            let action = cycle_step(c, event).1;
            &&& action is FastForward || action is Merge ==> event is Analysed
            &&& action is Resolve ==> event is Merged || event is Resolved
            &&& action is CommitMerge ==> event is Merged || event is Resolved
            &&& action is Push ==> event is BranchRead
        }),
{
}

/// A conflict is named by our entry where there is one, even if its path is no
/// text, or else by theirs.
pub proof fn conflicts_are_named_by_our_entry(conflict: Conflict)
    ensures
        conflict.our matches Some(EntryPath::Text(path)) ==> conflict_text(conflict) == path@,
        conflict.our matches Some(EntryPath::NotText) ==> conflict_text(conflict).len() == 0,
        conflict.our is None ==> {
            &&& conflict.their matches Some(EntryPath::Text(path)) ==> conflict_text(conflict)
                == path@
            &&& !(conflict.their matches Some(EntryPath::Text(_))) ==> conflict_text(
                conflict,
            ).len() == 0
        },
{
}

/// The message of a commit names the device twice, in its first line and in a
/// trailer of its own, and nothing else about it.
pub proof fn commits_name_their_device(id: Uuid)
    ensures
        message_of(Some(id)) == "auto: sync by ["@ + uuid_text(id@) + "]\n\nDevice-Id: "@ + uuid_text(
            id@,
        ) + "\n"@,
        message_of(None) == "auto: sync"@,
{
}

/// The next method is the first one from the present place on that can be used,
/// in the order agent, Ed25519, ECDSA, RSA, and the place moves behind it.
pub proof fn methods_are_tried_in_order(
    from: int,
    available: SshAvailable,
    given: Option<SshMethod>,
    to: int,
)
    requires
        0 <= from,
        next_in_order(from, available, given, to),
    ensures
        given == Some(SshMethod::Agent) <==> from == 0 && available.agent,
        given == Some(SshMethod::Ed25519) <==> from <= 1 && available.ed25519 && !(from == 0
            && available.agent),
        given == Some(SshMethod::Ecdsa) <==> from <= 2 && available.ecdsa && !(from <= 1
            && available.ed25519) && !(from == 0 && available.agent),
        given == Some(SshMethod::Rsa) <==> from <= 3 && available.rsa && !(from <= 2
            && available.ecdsa) && !(from <= 1 && available.ed25519) && !(from == 0
            && available.agent),
        from < to || (given is None && to == from),
{
    assert(SshMethod::Agent.index() == 0);
    assert(SshMethod::Ed25519.index() == 1);
    assert(SshMethod::Ecdsa.index() == 2);
    assert(SshMethod::Rsa.index() == 3);
}

/// A file is staged under its path from the working directory, whose own path
/// ends in a separator or not; a file outside is refused.
pub proof fn files_are_staged_from_the_working_directory(
    path: FsPath,
    workdir: FsPath,
    dir: Seq<Seq<u8>>,
    names: Seq<Seq<u8>>,
    staged: Result<Vec<u8>, Error>,
)
    requires
        call_ensures(relative_path, (&path, &workdir), staged),
        forall|i: int| 0 <= i < dir.len() ==> is_name(#[trigger] dir[i]),
        forall|i: int| 0 <= i < names.len() ==> is_name(#[trigger] names[i]),
        path.raw@ == seq![SLASH] + joined_parts(names),
        workdir.raw@ == seq![SLASH] + joined_parts(dir) || workdir.raw@ == (seq![SLASH]
            + joined_parts(dir)).push(SLASH),
    ensures
        staged is Ok <==> dir.is_prefix_of(names),
        staged is Ok ==> staged->Ok_0@ == joined_parts(names.skip(dir.len() as int)),
        staged is Err ==> (staged->Err_0 matches Error::PathOutsideWorkdir { path: p, workdir: w }
            && p@ == path.text@ && w@ == workdir.text@),
{
    paths_lie_below_their_directories(dir, names);
}

/// Without a name in its address the user of a remote is `git`.
pub proof fn remotes_without_user_are_asked_as_git(name: &str, given: &str, other: &str)
    requires
        call_ensures(ssh_username, (Some(name),), given),
        call_ensures(ssh_username, (None,), other),
    ensures
        given@ == name@,
        other@ == "git"@,
{
}

/// A repository is synchronised with `origin` unless another remote is named;
/// a path without a repository is refused with its name.
pub proof fn repositories_are_opened_at_their_path(
    path: FsPath,
    remote: &str,
    found: bool,
    opened: Result<GitSync, Error>,
    with: Result<GitSync, Error>,
)
    requires
        call_ensures(GitSync::open, (&path, found), opened),
        call_ensures(GitSync::with_remote, (&path, remote, found), with),
    ensures
        opened is Ok <==> found,
        with is Ok <==> found,
        found ==> opened->Ok_0.path() == path@ && opened->Ok_0.remote_spec() == "origin"@
            && opened->Ok_0.device() is None,
        found ==> with->Ok_0.path() == path@ && with->Ok_0.remote_spec() == remote@
            && with->Ok_0.device() is None,
        !found ==> (opened->Err_0 matches Error::NoRepository { path: p } && p@ == path.text@),
{
}

/// The executable synchronisation does what the analysis says: local commits
/// that the remote lacks are never moved or merged over, the branch is moved
/// only where the fetched commit is not part of it and it can be moved, and
/// merged only where it cannot.
pub proof fn local_commits_are_never_lost(
    cycle: &mut SyncCycle,
    up_to_date: bool,
    fast_forward: bool,
    action: GitAction,
)
    requires
        call_ensures(
            SyncCycle::advance,
            (cycle, GitEvent::Analysed { up_to_date, fast_forward }),
            action,
        ),
    ensures
        action is ReadBranch <==> up_to_date,
        action is FastForward <==> !up_to_date && fast_forward,
        action is Merge <==> !up_to_date && !fast_forward,
        action matches GitAction::FastForward { commit } ==> commit@ == old(cycle).model().remote,
        action matches GitAction::Merge { commit } ==> commit@ == old(cycle).model().remote,
        final(cycle).model().head == old(cycle).model().head,
        final(cycle).model().remote == old(cycle).model().remote,
{
    let event = GitEvent::Analysed { up_to_date, fast_forward };
    assert((final(cycle).model(), action@) == cycle_step(old(cycle).model(), event));
    lemma_action_views(action);
}

/// A kind of action is that of its counterpart.
proof fn lemma_action_views(action: GitAction)
    ensures
        action@ is ReadBranch <==> action is ReadBranch,
        action@ is FastForward <==> action is FastForward,
        action@ is Merge <==> action is Merge,
        action@ is Finish <==> action is Finish,
        action@ is Analyse <==> action is Analyse,
{
}

/// After the fetch there is nothing to do exactly if there is no local commit,
/// or the local branch is at the fetched commit; else both are remembered, and
/// which of them was written later.
pub proof fn fetched_commits_are_remembered(
    cycle: &mut SyncCycle,
    head: Option<CommitInfo>,
    remote: CommitInfo,
    action: GitAction,
)
    requires
        call_ensures(SyncCycle::advance, (cycle, GitEvent::Fetched { head, remote }), action),
    ensures
        action is Finish <==> head is None || head->0.id@ == remote.id@,
        !(action is Finish) ==> {
            &&& action matches GitAction::Analyse { commit } && commit@ == remote.id@
            &&& final(cycle).model().head == head->0.id@
            &&& final(cycle).model().remote == remote.id@
            &&& final(cycle).model().use_ours <==> head->0.author_time >= remote.author_time
        },
{
    let event = GitEvent::Fetched { head, remote };
    assert((final(cycle).model(), action@) == cycle_step(old(cycle).model(), event));
    lemma_action_views(action);
}

} // verus!
