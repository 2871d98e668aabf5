//! The decisions of a program that watches a workspace: when to wake up, what
//! to do then, and what a change to a file asks for.
//!
//! Times are given in nanoseconds since some point in the past.

use crate::paths::{is_name, joined_parts, parts, paths_are_made_of_names, raws, split, DOT, SLASH};
use vstd::prelude::*;

verus! {

/// A recurring task: how often it is due, if at all, and when it last ran.
#[derive(Debug, Clone, Copy, PartialEq, Eq, Structural)]
pub struct Timer {
    pub interval: Option<u128>,
    pub last: u128,
}

impl Timer {
    /// How much time has passed since the task last ran.
    pub open spec fn elapsed(self, now: u128) -> int {
        if now > self.last {
            now - self.last
        } else {
            0
        }
    }

    /// How long it takes until the task is due.
    pub open spec fn left(self, now: u128) -> Option<int> {
        match self.interval {
            Some(interval) => if interval > self.elapsed(now) {
                Some(interval - self.elapsed(now))
            } else {
                Some(0)
            },
            None => None,
        }
    }

    /// The task is due.
    pub open spec fn due(self, now: u128) -> bool {
        self.interval is Some && self.elapsed(now) >= self.interval->0
    }

    fn time_passed(&self, now: u128) -> (r: u128)
        ensures
            r == self.elapsed(now),
    {
        if now > self.last {
            now - self.last
        } else {
            0
        }
    }

    /// How long it takes until the task is due; nothing if it never is.
    pub fn remaining(&self, now: u128) -> (r: Option<u128>)
        ensures
            match r {
                Some(t) => self.left(now) == Some(t as int),
                None => self.left(now) is None,
            },
    {
        match self.interval {
            Some(interval) => {
                let elapsed = self.time_passed(now);
                if interval > elapsed {
                    Some(interval - elapsed)
                } else {
                    Some(0)
                }
            },
            None => None,
        }
    }

    /// Whether the task is due.
    pub fn is_due(&self, now: u128) -> (r: bool)
        ensures
            r == self.due(now),
    {
        match self.interval {
            Some(interval) => self.time_passed(now) >= interval,
            None => false,
        }
    }

    /// The task has run.
    pub fn ran(&mut self, now: u128)
        ensures
            final(self).interval == old(self).interval,
            final(self).last == now,
    {
        self.last = now;
    }
}

/// What woke the program up.
#[derive(Debug, Clone, Copy, PartialEq, Eq, Structural)]
pub enum Wake {
    /// Files have changed.
    Events,
    /// The watcher reports an error.
    WatchError,
    /// The time until the next task has passed.
    Timeout,
    /// The watcher is gone.
    Disconnected,
}

/// What a change to a path asks for.
#[derive(Debug, Clone, Copy, PartialEq, Eq, Structural)]
pub enum PathAction {
    /// Nothing.
    Ignore,
    /// Index the file.
    Upsert,
    /// Remove the file from the index.
    Delete,
}

/// A part of the path is hidden.
pub open spec fn is_hidden(path: Seq<u8>) -> bool {
    exists|i: int|
        0 <= i < parts(path).len() && (#[trigger] parts(path)[i]).len() > 0 && parts(path)[i][0]
            == DOT
}

/// What a change to a path, given by its bytes, asks for. Hidden paths are
/// ignored; otherwise a file is indexed, and what does not exist any more is
/// removed.
pub fn path_action(path: &[u8], is_file: bool, exists_now: bool) -> (r: PathAction)
    ensures
        r == (if is_hidden(path@) {
            PathAction::Ignore
        } else if is_file {
            PathAction::Upsert
        } else if !exists_now {
            PathAction::Delete
        } else {
            PathAction::Ignore
        }),
{
    let all = split(path);
    let mut i: usize = 0;
    while i < all.len()
        invariant
            i <= all@.len(),
            raws(all@) == parts(path@),
            forall|k: int|
                0 <= k < i ==> !((#[trigger] parts(path@)[k]).len() > 0 && parts(path@)[k][0] == DOT),
        decreases all@.len() - i,
    {
        let part = &all[i];
        proof {
            assert(raws(all@)[i as int] == part@);
        }
        if part.len() > 0 && part[0] == DOT {
            proof {
                assert(parts(path@)[i as int].len() > 0);
            }
            return PathAction::Ignore;
        }
        i += 1;
    }
    if is_file {
        PathAction::Upsert
    } else if !exists_now {
        PathAction::Delete
    } else {
        PathAction::Ignore
    }
}

/// The two recurring tasks of a watching program.
#[derive(Debug, Clone, Copy)]
pub struct WatchTimers {
    /// Synchronisation with git.
    pub git: Timer,
    /// Refresh of the index.
    pub retrieve: Timer,
}

/// The smaller of two times, of which either may be missing.
pub open spec fn sooner(a: Option<int>, b: Option<int>) -> Option<int> {
    match (a, b) {
        (Some(x), Some(y)) => Some(
            if x <= y {
                x
            } else {
                y
            },
        ),
        (Some(x), None) => Some(x),
        (None, y) => y,
    }
}

/// Nanoseconds in a second.
pub const NANOS: u128 = 1_000_000_000;

/// The interval in nanoseconds, from the interval in seconds.
pub open spec fn nanos_of(seconds: Option<u64>) -> Option<u128> {
    match seconds {
        Some(s) => Some((s * 1_000_000_000) as u128),
        None => None,
    }
}

fn to_nanos(seconds: Option<u64>) -> (r: Option<u128>)
    ensures
        r == nanos_of(seconds),
{
    match seconds {
        Some(s) => Some(s as u128 * NANOS),
        None => None,
    }
}

impl WatchTimers {
    /// The tasks with the given intervals in seconds; both count from now.
    pub fn start(git_interval: Option<u64>, retrieve_interval: Option<u64>, now: u128) -> (r:
        WatchTimers)
        ensures
            r.git == (Timer { interval: nanos_of(git_interval), last: now }),
            r.retrieve == (Timer { interval: nanos_of(retrieve_interval), last: now }),
    {
        WatchTimers {
            git: Timer { interval: to_nanos(git_interval), last: now },
            retrieve: Timer { interval: to_nanos(retrieve_interval), last: now },
        }
    }

    /// How long to wait for changes at most: until the next task is due;
    /// without end if none ever is.
    pub fn timeout(&self, now: u128) -> (r: Option<u128>)
        ensures
            match r {
                Some(t) => sooner(self.git.left(now), self.retrieve.left(now)) == Some(t as int),
                None => self.git.left(now) is None && self.retrieve.left(now) is None,
            },
    {
        match (self.git.remaining(now), self.retrieve.remaining(now)) {
            (Some(a), Some(b)) => {
                if a <= b {
                    Some(a)
                } else {
                    Some(b)
                }
            },
            (Some(a), None) => Some(a),
            (None, b) => b,
        }
    }
}

/// Where a watching program stands: the action whose outcome is awaited.
#[derive(Debug, Clone, Copy, PartialEq, Eq, Structural)]
pub enum WatchPhase {
    Waiting,
    Files,
    Reporting,
    Git,
    Retrieve,
    Stopped,
}

/// What to do next.
#[derive(Debug, Clone, Copy, PartialEq, Eq, Structural)]
pub enum WatchAction {
    /// Wait for changes, at most for the given time.
    Wait(Option<u128>),
    /// Look at the changed files.
    HandleFiles,
    /// Report the error of the watcher.
    ReportError,
    /// Synchronise with git.
    RunGit,
    /// Refresh the index.
    RunRetrieve,
    /// Stop.
    Stop,
}

/// What came of the last action.
#[derive(Debug, Clone, Copy, PartialEq, Eq, Structural)]
pub enum WatchEvent {
    /// The program woke up.
    Woke(Wake),
    /// What was to be done is done.
    Done,
}

/// The event is one that the present phase awaits.
pub open spec fn watch_awaits(phase: WatchPhase, event: WatchEvent) -> bool {
    match phase {
        WatchPhase::Waiting => event is Woke,
        WatchPhase::Stopped => false,
        _ => event is Done,
    }
}

/// A watching program.
#[derive(Debug, Clone, Copy)]
pub struct WatchLoop {
    pub phase: WatchPhase,
    pub timers: WatchTimers,
}

/// Back to waiting until the next task is due.
pub open spec fn back_to_waiting(w: WatchLoop, now: u128, next: WatchLoop, action: WatchAction) -> bool {
    &&& next == (WatchLoop { phase: WatchPhase::Waiting, ..w })
    &&& match action {
        WatchAction::Wait(Some(t)) => sooner(w.timers.git.left(now), w.timers.retrieve.left(now))
            == Some(t as int),
        WatchAction::Wait(None) => w.timers.git.left(now) is None && w.timers.retrieve.left(
            now,
        ) is None,
        _ => false,
    }
}

/// The refresh of the index, if it is due, else back to waiting.
pub open spec fn retrieve_or_wait(w: WatchLoop, now: u128, next: WatchLoop, action: WatchAction) -> bool {
    if w.timers.retrieve.due(now) {
        next == (WatchLoop { phase: WatchPhase::Retrieve, ..w }) && action
            == WatchAction::RunRetrieve
    } else {
        back_to_waiting(w, now, next, action)
    }
}

/// The tasks that are due: first git, then the refresh of the index.
pub open spec fn tasks_or_wait(w: WatchLoop, now: u128, next: WatchLoop, action: WatchAction) -> bool {
    if w.timers.git.due(now) {
        next == (WatchLoop { phase: WatchPhase::Git, ..w }) && action == WatchAction::RunGit
    } else {
        retrieve_or_wait(w, now, next, action)
    }
}

/// The timers after git was run.
pub open spec fn git_ran(w: WatchLoop, now: u128) -> WatchLoop {
    WatchLoop {
        timers: WatchTimers { git: Timer { last: now, ..w.timers.git }, ..w.timers },
        ..w
    }
}

/// The timers after the index was refreshed.
pub open spec fn retrieve_ran(w: WatchLoop, now: u128) -> WatchLoop {
    WatchLoop {
        timers: WatchTimers { retrieve: Timer { last: now, ..w.timers.retrieve }, ..w.timers },
        ..w
    }
}

/// The next state and action. Changed files are looked at first; after them,
/// and when the waiting time has passed, the tasks run that are due. An error
/// of the watcher is only reported. Without a watcher the program stops.
pub open spec fn watch_step(
    w: WatchLoop,
    event: WatchEvent,
    now: u128,
    next: WatchLoop,
    action: WatchAction,
) -> bool {
    match (w.phase, event) {
        (WatchPhase::Waiting, WatchEvent::Woke(Wake::Events)) => next == (WatchLoop {
            phase: WatchPhase::Files,
            ..w
        }) && action == WatchAction::HandleFiles,
        (WatchPhase::Waiting, WatchEvent::Woke(Wake::WatchError)) => next == (WatchLoop {
            phase: WatchPhase::Reporting,
            ..w
        }) && action == WatchAction::ReportError,
        (WatchPhase::Waiting, WatchEvent::Woke(Wake::Timeout)) => tasks_or_wait(
            w,
            now,
            next,
            action,
        ),
        (WatchPhase::Waiting, WatchEvent::Woke(Wake::Disconnected)) => next == (WatchLoop {
            phase: WatchPhase::Stopped,
            ..w
        }) && action == WatchAction::Stop,
        (WatchPhase::Files, _) => tasks_or_wait(w, now, next, action),
        (WatchPhase::Reporting, _) => back_to_waiting(w, now, next, action),
        (WatchPhase::Git, _) => retrieve_or_wait(git_ran(w, now), now, next, action),
        (WatchPhase::Retrieve, _) => back_to_waiting(retrieve_ran(w, now), now, next, action),
        _ => false,
    }
}

impl WatchLoop {
    /// A program that begins to watch.
    pub fn start(timers: WatchTimers, now: u128) -> (r: (WatchLoop, WatchAction))
        ensures
            back_to_waiting(
                (WatchLoop { phase: WatchPhase::Waiting, timers }),
                now,
                r.0,
                r.1,
            ),
    {
        let w = WatchLoop { phase: WatchPhase::Waiting, timers };
        (w, WatchAction::Wait(timers.timeout(now)))
    }

    fn wait(&mut self, now: u128) -> (r: WatchAction)
        ensures
            back_to_waiting(*old(self), now, *final(self), r),
    {
        self.phase = WatchPhase::Waiting;
        WatchAction::Wait(self.timers.timeout(now))
    }

    fn retrieve_or_wait(&mut self, now: u128) -> (r: WatchAction)
        ensures
            retrieve_or_wait(*old(self), now, *final(self), r),
    {
        if self.timers.retrieve.is_due(now) {
            self.phase = WatchPhase::Retrieve;
            WatchAction::RunRetrieve
        } else {
            self.wait(now)
        }
    }

    fn tasks_or_wait(&mut self, now: u128) -> (r: WatchAction)
        ensures
            tasks_or_wait(*old(self), now, *final(self), r),
    {
        if self.timers.git.is_due(now) {
            self.phase = WatchPhase::Git;
            WatchAction::RunGit
        } else {
            self.retrieve_or_wait(now)
        }
    }

    /// Takes in what came of the last action and says what to do next; see
    /// [`watch_step`].
    pub fn advance(&mut self, event: WatchEvent, now: u128) -> (r: WatchAction)
        requires
            watch_awaits(old(self).phase, event),
        ensures
            watch_step(*old(self), event, now, *final(self), r),
    {
        match self.phase {
            WatchPhase::Waiting => match event {
                WatchEvent::Woke(Wake::Events) => {
                    self.phase = WatchPhase::Files;
                    WatchAction::HandleFiles
                },
                WatchEvent::Woke(Wake::WatchError) => {
                    self.phase = WatchPhase::Reporting;
                    WatchAction::ReportError
                },
                WatchEvent::Woke(Wake::Timeout) => self.tasks_or_wait(now),
                _ => {
                    self.phase = WatchPhase::Stopped;
                    WatchAction::Stop
                },
            },
            WatchPhase::Files => self.tasks_or_wait(now),
            WatchPhase::Reporting => self.wait(now),
            WatchPhase::Git => {
                self.timers.git.ran(now);
                self.retrieve_or_wait(now)
            },
            _ => {
                self.timers.retrieve.ran(now);
                self.wait(now)
            },
        }
    }
}

/// A task runs only when it is due, and right after it ran it is not due again
/// before its interval has passed.
pub proof fn tasks_run_when_due(
    w: WatchLoop,
    event: WatchEvent,
    now: u128,
    next: WatchLoop,
    action: WatchAction,
    later: u128,
)
    requires
        watch_awaits(w.phase, event),
        watch_step(w, event, now, next, action),
        now <= later,
    ensures
        action == WatchAction::RunGit ==> w.timers.git.due(now),
        action == WatchAction::RunRetrieve ==> next.timers.retrieve.due(now),
        w.phase == WatchPhase::Git && w.timers.git.interval is Some ==> (next.timers.git.due(later)
            <==> later - now >= w.timers.git.interval->0),
        w.phase == WatchPhase::Retrieve && w.timers.retrieve.interval is Some ==> (
        next.timers.retrieve.due(later) <==> later - now >= w.timers.retrieve.interval->0),
{
}

/// The program wakes up exactly when a task is due: none is due before the
/// waiting time has passed, and one is when it has.
pub proof fn wakes_when_due(git: Timer, retrieve: Timer, now: u128, t: u128, later: u128)
    requires
        sooner(git.left(now), retrieve.left(now)) == Some(t as int),
        git.last <= now,
        retrieve.last <= now,
        now <= later,
    ensures
        later < now + t ==> !git.due(later) && !retrieve.due(later),
        later >= now + t ==> git.due(later) || retrieve.due(later),
{
}

/// A change is ignored exactly if a name on its path is hidden, that is, starts
/// with a full stop, or if it is to a directory that is still there; a file is
/// indexed, and what is gone is removed.
pub proof fn hidden_names_are_ignored(
    path: &[u8],
    names: Seq<Seq<u8>>,
    is_file: bool,
    exists_now: bool,
    action: PathAction,
)
    requires
        call_ensures(path_action, (path, is_file, exists_now), action),
        forall|i: int| 0 <= i < names.len() ==> is_name(#[trigger] names[i]),
        path@ == seq![SLASH] + joined_parts(names),
    ensures
        ({
            let hidden = exists|i: int|
                0 <= i < names.len() && (#[trigger] names[i])[0] == 46;
            &&& hidden ==> action == PathAction::Ignore
            &&& !hidden ==> (action == PathAction::Upsert <==> is_file)
            &&& !hidden ==> (action == PathAction::Delete <==> !is_file && !exists_now)
            &&& !hidden ==> (action == PathAction::Ignore <==> !is_file && exists_now)
        }),
{
    paths_are_made_of_names(names);
    if exists|i: int| 0 <= i < names.len() && (#[trigger] names[i])[0] == 46 {
        let i = choose|i: int| 0 <= i < names.len() && (#[trigger] names[i])[0] == 46;
        assert(is_name(names[i]));
        assert(parts(path@)[i].len() > 0);
    }
}

/// A task is due exactly if it recurs and its interval has passed since it last
/// ran, and it is that long until it is due again.
pub proof fn intervals_pass_between_runs(timer: Timer, now: u128)
    requires
        timer.last <= now,
    ensures
        timer.due(now) <==> timer.interval is Some && timer.last + timer.interval->0 <= now,
        timer.left(now) is Some <==> timer.interval is Some,
        timer.left(now) is Some ==> timer.left(now)->0 == if timer.last + timer.interval->0 <= now {
            0
        } else {
            timer.last + timer.interval->0 - now
        },
{
}

/// When changed files were looked at, and when the waiting time has passed, git
/// runs first if it is due, and the index is refreshed if that is due; nothing
/// that is due is left out.
pub proof fn due_tasks_run_in_order(
    w: WatchLoop,
    event: WatchEvent,
    now: u128,
    next: WatchLoop,
    action: WatchAction,
)
    requires
        w.phase == WatchPhase::Files && event == WatchEvent::Done || w.phase == WatchPhase::Waiting
            && event == WatchEvent::Woke(Wake::Timeout),
        watch_step(w, event, now, next, action),
        w.timers.git.last <= now,
        w.timers.retrieve.last <= now,
    ensures
        ({
            let git = w.timers.git.interval is Some && w.timers.git.last
                + w.timers.git.interval->0 <= now;
            let retrieve = w.timers.retrieve.interval is Some && w.timers.retrieve.last
                + w.timers.retrieve.interval->0 <= now;
            &&& action == WatchAction::RunGit <==> git
            &&& action == WatchAction::RunRetrieve <==> !git && retrieve
            &&& action is Wait <==> !git && !retrieve
            &&& next.timers == w.timers
        }),
{
}

/// After git ran, the index is refreshed if that is due. A task that ran counts
/// from now; the other one is left as it was.
pub proof fn tasks_that_ran_count_anew(
    w: WatchLoop,
    now: u128,
    next: WatchLoop,
    action: WatchAction,
)
    requires
        w.phase == WatchPhase::Git || w.phase == WatchPhase::Retrieve,
        watch_step(w, WatchEvent::Done, now, next, action),
        w.timers.retrieve.last <= now,
    ensures
        next.timers.git.interval == w.timers.git.interval,
        next.timers.retrieve.interval == w.timers.retrieve.interval,
        w.phase == WatchPhase::Git ==> {
            &&& next.timers.git.last == now
            &&& next.timers.retrieve.last == w.timers.retrieve.last
            &&& action == WatchAction::RunRetrieve <==> w.timers.retrieve.interval is Some
                && w.timers.retrieve.last + w.timers.retrieve.interval->0 <= now
            &&& action != WatchAction::RunRetrieve ==> action is Wait
        },
        w.phase == WatchPhase::Retrieve ==> {
            &&& next.timers.retrieve.last == now
            &&& next.timers.git.last == w.timers.git.last
            &&& action is Wait
        },
{
}

/// Changed files are looked at at once, an error of the watcher is reported and
/// changes nothing, and the program stops exactly when the watcher is gone.
pub proof fn wakes_are_answered(
    w: WatchLoop,
    wake: Wake,
    now: u128,
    next: WatchLoop,
    action: WatchAction,
    after: WatchLoop,
    answer: WatchAction,
    later: u128,
)
    requires
        w.phase == WatchPhase::Waiting,
        watch_step(w, WatchEvent::Woke(wake), now, next, action),
    ensures
        action == WatchAction::HandleFiles <==> wake == Wake::Events,
        action == WatchAction::ReportError <==> wake == Wake::WatchError,
        action == WatchAction::Stop <==> wake == Wake::Disconnected,
        next.timers == w.timers,
        wake == Wake::WatchError && watch_step(next, WatchEvent::Done, later, after, answer)
            ==> answer is Wait && after.timers == w.timers && after.phase == WatchPhase::Waiting,
{
}

/// Intervals are given in seconds and counted in nanoseconds.
pub proof fn seconds_are_counted_in_nanoseconds(seconds: u64)
    ensures
        nanos_of(Some(seconds)) == Some((seconds * 1_000_000_000) as u128),
        nanos_of(Some(seconds))->0 == seconds * 1_000_000_000,
        nanos_of(None) is None,
{
}

/// The program waits until the first of its tasks is due: none is due before
/// that, one is due then, and it waits without end only if no task recurs.
pub proof fn waiting_ends_when_a_task_is_due(
    timers: WatchTimers,
    now: u128,
    wait: Option<u128>,
    later: u128,
)
    requires
        call_ensures(WatchTimers::timeout, (&timers, now), wait),
        timers.git.last <= now <= later,
        timers.retrieve.last <= now,
    ensures
        wait is None <==> timers.git.interval is None && timers.retrieve.interval is None,
        wait is Some ==> (later - now >= wait->0 <==> timers.git.interval is Some
            && timers.git.last + timers.git.interval->0 <= later || timers.retrieve.interval is Some
            && timers.retrieve.last + timers.retrieve.interval->0 <= later),
{
}

/// Whenever the program goes back to waiting, it does so until the first of its
/// tasks is due.
pub proof fn every_wait_ends_when_a_task_is_due(
    w: &mut WatchLoop,
    event: WatchEvent,
    now: u128,
    wait: Option<u128>,
    later: u128,
)
    requires
        call_ensures(WatchLoop::advance, (w, event, now), WatchAction::Wait(wait)),
        watch_awaits(old(w).phase, event),
        old(w).timers.git.last <= now <= later,
        old(w).timers.retrieve.last <= now,
    ensures
        final(w).phase == WatchPhase::Waiting,
        ({
            let git = final(w).timers.git;
            let retrieve = final(w).timers.retrieve;
            &&& wait is None <==> git.interval is None && retrieve.interval is None
            &&& wait is Some ==> (later - now >= wait->0 <==> git.interval is Some && git.last
                + git.interval->0 <= later || retrieve.interval is Some && retrieve.last
                + retrieve.interval->0 <= later)
        }),
{
}

/// Both tasks count from the start, each with its own interval.
pub proof fn tasks_count_from_the_start(
    git: Option<u64>,
    retrieve: Option<u64>,
    now: u128,
    timers: WatchTimers,
    later: u128,
)
    requires
        call_ensures(WatchTimers::start, (git, retrieve, now), timers),
        now <= later,
    ensures
        timers.git.due(later) <==> git is Some && later - now >= git->0 * 1_000_000_000,
        timers.retrieve.due(later) <==> retrieve is Some && later - now >= retrieve->0
            * 1_000_000_000,
{
}

} // verus!
