//! The stop protocol of a detection run: a hot loop that polls a kill switch
//! and a shared stop flag, and a watcher that polls the page for the end of
//! the test. The flag only ever goes from false to true.

use vstd::prelude::*;

verus! {

/// Where a detection run stands. There is no way back to `Running`.
#[derive(Clone, Copy, Debug, PartialEq, Eq, Structural)]
pub enum Phase {
    Running,
    Stopping,
    Joined,
}

/// What the run learns between two decisions.
#[derive(Clone, Copy, Debug, PartialEq, Eq, Structural)]
pub enum Event {
    /// One pass of the hot loop: the kill switch's state and what a read of
    /// the shared flag returned (a relaxed read may still see it clear).
    Poll { kill_pressed: bool, flag_seen: bool },
    /// The watcher found the completion marker and set the flag.
    Completed,
    /// The watcher thread has been joined.
    WatcherJoined,
}

/// What the watcher does after one poll.
#[derive(Clone, Copy, Debug, PartialEq, Eq, Structural)]
pub enum WatcherAction {
    /// The flag is already set: leave the loop.
    Exit,
    /// The test is over: set the flag, then leave the loop.
    SignalAndExit,
    /// Sleep one polling interval and poll again.
    WaitAndPoll,
}

/// Interval between two polls of the watcher, in milliseconds.
pub const WATCHER_POLL_MS: u64 = 100;

/// The run's phase together with the value of the shared stop flag.
pub struct Coordinator {
    phase: Phase,
    flag: bool,
}

/// The state that follows `(phase, flag)` on `e`.
pub open spec fn next_state(phase: Phase, flag: bool, e: Event) -> (Phase, bool) {
    match e {
        Event::Poll { kill_pressed, flag_seen } => {
            if phase == Phase::Running && (kill_pressed || flag_seen || flag) {
                (Phase::Stopping, true)
            } else {
                (phase, flag)
            }
        },
        Event::Completed => (phase, true),
        Event::WatcherJoined => {
            if phase == Phase::Stopping {
                (Phase::Joined, flag)
            } else {
                (phase, flag)
            }
        },
    }
}

/// The state after the events of `es`, in order.
pub open spec fn run_events(phase: Phase, flag: bool, es: Seq<Event>) -> (Phase, bool)
    decreases es.len(),
{
    if es.len() == 0 {
        (phase, flag)
    } else {
        let s = run_events(phase, flag, es.drop_last());
        next_state(s.0, s.1, es.last())
    }
}

/// The watcher's decision after reading the flag and looking for the marker.
pub open spec fn watcher_decision(flag_seen: bool, marker_found: bool) -> WatcherAction {
    if flag_seen {
        WatcherAction::Exit
    } else if marker_found {
        WatcherAction::SignalAndExit
    } else {
        WatcherAction::WaitAndPoll
    }
}

impl Coordinator {
    pub closed spec fn phase_spec(&self) -> Phase {
        self.phase
    }

    pub closed spec fn flag_spec(&self) -> bool {
        self.flag
    }

    /// Once the run leaves `Running` the flag is set.
    pub closed spec fn wf(&self) -> bool {
        self.phase != Phase::Running ==> self.flag
    }

    /// A run that has not started stopping, with the flag clear.
    pub fn new() -> (r: Coordinator)
        ensures
            r.wf(),
            r.phase_spec() == Phase::Running,
            !r.flag_spec(),
    {
        Coordinator { phase: Phase::Running, flag: false }
    }

    pub fn phase(&self) -> (r: Phase)
        ensures
            r == self.phase_spec(),
    {
        self.phase
    }

    /// The value of the stop flag.
    pub fn is_stopped(&self) -> (r: bool)
        ensures
            r == self.flag_spec(),
    {
        self.flag
    }

    /// Applies `e` and says whether the hot loop goes on: a pressed kill switch,
    /// a read that saw the flag set, or a flag this coordinator already knows to
    /// be set stops it at the next poll; stopping sets the flag so that the
    /// watcher ends too.
    pub fn handle(&mut self, e: Event) -> (keep_running: bool)
        requires
            old(self).wf(),
        ensures
            final(self).wf(),
            (final(self).phase_spec(), final(self).flag_spec()) == next_state(
                old(self).phase_spec(),
                old(self).flag_spec(),
                e,
            ),
            keep_running == (final(self).phase_spec() == Phase::Running),
    {
        match e {
            Event::Poll { kill_pressed, flag_seen } => {
                if self.phase == Phase::Running && (kill_pressed || flag_seen || self.flag) {
                    self.phase = Phase::Stopping;
                    self.flag = true;
                }
            },
            Event::Completed => {
                self.flag = true;
            },
            Event::WatcherJoined => {
                if self.phase == Phase::Stopping {
                    self.phase = Phase::Joined;
                }
            },
        }
        self.phase == Phase::Running
    }
}

/// One poll of the watcher: leave when the flag is set, signal and leave when
/// the completion marker is on the page, otherwise wait and poll again.
pub fn watcher_step(flag_seen: bool, marker_found: bool) -> (r: WatcherAction)
    ensures
        r == watcher_decision(flag_seen, marker_found),
{
    if flag_seen {
        WatcherAction::Exit
    } else if marker_found {
        WatcherAction::SignalAndExit
    } else {
        WatcherAction::WaitAndPoll
    }
}

/// Once the flag is set, no sequence of events clears it, a run that has left
/// `Running` never returns to it, and a running loop stops at its next poll.
pub proof fn lemma_flag_stays_set(phase: Phase, flag: bool, es: Seq<Event>)
    ensures
        flag ==> run_events(phase, flag, es).1,
        phase != Phase::Running ==> run_events(phase, flag, es).0 != Phase::Running,
        forall|kill_pressed: bool, flag_seen: bool|
            flag ==> #[trigger] next_state(phase, flag, Event::Poll { kill_pressed, flag_seen }).0 != Phase::Running,
    decreases es.len(),
{
    if es.len() > 0 {
        lemma_flag_stays_set(phase, flag, es.drop_last());
    }
}

/// Whichever writer sets the flag, every later state has it set.
pub proof fn lemma_flag_seen_after_set(phase: Phase, flag: bool, es: Seq<Event>, k: int)
    requires
        0 <= k < es.len(),
        es[k] == Event::Completed || (es[k] matches Event::Poll { kill_pressed, flag_seen } && (kill_pressed
            || flag_seen || run_events(phase, flag, es.take(k)).1) && run_events(phase, flag, es.take(k)).0
            == Phase::Running),
    ensures
        forall|j: int| k < j <= es.len() ==> #[trigger] run_events(phase, flag, es.take(j)).1,
{
    assert forall|j: int| k < j <= es.len() implies #[trigger] run_events(phase, flag, es.take(j)).1 by {
        assert(es.take(k + 1).drop_last() =~= es.take(k));
        assert(es.take(k + 1).last() == es[k]);
        let s = run_events(phase, flag, es.take(k + 1));
        assert(s.1);
        lemma_flag_stays_set(s.0, s.1, es.subrange(k + 1, j));
        lemma_run_split(phase, flag, es.take(k + 1), es.subrange(k + 1, j));
        assert(es.take(k + 1) + es.subrange(k + 1, j) =~= es.take(j));
    }
}

/// Running a concatenation runs each part in turn.
pub proof fn lemma_run_split(phase: Phase, flag: bool, a: Seq<Event>, b: Seq<Event>)
    ensures
        run_events(phase, flag, a + b) == ({
            let s = run_events(phase, flag, a);
            run_events(s.0, s.1, b)
        }),
    decreases b.len(),
{
    if b.len() == 0 {
        assert(a + b =~= a);
    } else {
        assert((a + b).drop_last() =~= a + b.drop_last());
        assert((a + b).last() == b.last());
        lemma_run_split(phase, flag, a, b.drop_last());
    }
}

/// The watcher leaves its loop at the first poll that sees the flag set, so it
/// ends within one polling interval of the flag being set.
pub proof fn lemma_watcher_exits_once_flag_seen(polls: Seq<(bool, bool)>, k: int)
    requires
        0 <= k < polls.len(),
        polls[k].0,
    ensures
        exists|j: int| 0 <= j <= k && #[trigger] watcher_decision(polls[j].0, polls[j].1) != WatcherAction::WaitAndPoll,
{
    assert(watcher_decision(polls[k].0, polls[k].1) == WatcherAction::Exit);
}

} // verus!
