//! The preview session's decisions, as a state machine over plain values.
//!
//! The caller owns the watcher, the clock and the HTTP layer; it feeds
//! events and timestamps in and performs the actions decided here: when
//! one rebuild is triggered for a burst of filesystem events, how the
//! version counter moves, and when idleness shuts the server down.

use vstd::prelude::*;

verus! {

/// The phases of one preview session.
pub enum PreviewPhase {
    Building,
    Serving,
    Rebuilding,
    ShuttingDown,
}

/// What happens to a preview session.
pub enum PreviewEvent {
    BuildFinished,
    ChangeBurst,
    RebuildFinished,
    IdleTimeout,
}

/// How a preview session moves between phases: a finished build serves,
/// a change burst rebuilds, and only the idle timeout shuts down, from
/// any phase, for good.
pub open spec fn phase_step_spec(phase: PreviewPhase, ev: PreviewEvent) -> PreviewPhase {
    match ev {
        PreviewEvent::IdleTimeout => PreviewPhase::ShuttingDown,
        PreviewEvent::BuildFinished => match phase {
            PreviewPhase::Building => PreviewPhase::Serving,
            _ => phase,
        },
        PreviewEvent::ChangeBurst => match phase {
            PreviewPhase::Serving => PreviewPhase::Rebuilding,
            _ => phase,
        },
        PreviewEvent::RebuildFinished => match phase {
            PreviewPhase::Rebuilding => PreviewPhase::Serving,
            _ => phase,
        },
    }
}

/// Advance the session by one event.
pub fn phase_step(phase: &PreviewPhase, ev: &PreviewEvent) -> (r: PreviewPhase)
    ensures
        r == phase_step_spec(*phase, *ev),
        *phase is ShuttingDown ==> r is ShuttingDown,
{
    match ev {
        PreviewEvent::IdleTimeout => PreviewPhase::ShuttingDown,
        PreviewEvent::BuildFinished => match phase {
            PreviewPhase::Building => PreviewPhase::Serving,
            PreviewPhase::Serving => PreviewPhase::Serving,
            PreviewPhase::Rebuilding => PreviewPhase::Rebuilding,
            PreviewPhase::ShuttingDown => PreviewPhase::ShuttingDown,
        },
        PreviewEvent::ChangeBurst => match phase {
            PreviewPhase::Serving => PreviewPhase::Rebuilding,
            PreviewPhase::Building => PreviewPhase::Building,
            PreviewPhase::Rebuilding => PreviewPhase::Rebuilding,
            PreviewPhase::ShuttingDown => PreviewPhase::ShuttingDown,
        },
        PreviewEvent::RebuildFinished => match phase {
            PreviewPhase::Rebuilding => PreviewPhase::Serving,
            PreviewPhase::Building => PreviewPhase::Building,
            PreviewPhase::Serving => PreviewPhase::Serving,
            PreviewPhase::ShuttingDown => PreviewPhase::ShuttingDown,
        },
    }
}

/// The watcher's debounce state: idle, or draining a burst that began at
/// a known instant.
pub enum WatchState {
    Idle,
    Draining { started_at_ms: u64 },
}

/// What the watcher observes while debouncing: another filesystem event,
/// or a full quiet period with none.
pub enum WatchInput {
    FileEvent,
    QuietTimeout,
}

/// One debounce decision.  An event while idle opens a coalescing window
/// and triggers nothing.  While draining, an event within the maximum
/// window is absorbed; one beyond it closes the window with a rebuild, as
/// does a quiet period.  The boolean is the rebuild trigger.
pub open spec fn watch_step_spec(
    state: WatchState,
    input: WatchInput,
    now_ms: u64,
    max_window_ms: u64,
) -> (WatchState, bool) {
    match state {
        WatchState::Idle => match input {
            WatchInput::FileEvent => (WatchState::Draining { started_at_ms: now_ms }, false),
            WatchInput::QuietTimeout => (WatchState::Idle, false),
        },
        WatchState::Draining { started_at_ms } => match input {
            WatchInput::FileEvent => {
                if now_ms >= started_at_ms && now_ms - started_at_ms > max_window_ms {
                    (WatchState::Idle, true)
                } else {
                    (WatchState::Draining { started_at_ms }, false)
                }
            },
            WatchInput::QuietTimeout => (WatchState::Idle, true),
        },
    }
}

/// Advance the debounce state by one observation.
pub fn watch_step(state: &WatchState, input: &WatchInput, now_ms: u64, max_window_ms: u64) -> (r: (
    WatchState,
    bool,
))
    ensures
        r == watch_step_spec(*state, *input, now_ms, max_window_ms),
{
    match state {
        WatchState::Idle => match input {
            WatchInput::FileEvent => (WatchState::Draining { started_at_ms: now_ms }, false),
            WatchInput::QuietTimeout => (WatchState::Idle, false),
        },
        WatchState::Draining { started_at_ms } => match input {
            WatchInput::FileEvent => {
                if now_ms >= *started_at_ms && now_ms - *started_at_ms > max_window_ms {
                    (WatchState::Idle, true)
                } else {
                    (WatchState::Draining { started_at_ms: *started_at_ms }, false)
                }
            },
            WatchInput::QuietTimeout => (WatchState::Idle, true),
        },
    }
}

/// Feed the file events at the given instants, from position `i` on,
/// counting the rebuilds they trigger.
pub open spec fn drain_events(
    state: WatchState,
    times: Seq<u64>,
    i: int,
    max_window_ms: u64,
    count: int,
) -> (WatchState, int)
    decreases times.len() - i,
{
    if i < 0 || i >= times.len() {
        (state, count)
    } else {
        let step = watch_step_spec(state, WatchInput::FileEvent, times[i], max_window_ms);
        drain_events(
            step.0,
            times,
            i + 1,
            max_window_ms,
            count + if step.1 {
                1int
            } else {
                0int
            },
        )
    }
}

/// A whole burst seen from idle: every event, then the quiet period.
pub open spec fn burst_outcome(times: Seq<u64>, max_window_ms: u64) -> (WatchState, int) {
    let drained = drain_events(WatchState::Idle, times, 0, max_window_ms, 0);
    let quiet = watch_step_spec(drained.0, WatchInput::QuietTimeout, 0, max_window_ms);
    (quiet.0, drained.1 + if quiet.1 {
        1int
    } else {
        0int
    })
}

proof fn lemma_drain_absorbs(t0: u64, times: Seq<u64>, i: int, max_window_ms: u64, count: int)
    requires
        forall|j: int| i <= j < times.len() ==> #[trigger] times[j] <= t0 + max_window_ms,
    ensures
        drain_events(WatchState::Draining { started_at_ms: t0 }, times, i, max_window_ms, count)
            == (WatchState::Draining { started_at_ms: t0 }, count),
    decreases times.len() - i,
{
    if !(i < 0 || i >= times.len()) {
        lemma_drain_absorbs(t0, times, i + 1, max_window_ms, count);
    }
}

/// Debounce coalescing: however many filesystem events arrive within the
/// coalescing window, the burst triggers exactly one rebuild — and so,
/// through `VersionCounter::on_rebuild`, exactly one version increment —
/// and leaves the watcher idle again.
pub proof fn lemma_debounce_coalesces(times: Seq<u64>, max_window_ms: u64)
    requires
        times.len() >= 1,
        forall|j: int| 0 <= j < times.len() ==> #[trigger] times[j] <= times[0] + max_window_ms,
    ensures
        burst_outcome(times, max_window_ms).1 == 1,
        burst_outcome(times, max_window_ms).0 is Idle,
{
    let t0 = times[0];
    let after_first = watch_step_spec(WatchState::Idle, WatchInput::FileEvent, t0, max_window_ms);
    assert(after_first == (WatchState::Draining { started_at_ms: t0 }, false));
    lemma_drain_absorbs(t0, times, 1, max_window_ms, 0);
}

/// The preview version counter: starts at 1, moves up by exactly 1 after
/// each successful rebuild, and never moves otherwise.
pub struct VersionCounter {
    pub value: u64,
}

impl VersionCounter {
    /// A fresh counter, as a preview server starts.
    pub fn new() -> (c: VersionCounter)
        ensures
            c.value == 1,
    {
        VersionCounter { value: 1 }
    }

    /// The value the version endpoint reports.
    pub fn current(&self) -> (v: u64)
        ensures
            v == self.value,
    {
        self.value
    }

    /// Record a rebuild: a successful one moves the counter up by exactly
    /// one; a failed one leaves it alone, so clients keep the last good
    /// build.
    pub fn on_rebuild(&mut self, success: bool)
        requires
            old(self).value < u64::MAX,
        ensures
            final(self).value == if success {
                old(self).value + 1
            } else {
                old(self).value as int
            },
    {
        if success {
            self.value = self.value + 1;
        }
    }
}

/// The idle tracker: the instant of the last observed activity.
pub struct Heartbeat {
    pub last_seen_ms: u64,
}

impl Heartbeat {
    /// Start the tracker at the current instant.
    pub fn new(now_ms: u64) -> (h: Heartbeat)
        ensures
            h.last_seen_ms == now_ms,
    {
        Heartbeat { last_seen_ms: now_ms }
    }

    /// A heartbeat request arrived: remember the instant.
    pub fn beat(&mut self, now_ms: u64)
        ensures
            final(self).last_seen_ms == now_ms,
    {
        self.last_seen_ms = now_ms;
    }
}

/// Shutdown is due: the idle time since the last observed activity has
/// reached the configured timeout.
pub open spec fn auto_exit_due(last_seen_ms: u64, now_ms: u64, timeout_ms: u64) -> bool {
    now_ms >= last_seen_ms && now_ms - last_seen_ms >= timeout_ms
}

/// Decide auto-exit: shutdown begins the moment the idle time reaches
/// the timeout, and never before.
pub fn should_auto_exit(last_seen_ms: u64, now_ms: u64, timeout_ms: u64) -> (r: bool)
    ensures
        r == auto_exit_due(last_seen_ms, now_ms, timeout_ms),
{
    now_ms >= last_seen_ms && now_ms - last_seen_ms >= timeout_ms
}

/// Auto-exit timing: with a timeout of `t` and the last activity at
/// `last`, shutdown is due at instant `last + t` and at every instant
/// after it, and at no instant before it.
pub proof fn lemma_auto_exit_exact(last_seen_ms: u64, now_ms: u64, timeout_ms: u64)
    ensures
        now_ms < last_seen_ms + timeout_ms ==> !auto_exit_due(last_seen_ms, now_ms, timeout_ms),
        now_ms >= last_seen_ms + timeout_ms ==> auto_exit_due(last_seen_ms, now_ms, timeout_ms),
{
}

} // verus!
