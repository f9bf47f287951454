use rendar::preview::{
    phase_step, should_auto_exit, watch_step, Heartbeat, PreviewEvent, PreviewPhase,
    VersionCounter, WatchInput, WatchState,
};

#[test]
fn burst_of_events_triggers_one_rebuild() {
    // Several change events inside the coalescing window, then quiet:
    // exactly one rebuild, exactly one version increment.
    let max_window: u64 = 2000;
    let (state, fired) = watch_step(&WatchState::Idle, &WatchInput::FileEvent, 1000, max_window);
    assert!(!fired);
    let mut state = state;
    let mut rebuilds: u32 = 0;
    for t in [1050u64, 1100, 1400, 2900] {
        let (next, fired) = watch_step(&state, &WatchInput::FileEvent, t, max_window);
        state = next;
        if fired {
            rebuilds += 1;
        }
    }
    let (state, fired) = watch_step(&state, &WatchInput::QuietTimeout, 3100, max_window);
    if fired {
        rebuilds += 1;
    }
    assert_eq!(rebuilds, 1);
    assert!(matches!(state, WatchState::Idle));

    let mut version = VersionCounter::new();
    assert_eq!(version.current(), 1);
    for _ in 0..rebuilds {
        version.on_rebuild(true);
    }
    assert_eq!(version.current(), 2);
}

#[test]
fn event_beyond_window_closes_the_burst() {
    let max_window: u64 = 2000;
    let (state, _) = watch_step(&WatchState::Idle, &WatchInput::FileEvent, 1000, max_window);
    let (state, fired) = watch_step(&state, &WatchInput::FileEvent, 3500, max_window);
    assert!(fired);
    assert!(matches!(state, WatchState::Idle));
}

#[test]
fn failed_rebuild_keeps_version() {
    let mut version = VersionCounter::new();
    version.on_rebuild(false);
    assert_eq!(version.current(), 1);
    version.on_rebuild(true);
    assert_eq!(version.current(), 2);
}

#[test]
fn auto_exit_fires_at_timeout_not_before() {
    let timeout: u64 = 30_000;
    let last_seen: u64 = 1_000;
    assert!(!should_auto_exit(last_seen, last_seen + timeout - 1, timeout));
    assert!(should_auto_exit(last_seen, last_seen + timeout, timeout));
    assert!(should_auto_exit(last_seen, last_seen + timeout + 5, timeout));
    let mut hb = Heartbeat::new(last_seen);
    hb.beat(20_000);
    assert_eq!(hb.last_seen_ms, 20_000);
    assert!(!should_auto_exit(hb.last_seen_ms, 40_000, timeout));
}

#[test]
fn session_phases_follow_events() {
    let phase = PreviewPhase::Building;
    let phase = phase_step(&phase, &PreviewEvent::BuildFinished);
    assert!(matches!(phase, PreviewPhase::Serving));
    let phase = phase_step(&phase, &PreviewEvent::ChangeBurst);
    assert!(matches!(phase, PreviewPhase::Rebuilding));
    let phase = phase_step(&phase, &PreviewEvent::RebuildFinished);
    assert!(matches!(phase, PreviewPhase::Serving));
    let phase = phase_step(&phase, &PreviewEvent::IdleTimeout);
    assert!(matches!(phase, PreviewPhase::ShuttingDown));
    let phase = phase_step(&phase, &PreviewEvent::ChangeBurst);
    assert!(matches!(phase, PreviewPhase::ShuttingDown));
}
