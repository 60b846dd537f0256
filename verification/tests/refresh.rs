use procmon::error::MonitorError;
use procmon::metric::Metric;
use procmon::refresh::{Action, Awaiting, Event, LoopConfig, LoopState, Phase};
use procmon::sample::{AggregateEntry, ProcessSample};

fn sample(pid: u32, name: &str, memory_bytes: u64, cpu: f32) -> ProcessSample {
    ProcessSample { pid, name: name.to_string(), memory_bytes, cpu_bits: cpu.to_bits() }
}

fn entry(name: &str, memory_bytes: u128, cpu_units: u128) -> AggregateEntry {
    AggregateEntry { name: name.to_string(), memory_bytes, cpu_units }
}

fn snapshot() -> Vec<ProcessSample> {
    vec![sample(1, "x", 1048576, 2.0), sample(2, "y", 2097152, 1.0)]
}

fn polling(config: LoopConfig) -> LoopState {
    let (state, _) = LoopState::begin(config);
    let (state, _) = state.step(Event::DisplayReady);
    let (state, _) = state.step(Event::Snapshot(snapshot()));
    let (state, _) = state.step(Event::Rendered);
    assert_eq!(state.awaiting, Awaiting::Input);
    state
}

fn drive(mut state: LoopState, events: Vec<Event>) -> (LoopState, Vec<Action>) {
    let mut actions = Vec::new();
    for event in events {
        let (next, action) = state.step(event);
        state = next;
        actions.push(action);
    }
    (state, actions)
}

#[test]
fn default_config_is_one_second_twenty_entries_by_memory() {
    let config = LoopConfig::default();
    assert_eq!(config.interval_ms, 1000);
    assert_eq!(config.poll_timeout_ms, 100);
    assert_eq!(config.top_n, 20);
    assert_eq!(config.metric, Metric::Memory);
    assert_eq!(config.quit_key, 'q');
    assert_eq!(Metric::default(), Metric::Memory);
}

#[test]
fn a_run_begins_by_acquiring_the_display() {
    let (state, action) = LoopState::begin(LoopConfig::default());
    assert_eq!(action, Action::AcquireDisplay);
    assert_eq!(state.phase(), Phase::Running);
    assert!(state.is_running());
    assert_eq!(state.last_error, None);
    assert_eq!(state.exit_code(), 0);
}

#[test]
fn a_tick_snapshots_renders_and_waits() {
    let config = LoopConfig { interval_ms: 250, poll_timeout_ms: 40, top_n: 1, ..LoopConfig::default() };
    let (state, _) = LoopState::begin(config);
    let (state, actions) = drive(
        state,
        vec![Event::DisplayReady, Event::Snapshot(snapshot()), Event::Rendered, Event::Idle],
    );
    assert_eq!(
        actions,
        vec![
            Action::TakeSnapshot,
            Action::Render(vec![entry("y", 2097152, 1048576)]),
            Action::Wait { interval_ms: 250, poll_timeout_ms: 40 },
            Action::TakeSnapshot,
        ]
    );
    assert_eq!(state.phase(), Phase::Running);
    assert_eq!(state.awaiting, Awaiting::Snapshot);
}

#[test]
fn reports_follow_the_configured_metric() {
    let config = LoopConfig { metric: Metric::Cpu, ..LoopConfig::default() };
    let (state, _) = LoopState::begin(config);
    let (_, actions) = drive(state, vec![Event::DisplayReady, Event::Snapshot(snapshot())]);
    assert_eq!(
        actions[1],
        Action::Render(vec![entry("x", 1048576, 2097152), entry("y", 2097152, 1048576)])
    );
}

#[test]
fn quit_key_stops_the_run_and_releases_the_display_once() {
    let state = polling(LoopConfig::default());
    let (state, actions) = drive(
        state,
        vec![
            Event::Key('q'),
            Event::Released,
            Event::Idle,
            Event::Snapshot(snapshot()),
            Event::Rendered,
            Event::Key('q'),
            Event::DisplayReady,
        ],
    );
    assert_eq!(actions[0], Action::ReleaseDisplay);
    for action in &actions[1..] {
        assert_eq!(*action, Action::Exit(0));
    }
    let releases = actions.iter().filter(|a| **a == Action::ReleaseDisplay).count();
    assert_eq!(releases, 1);
    assert_eq!(state.phase(), Phase::Stopped);
    assert!(!state.is_running());
    assert_eq!(state.exit_code(), 0);
    assert_eq!(state.last_error, None);
}

#[test]
fn quit_goes_through_stopping_to_stopped() {
    let state = polling(LoopConfig::default());
    let (state, action) = state.step(Event::Key('q'));
    assert_eq!(action, Action::ReleaseDisplay);
    assert_eq!(state.phase(), Phase::Stopping);
    assert!(!state.is_running());
    let (state, action) = state.step(Event::Released);
    assert_eq!(action, Action::Exit(0));
    assert_eq!(state.phase(), Phase::Stopped);
}

#[test]
fn termination_signal_stops_the_run() {
    let state = polling(LoopConfig::default());
    let (state, action) = state.step(Event::Terminate);
    assert_eq!(action, Action::ReleaseDisplay);
    assert_eq!(state.phase(), Phase::Stopping);
    assert_eq!(state.exit_code(), 0);
}

#[test]
fn termination_signal_stops_the_run_in_any_stage() {
    let (state, _) = LoopState::begin(LoopConfig::default());
    let (state, _) = state.step(Event::DisplayReady);
    let (state, actions) = drive(state, vec![Event::Terminate, Event::Released, Event::Idle]);
    assert_eq!(actions, vec![Action::ReleaseDisplay, Action::Exit(0), Action::Exit(0)]);
    assert_eq!(state.last_error, None);

    let (state, _) = LoopState::begin(LoopConfig::default());
    let (state, _) = state.step(Event::DisplayReady);
    let (state, _) = state.step(Event::Snapshot(snapshot()));
    let (state, action) = state.step(Event::Terminate);
    assert_eq!(action, Action::ReleaseDisplay);
    assert_eq!(state.phase(), Phase::Stopping);
    assert_eq!(state.exit_code(), 0);
}

#[test]
fn termination_before_the_display_is_acquired_releases_nothing() {
    let (state, _) = LoopState::begin(LoopConfig::default());
    let (state, actions) = drive(state, vec![Event::Terminate, Event::Released]);
    assert_eq!(actions, vec![Action::Exit(0), Action::Exit(0)]);
    assert_eq!(state.phase(), Phase::Stopped);
    assert_eq!(state.last_error, None);
}

#[test]
fn the_quit_key_counts_only_while_polling() {
    let (state, _) = LoopState::begin(LoopConfig::default());
    let (state, _) = state.step(Event::DisplayReady);
    let (state, action) = state.step(Event::Key('q'));
    assert_eq!(action, Action::ReleaseDisplay);
    assert_eq!(state.last_error, Some(MonitorError::SnapshotFailure));
    assert_eq!(state.exit_code(), 1);
}

#[test]
fn other_keys_do_not_stop_the_run() {
    let state = polling(LoopConfig::default());
    let (state, action) = state.step(Event::Key('Q'));
    assert_eq!(action, Action::TakeSnapshot);
    assert!(state.is_running());
    assert_eq!(state.last_error, None);
}

#[test]
fn the_quit_key_is_configurable() {
    let config = LoopConfig { quit_key: 'x', ..LoopConfig::default() };
    let (state, action) = polling(config).step(Event::Key('q'));
    assert_eq!(action, Action::TakeSnapshot);
    assert!(state.is_running());
    let (state, action) = polling(config).step(Event::Key('x'));
    assert_eq!(action, Action::ReleaseDisplay);
    assert!(!state.is_running());
}

#[test]
fn failed_poll_is_retried_with_the_next_tick() {
    let state = polling(LoopConfig::default());
    let (state, action) = state.step(Event::PollFailed);
    assert_eq!(action, Action::TakeSnapshot);
    assert!(state.is_running());
    assert_eq!(state.last_error, Some(MonitorError::InputPollFailure));
    assert_eq!(state.exit_code(), 0);
    let (state, actions) =
        drive(state, vec![Event::Snapshot(snapshot()), Event::Rendered, Event::Idle]);
    assert_eq!(actions[2], Action::TakeSnapshot);
    assert_eq!(state.last_error, None);
}

#[test]
fn snapshot_failure_is_fatal() {
    let (state, _) = LoopState::begin(LoopConfig::default());
    let (state, actions) =
        drive(state, vec![Event::DisplayReady, Event::SnapshotFailed, Event::Released]);
    assert_eq!(actions, vec![Action::TakeSnapshot, Action::ReleaseDisplay, Action::Exit(1)]);
    assert_eq!(state.last_error, Some(MonitorError::SnapshotFailure));
    assert_eq!(state.phase(), Phase::Stopped);
    assert_eq!(state.exit_code(), 1);
}

#[test]
fn render_failure_is_fatal() {
    let (state, _) = LoopState::begin(LoopConfig::default());
    let (state, actions) = drive(
        state,
        vec![
            Event::DisplayReady,
            Event::Snapshot(snapshot()),
            Event::RenderFailed,
            Event::Released,
            Event::Idle,
        ],
    );
    assert_eq!(actions[2..], [Action::ReleaseDisplay, Action::Exit(1), Action::Exit(1)]);
    assert_eq!(state.last_error, Some(MonitorError::RenderFailure));
    assert_eq!(state.exit_code(), 1);
}

#[test]
fn invalid_metric_is_fatal_and_nothing_is_rendered() {
    let (state, _) = LoopState::begin(LoopConfig::default());
    let bad = vec![sample(1, "x", 1, 1.0), sample(2, "y", 2, f32::NAN)];
    let (state, actions) =
        drive(state, vec![Event::DisplayReady, Event::Snapshot(bad), Event::Released]);
    assert_eq!(actions, vec![Action::TakeSnapshot, Action::ReleaseDisplay, Action::Exit(1)]);
    assert_eq!(state.last_error, Some(MonitorError::InvalidMetric));
}

#[test]
fn display_that_cannot_be_acquired_is_not_released() {
    let (state, _) = LoopState::begin(LoopConfig::default());
    let (state, actions) = drive(state, vec![Event::DisplayFailed, Event::Released, Event::Idle]);
    assert_eq!(actions, vec![Action::Exit(1), Action::Exit(1), Action::Exit(1)]);
    assert_eq!(state.last_error, Some(MonitorError::RenderFailure));
    assert_eq!(state.phase(), Phase::Stopped);
}

#[test]
fn an_event_that_does_not_answer_the_request_fails_it() {
    let (state, _) = LoopState::begin(LoopConfig::default());
    let (state, _) = state.step(Event::DisplayReady);
    let (state, action) = state.step(Event::Rendered);
    assert_eq!(action, Action::ReleaseDisplay);
    assert_eq!(state.last_error, Some(MonitorError::SnapshotFailure));
    let (state, action) = polling(LoopConfig::default()).step(Event::Rendered);
    assert_eq!(action, Action::TakeSnapshot);
    assert_eq!(state.last_error, Some(MonitorError::InputPollFailure));
}

#[test]
fn empty_snapshot_renders_an_empty_report() {
    let (state, _) = LoopState::begin(LoopConfig::default());
    let (state, actions) = drive(state, vec![Event::DisplayReady, Event::Snapshot(Vec::new())]);
    assert_eq!(actions[1], Action::Render(Vec::new()));
    assert!(state.is_running());
}

#[test]
fn only_a_failed_poll_is_not_fatal() {
    assert!(MonitorError::SnapshotFailure.is_fatal());
    assert!(MonitorError::RenderFailure.is_fatal());
    assert!(MonitorError::InvalidMetric.is_fatal());
    assert!(!MonitorError::InputPollFailure.is_fatal());
}

#[test]
fn every_error_has_its_own_message() {
    let errors = [
        MonitorError::SnapshotFailure,
        MonitorError::RenderFailure,
        MonitorError::InvalidMetric,
        MonitorError::InputPollFailure,
    ];
    assert_eq!(
        MonitorError::SnapshotFailure.message(),
        "snapshot failure: the process table could not be read"
    );
    assert_eq!(
        MonitorError::InvalidMetric.message(),
        "invalid metric: a sampled value is not orderable"
    );
    for (i, a) in errors.iter().enumerate() {
        for (j, b) in errors.iter().enumerate() {
            assert_eq!(a.message() == b.message(), i == j);
        }
    }
}
