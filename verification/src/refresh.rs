//! The refresh loop as a state machine.
//!
//! The loop itself sleeps, reads the process table and draws, none of which
//! is done here. Here are its decisions: given where the run stands and
//! what the last request brought, where it stands next and what is to be
//! done. The caller carries out each `Action` and reports back with an
//! `Event`; it starts with `LoopState::begin` and ends on `Action::Exit`.
//!
//! One tick is: take a snapshot, render its report, wait, poll for input.
//! A run is `Running` from the start until it is told to quit or a request
//! fails for good, `Stopping` while the display is being released, and
//! `Stopped` after that. The quit key is looked for once in a tick, when the
//! loop polls for input; a termination signal ends the run whenever the
//! caller reports it.

use vstd::prelude::*;
use crate::error::MonitorError;
use crate::metric::Metric;
use crate::aggregate::all_valid;
use crate::report::{build_report, report_of};
use crate::sample::{EntryView, ProcessSample, RankedReport, SampleView};

verus! {

/// The settings of a run, fixed when it starts.
#[derive(Clone, Copy, Debug, PartialEq, Eq, Structural)]
pub struct LoopConfig {
    /// Time between two ticks, in milliseconds.
    pub interval_ms: u64,
    /// The longest that one poll for input may take, in milliseconds.
    pub poll_timeout_ms: u64,
    /// How many entries a report holds at most.
    pub top_n: usize,
    /// The metric by which reports are ranked.
    pub metric: Metric,
    /// The key that ends the run.
    pub quit_key: char,
}

impl Default for LoopConfig {
    /// A tick every second, polls of a tenth of a second, twenty entries
    /// ranked by memory, and `q` to quit.
    fn default() -> (config: LoopConfig)
        ensures
            config == (LoopConfig {
                interval_ms: 1000,
                poll_timeout_ms: 100,
                top_n: 20,
                metric: Metric::Memory,
                quit_key: 'q',
            }),
    {
        LoopConfig {
            interval_ms: 1000,
            poll_timeout_ms: 100,
            top_n: 20,
            metric: Metric::Memory,
            quit_key: 'q',
        }
    }
}

/// The three phases of a run.
#[derive(Clone, Copy, Debug, PartialEq, Eq, Structural)]
pub enum Phase {
    /// Ticks are being executed.
    Running,
    /// The run is over and the display is being released.
    Stopping,
    /// Nothing is left to do but to exit.
    Stopped,
}

/// The request whose answer the run is waiting for.
#[derive(Clone, Copy, Debug, PartialEq, Eq, Structural)]
pub enum Awaiting {
    /// The display is being acquired.
    Display,
    /// A snapshot is being taken.
    Snapshot,
    /// A report is being drawn.
    Render,
    /// The loop sleeps and then polls for input.
    Input,
    /// The display is being released.
    Release,
    /// The run has ended.
    Nothing,
}

/// Where a run stands.
#[derive(Clone, Copy, Debug, PartialEq, Eq, Structural)]
pub struct LoopState {
    /// The settings of the run.
    pub config: LoopConfig,
    /// The request that is under way.
    pub awaiting: Awaiting,
    /// The error met last: the fatal one that ended the run, or a failed poll
    /// that no later poll has made up for yet.
    pub last_error: Option<MonitorError>,
}

/// What a request brought.
#[derive(Debug, PartialEq, Eq)]
pub enum Event {
    /// The display was acquired.
    DisplayReady,
    /// The display could not be acquired.
    DisplayFailed,
    /// A snapshot was taken.
    Snapshot(Vec<ProcessSample>),
    /// The process table could not be read.
    SnapshotFailed,
    /// The report was drawn.
    Rendered,
    /// The report could not be drawn.
    RenderFailed,
    /// A key was pressed.
    Key(char),
    /// A signal asked the process to terminate.
    Terminate,
    /// The poll ended with nothing that concerns the loop.
    Idle,
    /// The poll itself failed.
    PollFailed,
    /// The display was released.
    Released,
}

/// An `Event` over views.
pub enum EventView {
    DisplayReady,
    DisplayFailed,
    Snapshot(Seq<SampleView>),
    SnapshotFailed,
    Rendered,
    RenderFailed,
    Key(char),
    Terminate,
    Idle,
    PollFailed,
    Released,
}

impl View for Event {
    type V = EventView;

    open spec fn view(&self) -> EventView {
        match self {
            Event::DisplayReady => EventView::DisplayReady,
            Event::DisplayFailed => EventView::DisplayFailed,
            Event::Snapshot(samples) => EventView::Snapshot(samples.deep_view()),
            Event::SnapshotFailed => EventView::SnapshotFailed,
            Event::Rendered => EventView::Rendered,
            Event::RenderFailed => EventView::RenderFailed,
            Event::Key(key) => EventView::Key(*key),
            Event::Terminate => EventView::Terminate,
            Event::Idle => EventView::Idle,
            Event::PollFailed => EventView::PollFailed,
            Event::Released => EventView::Released,
        }
    }
}

/// What the caller is to do next.
#[derive(Debug, PartialEq, Eq)]
pub enum Action {
    /// Acquire the display.
    AcquireDisplay,
    /// Take a snapshot of the process table.
    TakeSnapshot,
    /// Draw the report.
    Render(RankedReport),
    /// Sleep for `interval_ms`, then poll for input for at most
    /// `poll_timeout_ms`.
    Wait { interval_ms: u64, poll_timeout_ms: u64 },
    /// Release the display.
    ReleaseDisplay,
    /// Leave the process with this exit code.
    Exit(i32),
}

/// An `Action` over views.
pub enum ActionView {
    AcquireDisplay,
    TakeSnapshot,
    Render(Seq<EntryView>),
    Wait { interval_ms: u64, poll_timeout_ms: u64 },
    ReleaseDisplay,
    Exit(i32),
}

impl View for Action {
    type V = ActionView;

    open spec fn view(&self) -> ActionView {
        match self {
            Action::AcquireDisplay => ActionView::AcquireDisplay,
            Action::TakeSnapshot => ActionView::TakeSnapshot,
            Action::Render(report) => ActionView::Render(report.deep_view()),
            Action::Wait { interval_ms, poll_timeout_ms } => ActionView::Wait {
                interval_ms: *interval_ms,
                poll_timeout_ms: *poll_timeout_ms,
            },
            Action::ReleaseDisplay => ActionView::ReleaseDisplay,
            Action::Exit(code) => ActionView::Exit(*code),
        }
    }
}

/// The state in which a run starts.
pub open spec fn initial(config: LoopConfig) -> LoopState {
    LoopState { config, awaiting: Awaiting::Display, last_error: None }
}

/// The event tells a running loop to quit: a termination signal at any
/// time, or the quit key when the loop polls for input.
pub open spec fn is_quit(state: LoopState, event: EventView) -> bool {
    state.spec_phase() == Phase::Running && (event == EventView::Terminate || (state.awaiting
        == Awaiting::Input && event == EventView::Key(state.config.quit_key)))
}

/// What the event says has gone wrong with the request under way, if
/// anything. An event that neither answers the request nor is a
/// termination signal counts as the failure of the request.
pub open spec fn error_of(awaiting: Awaiting, event: EventView) -> Option<MonitorError> {
    if event is Terminate {
        None
    } else {
        match awaiting {
            Awaiting::Display => if event is DisplayReady {
                None
            } else {
                Some(MonitorError::RenderFailure)
            },
            Awaiting::Snapshot => match event {
                EventView::Snapshot(samples) => if all_valid(samples) {
                    None
                } else {
                    Some(MonitorError::InvalidMetric)
                },
                _ => Some(MonitorError::SnapshotFailure),
            },
            Awaiting::Render => if event is Rendered {
                None
            } else {
                Some(MonitorError::RenderFailure)
            },
            Awaiting::Input => if event is Key || event is Idle {
                None
            } else {
                Some(MonitorError::InputPollFailure)
            },
            Awaiting::Release => None,
            Awaiting::Nothing => None,
        }
    }
}

impl LoopState {
    /// The phase of the run.
    pub open spec fn spec_phase(self) -> Phase {
        match self.awaiting {
            Awaiting::Release => Phase::Stopping,
            Awaiting::Nothing => Phase::Stopped,
            _ => Phase::Running,
        }
    }

    /// The display has been acquired and not yet been asked back.
    pub open spec fn holds_display(self) -> bool {
        self.awaiting == Awaiting::Snapshot || self.awaiting == Awaiting::Render || self.awaiting
            == Awaiting::Input
    }

    /// The exit code of the run: zero unless a fatal error ended it.
    pub open spec fn spec_exit_code(self) -> i32 {
        match self.last_error {
            Some(error) => if error.fatal() {
                1
            } else {
                0
            },
            None => 0,
        }
    }

    /// The same run, waiting for something else.
    pub open spec fn waiting_for(self, awaiting: Awaiting) -> LoopState {
        LoopState { awaiting, ..self }
    }

    /// The same run with another last error, waiting for something else.
    pub open spec fn noting(self, awaiting: Awaiting, last_error: Option<MonitorError>) -> LoopState {
        LoopState { awaiting, last_error, ..self }
    }
}

/// The end of a run, clean or by a fatal error. The display is released
/// first if it is held; otherwise the run exits at once. The exit code is
/// zero for a clean end and one for an error.
pub open spec fn halt(state: LoopState, error: Option<MonitorError>) -> (LoopState, ActionView) {
    if state.holds_display() {
        (state.noting(Awaiting::Release, error), ActionView::ReleaseDisplay)
    } else {
        (
            state.noting(Awaiting::Nothing, error),
            ActionView::Exit(state.noting(Awaiting::Nothing, error).spec_exit_code()),
        )
    }
}

/// What follows an event that neither ends the run nor is a fatal error:
/// the next request of the tick or, after a poll, the next tick. A failed
/// poll is noted and made up for by the next tick. A run that has left
/// `Running` asks for nothing more than to exit.
pub open spec fn advance(state: LoopState, event: EventView) -> (LoopState, ActionView) {
    match state.awaiting {
        Awaiting::Display => (state.waiting_for(Awaiting::Snapshot), ActionView::TakeSnapshot),
        Awaiting::Snapshot => (
            state.waiting_for(Awaiting::Render),
            ActionView::Render(
                report_of(event->Snapshot_0, state.config.metric, state.config.top_n as nat),
            ),
        ),
        Awaiting::Render => (
            state.waiting_for(Awaiting::Input),
            ActionView::Wait {
                interval_ms: state.config.interval_ms,
                poll_timeout_ms: state.config.poll_timeout_ms,
            },
        ),
        Awaiting::Input => (
            state.noting(Awaiting::Snapshot, error_of(Awaiting::Input, event)),
            ActionView::TakeSnapshot,
        ),
        Awaiting::Release => (
            state.waiting_for(Awaiting::Nothing),
            ActionView::Exit(state.spec_exit_code()),
        ),
        Awaiting::Nothing => (state, ActionView::Exit(state.spec_exit_code())),
    }
}

/// The transition function: the state and the action that follow when
/// `event` arrives in `state`.
pub open spec fn next(state: LoopState, event: EventView) -> (LoopState, ActionView) {
    if is_quit(state, event) {
        halt(state, None)
    } else {
        match error_of(state.awaiting, event) {
            Some(error) => if error.fatal() {
                halt(state, Some(error))
            } else {
                advance(state, event)
            },
            None => advance(state, event),
        }
    }
}

impl LoopState {
    /// Starts a run: the first thing to do is to acquire the display.
    pub fn begin(config: LoopConfig) -> (started: (LoopState, Action))
        ensures
            started.0 == initial(config),
            started.1@ == ActionView::AcquireDisplay,
    {
        (
            LoopState { config, awaiting: Awaiting::Display, last_error: None },
            Action::AcquireDisplay,
        )
    }

    /// Takes in what the last request brought and says what to do next.
    pub fn step(self, event: Event) -> (stepped: (LoopState, Action))
        ensures
            (stepped.0, stepped.1@) == next(self, event@),
    {
        match self.awaiting {
            Awaiting::Release => (self.goes_on(Awaiting::Nothing), Action::Exit(self.exit_code())),
            Awaiting::Nothing => (self, Action::Exit(self.exit_code())),
            Awaiting::Display => match event {
                Event::Terminate => self.halts(None),
                Event::DisplayReady => (self.goes_on(Awaiting::Snapshot), Action::TakeSnapshot),
                _ => self.halts(Some(MonitorError::RenderFailure)),
            },
            Awaiting::Snapshot => match event {
                Event::Terminate => self.halts(None),
                Event::Snapshot(samples) => match build_report(
                    &samples,
                    self.config.metric,
                    self.config.top_n,
                ) {
                    Ok(report) => (self.goes_on(Awaiting::Render), Action::Render(report)),
                    Err(error) => self.halts(Some(error)),
                },
                _ => self.halts(Some(MonitorError::SnapshotFailure)),
            },
            Awaiting::Render => match event {
                Event::Terminate => self.halts(None),
                Event::Rendered => (
                    self.goes_on(Awaiting::Input),
                    Action::Wait {
                        interval_ms: self.config.interval_ms,
                        poll_timeout_ms: self.config.poll_timeout_ms,
                    },
                ),
                _ => self.halts(Some(MonitorError::RenderFailure)),
            },
            Awaiting::Input => {
                let (quit, error) = match event {
                    Event::Terminate => (true, None),
                    Event::Key(key) => (key == self.config.quit_key, None),
                    Event::Idle => (false, None),
                    _ => (false, Some(MonitorError::InputPollFailure)),
                };
                if quit {
                    self.halts(None)
                } else {
                    (
                        LoopState {
                            config: self.config,
                            awaiting: Awaiting::Snapshot,
                            last_error: error,
                        },
                        Action::TakeSnapshot,
                    )
                }
            },
        }
    }

    fn goes_on(self, awaiting: Awaiting) -> (state: LoopState)
        ensures
            state == self.waiting_for(awaiting),
    {
        LoopState { config: self.config, awaiting, last_error: self.last_error }
    }

    fn halts(self, error: Option<MonitorError>) -> (stepped: (LoopState, Action))
        ensures
            (stepped.0, stepped.1@) == halt(self, error),
    {
        match self.awaiting {
            Awaiting::Snapshot | Awaiting::Render | Awaiting::Input => (
                LoopState { config: self.config, awaiting: Awaiting::Release, last_error: error },
                Action::ReleaseDisplay,
            ),
            _ => {
                let ended = LoopState {
                    config: self.config,
                    awaiting: Awaiting::Nothing,
                    last_error: error,
                };
                (ended, Action::Exit(ended.exit_code()))
            },
        }
    }

    /// The phase of the run.
    pub fn phase(&self) -> (phase: Phase)
        ensures
            phase == self.spec_phase(),
    {
        match self.awaiting {
            Awaiting::Release => Phase::Stopping,
            Awaiting::Nothing => Phase::Stopped,
            _ => Phase::Running,
        }
    }

    /// Whether ticks are still being executed.
    pub fn is_running(&self) -> (running: bool)
        ensures
            running == (self.spec_phase() == Phase::Running),
    {
        match self.awaiting {
            Awaiting::Release => false,
            Awaiting::Nothing => false,
            _ => true,
        }
    }

    /// The exit code of the run: zero unless a fatal error ended it.
    pub fn exit_code(&self) -> (code: i32)
        ensures
            code == self.spec_exit_code(),
    {
        match self.last_error {
            Some(error) => if error.is_fatal() {
                1
            } else {
                0
            },
            None => 0,
        }
    }
}

/// The actions that a sequence of events draws from a state, in order.
pub open spec fn run(state: LoopState, events: Seq<EventView>) -> Seq<ActionView>
    decreases events.len(),
{
    if events.len() == 0 {
        Seq::empty()
    } else {
        seq![next(state, events.first()).1] + run(
            next(state, events.first()).0,
            events.drop_first(),
        )
    }
}

/// The state that a sequence of events leads to.
pub open spec fn state_after(state: LoopState, events: Seq<EventView>) -> LoopState
    decreases events.len(),
{
    if events.len() == 0 {
        state
    } else {
        state_after(next(state, events.first()).0, events.drop_first())
    }
}

/// How often the display is acquired along a sequence of events.
pub open spec fn acquisitions(state: LoopState, events: Seq<EventView>) -> nat
    decreases events.len(),
{
    if events.len() == 0 {
        0
    } else {
        let acquired: nat = if state.awaiting == Awaiting::Display && events.first()
            == EventView::DisplayReady {
            1
        } else {
            0
        };
        acquired + acquisitions(next(state, events.first()).0, events.drop_first())
    }
}

/// How often the actions ask for the display to be released.
pub open spec fn releases(actions: Seq<ActionView>) -> nat
    decreases actions.len(),
{
    if actions.len() == 0 {
        0
    } else {
        let released: nat = if actions.first() == ActionView::ReleaseDisplay {
            1
        } else {
            0
        };
        released + releases(actions.drop_first())
    }
}

/// The action belongs to a tick: it takes a snapshot, draws, or waits.
pub open spec fn is_tick_action(action: ActionView) -> bool {
    action is TakeSnapshot || action is Render || action is Wait
}

/// Once a run has left `Running`, all it ever asks for is to exit, with the
/// code of its state: no tick is executed and the display is not released
/// again.
pub proof fn lemma_stopped_run_only_exits(state: LoopState, events: Seq<EventView>)
    requires
        state.spec_phase() != Phase::Running,
    ensures
        run(state, events).len() == events.len(),
        forall|i: int|
            0 <= i < events.len() ==> #[trigger] run(state, events)[i] == ActionView::Exit(
                state.spec_exit_code(),
            ),
        state_after(state, events).spec_phase() != Phase::Running,
        events.len() > 0 ==> state_after(state, events).spec_phase() == Phase::Stopped,
        releases(run(state, events)) == 0,
    decreases events.len(),
{
    if events.len() > 0 {
        let following = next(state, events.first()).0;
        lemma_stopped_run_only_exits(following, events.drop_first());
        let tail = run(following, events.drop_first());
        assert forall|i: int| 0 <= i < events.len() implies #[trigger] run(state, events)[i]
            == ActionView::Exit(state.spec_exit_code()) by {
            if i > 0 {
                assert(run(state, events)[i] == tail[i - 1]);
            }
        }
        assert(run(state, events).drop_first() =~= tail);
    }
}

/// Every acquisition of the display is answered by one release, unless the
/// display is still held: along any sequence of events, what was held at the
/// start plus what was acquired equals what was released plus what is held
/// at the end.
pub proof fn lemma_display_balance(state: LoopState, events: Seq<EventView>)
    ensures
        run(state, events).len() == events.len(),
        (if state.holds_display() {
            1nat
        } else {
            0nat
        }) + acquisitions(state, events) == releases(run(state, events)) + (if state_after(
            state,
            events,
        ).holds_display() {
            1nat
        } else {
            0nat
        }),
        acquisitions(state, events) <= (if state.awaiting == Awaiting::Display {
            1nat
        } else {
            0nat
        }),
    decreases events.len(),
{
    if events.len() > 0 {
        let following = next(state, events.first()).0;
        lemma_display_balance(following, events.drop_first());
        assert(run(state, events).drop_first() =~= run(following, events.drop_first()));
    }
}

/// The actions of a sequence of events, taken in two parts.
pub proof fn lemma_run_in_parts(state: LoopState, before: Seq<EventView>, after: Seq<EventView>)
    ensures
        run(state, before + after) == run(state, before) + run(state_after(state, before), after),
        state_after(state, before + after) == state_after(state_after(state, before), after),
    decreases before.len(),
{
    if before.len() == 0 {
        assert(before + after =~= after);
        assert(run(state, before + after) =~= run(state, before) + run(
            state_after(state, before),
            after,
        ));
    } else {
        let following = next(state, before.first()).0;
        lemma_run_in_parts(following, before.drop_first(), after);
        assert((before + after).drop_first() =~= before.drop_first() + after);
        assert((before + after).first() == before.first());
        assert(run(state, before + after) =~= run(state, before) + run(
            state_after(state, before),
            after,
        ));
    }
}

/// One more event draws one more action, decided in the state that the
/// earlier events led to.
pub proof fn lemma_run_one_more(state: LoopState, events: Seq<EventView>, event: EventView)
    ensures
        run(state, events.push(event)) == run(state, events).push(
            next(state_after(state, events), event).1,
        ),
        state_after(state, events.push(event)) == next(state_after(state, events), event).0,
    decreases events.len(),
{
    let longer = events.push(event);
    if events.len() == 0 {
        reveal_with_fuel(run, 2);
        reveal_with_fuel(state_after, 2);
        assert(longer.first() == event);
        assert(longer.drop_first() =~= Seq::<EventView>::empty());
        assert(run(state, longer) =~= run(state, events).push(next(state, event).1));
    } else {
        let following = next(state, events.first()).0;
        lemma_run_one_more(following, events.drop_first(), event);
        assert(longer.drop_first() =~= events.drop_first().push(event));
        assert(run(state, longer) =~= run(state, events).push(
            next(state_after(state, events), event).1,
        ));
    }
}

proof fn lemma_releases_in_parts(a: Seq<ActionView>, b: Seq<ActionView>)
    ensures
        releases(a + b) == releases(a) + releases(b),
    decreases a.len(),
{
    if a.len() == 0 {
        assert(a + b =~= b);
    } else {
        lemma_releases_in_parts(a.drop_first(), b);
        assert((a + b).drop_first() =~= a.drop_first() + b);
    }
}

/// While a run is `Running` the last error, if there is one, is not fatal;
/// once it has left `Running`, the last error, if there is one, is fatal.
pub proof fn lemma_last_error(state: LoopState, events: Seq<EventView>)
    requires
        state.last_error matches Some(error) ==> (error.fatal() <==> state.spec_phase()
            != Phase::Running),
    ensures
        state_after(state, events).last_error matches Some(error) ==> (error.fatal()
            <==> state_after(state, events).spec_phase() != Phase::Running),
    decreases events.len(),
{
    if events.len() > 0 {
        lemma_last_error(next(state, events.first()).0, events.drop_first());
    }
}

/// A fatal error ends the run: the display is released if it is held, the
/// error is kept, and whatever events follow, the run asks for nothing more
/// than to exit with a code that is not zero.
pub proof fn lemma_fatal_error_ends_the_run(
    state: LoopState,
    event: EventView,
    error: MonitorError,
    after: Seq<EventView>,
)
    requires
        state.spec_phase() == Phase::Running,
        error_of(state.awaiting, event) == Some(error),
        error.fatal(),
    ensures
        next(state, event).0.spec_phase() != Phase::Running,
        next(state, event).0.last_error == Some(error),
        state.holds_display() <==> next(state, event).1 == ActionView::ReleaseDisplay,
        !state.holds_display() ==> next(state, event).1 == ActionView::Exit(1),
        next(state, event).0.spec_exit_code() == 1,
        forall|i: int|
            0 <= i < after.len() ==> #[trigger] run(next(state, event).0, after)[i]
                == ActionView::Exit(1),
{
    lemma_stopped_run_only_exits(next(state, event).0, after);
}

/// A failed poll does not end the run: it is noted, and the next tick
/// begins.
pub proof fn lemma_failed_poll_is_retried(state: LoopState)
    requires
        state.awaiting == Awaiting::Input,
    ensures
        next(state, EventView::PollFailed).1 == ActionView::TakeSnapshot,
        next(state, EventView::PollFailed).0.spec_phase() == Phase::Running,
        next(state, EventView::PollFailed).0.last_error == Some(MonitorError::InputPollFailure),
{
}

/// The settings of a run never change.
pub proof fn lemma_config_is_kept(state: LoopState, events: Seq<EventView>)
    ensures
        state_after(state, events).config == state.config,
    decreases events.len(),
{
    if events.len() > 0 {
        lemma_config_is_kept(next(state, events.first()).0, events.drop_first());
    }
}

/// Once the quit key is seen while the loop polls for input, or a
/// termination signal at any time while the display is held, the display is
/// asked back at once, no tick follows whatever events come, and over the
/// whole run, from its start, the display is released exactly once.
pub proof fn lemma_quit_ends_the_run(
    config: LoopConfig,
    before: Seq<EventView>,
    quit: EventView,
    after: Seq<EventView>,
)
    requires
        state_after(initial(config), before).holds_display(),
        is_quit(state_after(initial(config), before), quit),
    ensures
        ({
            let events = before.push(quit) + after;
            let actions = run(initial(config), events);
            &&& actions.len() == events.len()
            &&& actions[before.len() as int] == ActionView::ReleaseDisplay
            &&& forall|i: int|
                before.len() < i < actions.len() ==> #[trigger] actions[i] == ActionView::Exit(0)
            &&& forall|i: int|
                before.len() <= i < actions.len() ==> !is_tick_action(#[trigger] actions[i])
            &&& releases(actions) == 1
            &&& state_after(initial(config), before.push(quit)).spec_phase() == Phase::Stopping
            &&& after.len() > 0 ==> state_after(initial(config), events).spec_phase()
                == Phase::Stopped
        }),
{
    let start = initial(config);
    let polling = state_after(start, before);
    let stopping = next(polling, quit).0;
    let events = before.push(quit) + after;
    let actions = run(start, events);
    let early = run(start, before);
    let late = run(stopping, after);
    lemma_display_balance(start, before);
    lemma_run_one_more(start, before, quit);
    lemma_run_in_parts(start, before.push(quit), after);
    lemma_stopped_run_only_exits(stopping, after);
    assert(actions == early.push(ActionView::ReleaseDisplay) + late);
    assert(releases(actions) == 1) by {
        let single = seq![ActionView::ReleaseDisplay];
        assert(early.push(ActionView::ReleaseDisplay) =~= early + single);
        reveal_with_fuel(releases, 2);
        assert(single.drop_first() =~= Seq::<ActionView>::empty());
        assert(releases(single) == 1);
        lemma_releases_in_parts(early, single);
        lemma_releases_in_parts(early.push(ActionView::ReleaseDisplay), late);
    }
    assert forall|i: int| before.len() < i < actions.len() implies #[trigger] actions[i]
        == ActionView::Exit(0) by {
        assert(actions[i] == late[i - before.len() - 1]);
    }
}

} // verus!
