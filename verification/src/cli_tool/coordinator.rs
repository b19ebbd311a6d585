//! The coordinator of one run: from idle through running and draining to
//! complete or failed.

use vstd::prelude::*;

verus! {

/// Where a run stands.
#[derive(Debug, Clone, Copy, PartialEq, Eq, Structural)]
pub enum RunPhase {
    /// Nothing is started.
    Idle,
    /// All units are at work.
    Running,
    /// The cancellation signal is out; the units are being waited for.
    Draining,
    /// All units have finished and the snapshot is there.
    Complete,
    /// The run has failed.
    Failed,
}

/// A unit of a run that the coordinator starts and waits for.
#[derive(Debug, Clone, Copy, PartialEq, Eq, Structural)]
pub enum Unit {
    /// The ingestion server.
    Ingestion,
    /// The supervisor of the launched process.
    Process,
    /// The status reporter.
    Status,
    /// The persistence task.
    Persistence,
}

/// How a unit ended.
#[derive(Debug, Clone, PartialEq)]
pub enum UnitOutcome {
    /// It finished, with nothing to hand over.
    Clean,
    /// It finished and has produced the file of this name.
    Produced(String),
    /// It crashed, for this reason.
    Crashed(String),
}

/// What happens to a run.
#[derive(Debug, Clone, PartialEq)]
pub enum RunEvent {
    /// The listening endpoint is bound.
    Bound,
    /// The listening endpoint could not be bound.
    BindFailed,
    /// The launched process has exited.
    ProcessExited,
    /// A unit has met an error that the run cannot go on with.
    FatalError,
    /// A unit has ended.
    Ended { unit: Unit, outcome: UnitOutcome },
}

/// What the coordinator is to do.
#[derive(Debug, Clone, PartialEq)]
pub enum RunAction {
    /// Make the state of the run and its cancellation signal, take out one
    /// subscription to the signal for every unit, and only then start the
    /// units.
    StartUnits,
    /// Send the cancellation signal to all subscribers.
    Cancel,
    /// Log that a unit has crashed, with its reason.
    LogCrash { unit: Unit, reason: String },
    /// Hand the snapshot of this name to the notification.
    Notify { snapshot: String },
    /// Report that the run has failed.
    ReportFailure,
}

/// The state of the coordinator of one run: its phase, the units that have
/// ended, and the name of the snapshot that the persistence task produced.
#[derive(Debug, Clone, PartialEq)]
pub struct Coordinator {
    phase: RunPhase,
    ingestion_ended: bool,
    process_ended: bool,
    status_ended: bool,
    persistence_ended: bool,
    snapshot: Option<String>,
}

/// What a `Coordinator` holds.
pub struct CoordinatorView {
    pub phase: RunPhase,
    pub ended: Set<Unit>,
    pub snapshot: Option<Seq<char>>,
}

/// What a `UnitOutcome` holds.
pub enum OutcomeView {
    Clean,
    Produced(Seq<char>),
    Crashed(Seq<char>),
}

/// What a `RunEvent` holds.
pub enum EventView {
    Bound,
    BindFailed,
    ProcessExited,
    FatalError,
    Ended { unit: Unit, outcome: OutcomeView },
}

/// What a `RunAction` holds.
pub enum ActionView {
    StartUnits,
    Cancel,
    LogCrash { unit: Unit, reason: Seq<char> },
    Notify { snapshot: Seq<char> },
    ReportFailure,
}

impl View for UnitOutcome {
    type V = OutcomeView;

    open spec fn view(&self) -> OutcomeView {
        match self {
            UnitOutcome::Clean => OutcomeView::Clean,
            UnitOutcome::Produced(name) => OutcomeView::Produced(name@),
            UnitOutcome::Crashed(reason) => OutcomeView::Crashed(reason@),
        }
    }
}

impl View for RunEvent {
    type V = EventView;

    open spec fn view(&self) -> EventView {
        match self {
            RunEvent::Bound => EventView::Bound,
            RunEvent::BindFailed => EventView::BindFailed,
            RunEvent::ProcessExited => EventView::ProcessExited,
            RunEvent::FatalError => EventView::FatalError,
            RunEvent::Ended { unit, outcome } => EventView::Ended { unit: *unit, outcome: outcome@ },
        }
    }
}

impl View for RunAction {
    type V = ActionView;

    open spec fn view(&self) -> ActionView {
        match self {
            RunAction::StartUnits => ActionView::StartUnits,
            RunAction::Cancel => ActionView::Cancel,
            RunAction::LogCrash { unit, reason } => ActionView::LogCrash {
                unit: *unit,
                reason: reason@,
            },
            RunAction::Notify { snapshot } => ActionView::Notify { snapshot: snapshot@ },
            RunAction::ReportFailure => ActionView::ReportFailure,
        }
    }
}

/// What a sequence of actions holds.
pub open spec fn action_views(actions: Seq<RunAction>) -> Seq<ActionView> {
    Seq::new(actions.len(), |i: int| actions[i]@)
}

/// The set of a unit's name, if the flag is set.
pub open spec fn unit_if(flag: bool, unit: Unit) -> Set<Unit> {
    if flag {
        set![unit]
    } else {
        Set::empty()
    }
}

impl View for Coordinator {
    type V = CoordinatorView;

    closed spec fn view(&self) -> CoordinatorView {
        CoordinatorView {
            phase: self.phase,
            ended: unit_if(self.ingestion_ended, Unit::Ingestion) + unit_if(
                self.process_ended,
                Unit::Process,
            ) + unit_if(self.status_ended, Unit::Status) + unit_if(
                self.persistence_ended,
                Unit::Persistence,
            ),
            snapshot: match self.snapshot {
                Some(name) => Some(name@),
                None => None,
            },
        }
    }
}

/// Whether all four units have ended.
pub open spec fn all_ended(ended: Set<Unit>) -> bool {
    &&& ended.contains(Unit::Ingestion)
    &&& ended.contains(Unit::Process)
    &&& ended.contains(Unit::Status)
    &&& ended.contains(Unit::Persistence)
}

/// The coordinator of a run that has not begun.
pub open spec fn idle() -> CoordinatorView {
    CoordinatorView { phase: RunPhase::Idle, ended: Set::empty(), snapshot: None }
}

/// The units that have ended and the snapshot, once `unit` has ended with
/// `outcome`. Only what the persistence task has produced is the snapshot.
pub open spec fn with_ended(c: CoordinatorView, unit: Unit, outcome: OutcomeView) -> CoordinatorView {
    CoordinatorView {
        phase: c.phase,
        ended: c.ended.insert(unit),
        snapshot: if unit == Unit::Persistence && !c.ended.contains(Unit::Persistence) {
            match outcome {
                OutcomeView::Produced(name) => Some(name),
                _ => None,
            }
        } else {
            c.snapshot
        },
    }
}

/// The phase in which the wait for the units ends: the run is complete
/// where the persistence task has produced a snapshot, and has failed
/// where it has not; while a unit is still at work the wait goes on.
pub open spec fn settled(c: CoordinatorView) -> RunPhase {
    if all_ended(c.ended) {
        if c.snapshot is Some {
            RunPhase::Complete
        } else {
            RunPhase::Failed
        }
    } else {
        RunPhase::Draining
    }
}

/// The coordinator after an event.
///
/// A run begins when the endpoint is bound, and fails at once when it
/// cannot be bound. A running run starts to drain when the process exits,
/// on a fatal error, and when a unit ends. While it drains, every unit
/// that ends is noted, and the wait ends when the last one has. Nothing
/// moves a run that is complete or has failed, and nothing but its
/// endpoint moves a run that has not begun.
pub open spec fn stepped(c: CoordinatorView, event: EventView) -> CoordinatorView {
    match c.phase {
        RunPhase::Idle => match event {
            EventView::Bound => CoordinatorView { phase: RunPhase::Running, ..c },
            EventView::BindFailed => CoordinatorView { phase: RunPhase::Failed, ..c },
            _ => c,
        },
        RunPhase::Running => match event {
            EventView::ProcessExited | EventView::FatalError => CoordinatorView {
                phase: RunPhase::Draining,
                ..c
            },
            EventView::Ended { unit, outcome } => {
                let noted = with_ended(c, unit, outcome);
                CoordinatorView { phase: settled(noted), ..noted }
            },
            _ => c,
        },
        RunPhase::Draining => match event {
            EventView::Ended { unit, outcome } => {
                let noted = with_ended(c, unit, outcome);
                CoordinatorView { phase: settled(noted), ..noted }
            },
            _ => c,
        },
        RunPhase::Complete => c,
        RunPhase::Failed => c,
    }
}

/// What the coordinator is to do on an event, in this order: log the crash
/// of a unit that has crashed; send the cancellation signal, when the run
/// leaves the running phase; and, when the run ends, hand the snapshot to
/// the notification or report the failure. A run that begins is to start
/// its units.
pub open spec fn duties(c: CoordinatorView, event: EventView) -> Seq<ActionView> {
    let next = stepped(c, event);
    let start = if c.phase == RunPhase::Idle && next.phase == RunPhase::Running {
        seq![ActionView::StartUnits]
    } else {
        Seq::empty()
    };
    let crash = match event {
        EventView::Ended { unit, outcome: OutcomeView::Crashed(reason) } => {
            if c.phase == RunPhase::Running || c.phase == RunPhase::Draining {
                seq![ActionView::LogCrash { unit, reason }]
            } else {
                Seq::empty()
            }
        },
        _ => Seq::empty(),
    };
    let cancel = if c.phase == RunPhase::Running && next.phase != RunPhase::Running {
        seq![ActionView::Cancel]
    } else {
        Seq::empty()
    };
    let end = if c.phase != next.phase && next.phase == RunPhase::Complete {
        seq![ActionView::Notify { snapshot: next.snapshot->0 }]
    } else if c.phase != next.phase && next.phase == RunPhase::Failed {
        seq![ActionView::ReportFailure]
    } else {
        Seq::empty()
    };
    start + crash + cancel + end
}

impl Coordinator {
    /// The coordinator of a run that has not begun.
    pub fn new() -> (c: Self)
        ensures
            c@ == idle(),
    {
        let c = Coordinator {
            phase: RunPhase::Idle,
            ingestion_ended: false,
            process_ended: false,
            status_ended: false,
            persistence_ended: false,
            snapshot: None,
        };
        assert(c@.ended =~= Set::<Unit>::empty());
        c
    }

    /// Where the run stands.
    pub fn phase(&self) -> (phase: RunPhase)
        ensures
            phase == self@.phase,
    {
        self.phase
    }

    /// Whether `unit` has ended.
    pub fn has_ended(&self, unit: Unit) -> (ended: bool)
        ensures
            ended == self@.ended.contains(unit),
    {
        match unit {
            Unit::Ingestion => self.ingestion_ended,
            Unit::Process => self.process_ended,
            Unit::Status => self.status_ended,
            Unit::Persistence => self.persistence_ended,
        }
    }

    /// The name of the snapshot that the persistence task has produced.
    pub fn snapshot(&self) -> (name: Option<&String>)
        ensures
            match name {
                Some(n) => self@.snapshot == Some(n@),
                None => self@.snapshot is None,
            },
    {
        self.snapshot.as_ref()
    }

    /// Notes that `unit` has ended with `outcome`.
    fn note_ended(&mut self, unit: Unit, outcome: UnitOutcome)
        ensures
            final(self)@ == with_ended(old(self)@, unit, outcome@),
    {
        match unit {
            Unit::Ingestion => {
                self.ingestion_ended = true;
            },
            Unit::Process => {
                self.process_ended = true;
            },
            Unit::Status => {
                self.status_ended = true;
            },
            Unit::Persistence => {
                if !self.persistence_ended {
                    self.snapshot = match outcome {
                        UnitOutcome::Produced(name) => Some(name),
                        _ => None,
                    };
                }
                self.persistence_ended = true;
            },
        }
        assert(self@.ended =~= old(self)@.ended.insert(unit));
    }

    /// The phase in which the wait for the units ends.
    fn settle(&self) -> (phase: RunPhase)
        ensures
            phase == settled(self@),
    {
        if self.ingestion_ended && self.process_ended && self.status_ended
            && self.persistence_ended {
            if self.snapshot.is_some() {
                RunPhase::Complete
            } else {
                RunPhase::Failed
            }
        } else {
            RunPhase::Draining
        }
    }

    /// Takes an event of the run, moves on as `stepped` says, and returns
    /// what is to be done, as `duties` says.
    pub fn step(&mut self, event: RunEvent) -> (actions: Vec<RunAction>)
        ensures
            final(self)@ == stepped(old(self)@, event@),
            action_views(actions@) == duties(old(self)@, event@),
    {
        let mut actions: Vec<RunAction> = Vec::new();
        let was = self.phase;
        match was {
            RunPhase::Idle => {
                match event {
                    RunEvent::Bound => {
                        self.phase = RunPhase::Running;
                        actions.push(RunAction::StartUnits);
                    },
                    RunEvent::BindFailed => {
                        self.phase = RunPhase::Failed;
                        actions.push(RunAction::ReportFailure);
                    },
                    _ => {},
                }
            },
            RunPhase::Running | RunPhase::Draining => {
                match event {
                    RunEvent::Ended { unit, outcome } => {
                        match &outcome {
                            UnitOutcome::Crashed(reason) => {
                                actions.push(RunAction::LogCrash { unit, reason: reason.clone() });
                            },
                            _ => {},
                        }
                        self.note_ended(unit, outcome);
                        self.phase = self.settle();
                        match was {
                            RunPhase::Running => {
                                actions.push(RunAction::Cancel);
                            },
                            _ => {},
                        }
                        match self.phase {
                            RunPhase::Complete => {
                                match &self.snapshot {
                                    Some(name) => {
                                        actions.push(RunAction::Notify { snapshot: name.clone() });
                                    },
                                    None => {},
                                }
                            },
                            RunPhase::Failed => {
                                actions.push(RunAction::ReportFailure);
                            },
                            _ => {},
                        }
                    },
                    RunEvent::ProcessExited | RunEvent::FatalError => {
                        match was {
                            RunPhase::Running => {
                                self.phase = RunPhase::Draining;
                                actions.push(RunAction::Cancel);
                            },
                            _ => {},
                        }
                    },
                    _ => {},
                }
            },
            RunPhase::Complete => {},
            RunPhase::Failed => {},
        }
        proof {
            assert(action_views(actions@) =~= duties(old(self)@, event@));
        }
        actions
    }
}

/// The coordinator after a run of events.
pub open spec fn after_events(c: CoordinatorView, events: Seq<EventView>) -> CoordinatorView
    decreases events.len(),
{
    if events.len() == 0 {
        c
    } else {
        stepped(after_events(c, events.drop_last()), events.last())
    }
}

/// How often `action` is among `actions`.
pub open spec fn times(actions: Seq<ActionView>, action: ActionView) -> nat
    decreases actions.len(),
{
    if actions.len() == 0 {
        0
    } else {
        times(actions.drop_last(), action) + if actions.last() == action {
            1nat
        } else {
            0nat
        }
    }
}

/// How often `action` is to be done over a run of events.
pub open spec fn times_over(c: CoordinatorView, events: Seq<EventView>, action: ActionView) -> nat
    decreases events.len(),
{
    if events.len() == 0 {
        0
    } else {
        times_over(c, events.drop_last(), action) + times(
            duties(after_events(c, events.drop_last()), events.last()),
            action,
        )
    }
}

/// What holds of the coordinator in every phase: before the run nothing has
/// ended and there is no snapshot; a complete run has seen all its units
/// end and has its snapshot; and there is no snapshot unless the
/// persistence task has ended.
pub open spec fn sound(c: CoordinatorView) -> bool {
    &&& c.phase == RunPhase::Idle ==> c.ended == Set::<Unit>::empty() && c.snapshot is None
    &&& c.phase == RunPhase::Complete ==> all_ended(c.ended) && c.snapshot is Some
    &&& c.phase == RunPhase::Draining ==> !all_ended(c.ended) || c.ended.contains(Unit::Persistence)
    &&& c.snapshot is Some ==> c.ended.contains(Unit::Persistence)
}

/// The signal is among the duties of an event exactly when the run leaves
/// the running phase, and the start exactly when the run begins; each once.
proof fn lemma_times_in_duties(c: CoordinatorView, event: EventView)
    ensures
        times(duties(c, event), ActionView::Cancel) == if c.phase == RunPhase::Running && stepped(
            c,
            event,
        ).phase != RunPhase::Running {
            1nat
        } else {
            0nat
        },
        times(duties(c, event), ActionView::StartUnits) == if c.phase == RunPhase::Idle && stepped(
            c,
            event,
        ).phase == RunPhase::Running {
            1nat
        } else {
            0nat
        },
{
    let d = duties(c, event);
    lemma_times_short(d, ActionView::Cancel);
    lemma_times_short(d, ActionView::StartUnits);
}

/// How often an action is among up to three actions.
proof fn lemma_times_short(d: Seq<ActionView>, action: ActionView)
    requires
        d.len() <= 3,
    ensures
        times(d, action) == (if d.len() > 0 && d[0] == action {
            1nat
        } else {
            0nat
        }) + (if d.len() > 1 && d[1] == action {
            1nat
        } else {
            0nat
        }) + (if d.len() > 2 && d[2] == action {
            1nat
        } else {
            0nat
        }),
    decreases d.len(),
{
    if d.len() > 0 {
        lemma_times_short(d.drop_last(), action);
    }
}

/// A run never goes back: once it has left the running phase it does not
/// run again, and once it has begun it is not idle again.
pub proof fn lemma_phases_only_advance(c: CoordinatorView, event: EventView)
    ensures
        c.phase != RunPhase::Idle ==> stepped(c, event).phase != RunPhase::Idle,
        c.phase != RunPhase::Idle && c.phase != RunPhase::Running ==> stepped(c, event).phase
            != RunPhase::Running,
        c.phase == RunPhase::Complete || c.phase == RunPhase::Failed ==> stepped(c, event) == c
            && duties(c, event) == Seq::<ActionView>::empty(),
{
    if c.phase == RunPhase::Complete || c.phase == RunPhase::Failed {
        assert(duties(c, event) =~= Seq::<ActionView>::empty());
    }
}

/// The cancellation signal is sent once at most, and the units are started
/// once at most, whatever happens to a run and in whatever order.
pub proof fn lemma_signal_and_start_once(c: CoordinatorView, events: Seq<EventView>)
    ensures
        times_over(c, events, ActionView::Cancel) <= 1,
        times_over(c, events, ActionView::StartUnits) <= 1,
        times_over(c, events, ActionView::Cancel) == 1 ==> after_events(c, events).phase
            != RunPhase::Running && after_events(c, events).phase != RunPhase::Idle,
        times_over(c, events, ActionView::StartUnits) == 1 ==> after_events(c, events).phase
            != RunPhase::Idle,
        c.phase != RunPhase::Idle ==> after_events(c, events).phase != RunPhase::Idle
            && times_over(c, events, ActionView::StartUnits) == 0,
        c.phase != RunPhase::Idle && c.phase != RunPhase::Running ==> after_events(
            c,
            events,
        ).phase != RunPhase::Running && times_over(c, events, ActionView::Cancel) == 0,
    decreases events.len(),
{
    if events.len() > 0 {
        let earlier = events.drop_last();
        lemma_signal_and_start_once(c, earlier);
        let mid = after_events(c, earlier);
        lemma_phases_only_advance(mid, events.last());
        lemma_times_in_duties(mid, events.last());
    }
}

/// What `sound` says holds before a run and after every event of it.
pub proof fn lemma_coordinator_stays_sound(c: CoordinatorView, event: EventView)
    requires
        sound(c),
    ensures
        sound(idle()),
        sound(stepped(c, event)),
{
}

/// A run is complete only with its snapshot, and a run whose persistence
/// task has produced none fails once all its units have ended.
pub proof fn lemma_no_snapshot_no_success(c: CoordinatorView, events: Seq<EventView>)
    requires
        sound(c),
    ensures
        sound(after_events(c, events)),
        after_events(c, events).phase == RunPhase::Complete ==> after_events(c, events).snapshot is Some,
    decreases events.len(),
{
    if events.len() > 0 {
        lemma_no_snapshot_no_success(c, events.drop_last());
        lemma_coordinator_stays_sound(after_events(c, events.drop_last()), events.last());
    }
}

/// How many runs to make, one after the other: as many as were asked for,
/// and none where there is no interpreter to launch.
pub fn planned_runs(interpreter: &str, loops: u8) -> (runs: u8)
    ensures
        runs == if interpreter@.len() == 0 {
            0
        } else {
            loops
        },
{
    if interpreter.is_empty() {
        0
    } else {
        loops
    }
}

/// Whether another run is to follow: while fewer runs are made than were
/// planned. A run that fails ends itself only; the runs after it are made
/// all the same, each from the beginning.
pub fn another_run(planned: u8, made: u8) -> (go_on: bool)
    ensures
        go_on == (made < planned),
{
    made < planned
}

} // verus!
