//! The phases of a long-lived unit, and the steps of the listener and of
//! the status reporter.

use vstd::prelude::*;
use crate::data_handler::state::ServerState;
use crate::data_handler::status::{device_rows, rows_of, StatusReport};

verus! {

/// How long a unit goes on after the shutdown signal, in seconds, so that
/// what is under way can finish.
pub const GRACE_SECONDS: u64 = 3;

/// How long a periodic unit rests between two rounds, in seconds.
pub const TICK_SECONDS: u64 = 5;

/// Where a long-lived unit of a run stands.
#[derive(Debug, Clone, Copy, PartialEq, Eq, Structural)]
pub enum Phase {
    /// At work.
    Active,
    /// The shutdown signal has come; the grace period runs.
    Draining,
    /// Done for good.
    Stopped,
}

/// What a unit is woken by.
#[derive(Debug, Clone, Copy, PartialEq, Eq, Structural)]
pub enum Signal {
    /// There is work: a period is over, or a peer has connected.
    Work,
    /// The run shuts down.
    Shutdown,
    /// The grace period is over.
    GraceOver,
}

/// The phase after a signal. The shutdown signal counts once, while the
/// unit is at work; the end of the grace period counts once, while the unit
/// drains; nothing wakes a stopped unit.
pub open spec fn next_phase(phase: Phase, signal: Signal) -> Phase {
    match (phase, signal) {
        (Phase::Active, Signal::Shutdown) => Phase::Draining,
        (Phase::Draining, Signal::GraceOver) => Phase::Stopped,
        _ => phase,
    }
}

/// The phase after a signal.
pub fn advance(phase: Phase, signal: Signal) -> (next: Phase)
    ensures
        next == next_phase(phase, signal),
{
    match (phase, signal) {
        (Phase::Active, Signal::Shutdown) => Phase::Draining,
        (Phase::Draining, Signal::GraceOver) => Phase::Stopped,
        _ => phase,
    }
}

/// The phase after a run of signals.
pub open spec fn after_signals(phase: Phase, signals: Seq<Signal>) -> Phase
    decreases signals.len(),
{
    if signals.len() == 0 {
        phase
    } else {
        next_phase(after_signals(phase, signals.drop_last()), signals.last())
    }
}

/// Shutdown is for good. A unit that has left its work does not take it up
/// again, whatever signals come, and a stopped unit stays stopped.
pub proof fn lemma_shutdown_is_final(phase: Phase, signals: Seq<Signal>)
    ensures
        phase != Phase::Active ==> after_signals(phase, signals) != Phase::Active,
        phase == Phase::Stopped ==> after_signals(phase, signals) == Phase::Stopped,
    decreases signals.len(),
{
    if signals.len() > 0 {
        lemma_shutdown_is_final(phase, signals.drop_last());
    }
}

/// A unit at work stops when the shutdown signal and then the end of the
/// grace period have come, whatever else comes between and after.
pub proof fn lemma_stops_after_grace(before: Seq<Signal>, between: Seq<Signal>, after: Seq<Signal>)
    ensures
        after_signals(
            Phase::Active,
            before + seq![Signal::Shutdown] + between + seq![Signal::GraceOver] + after,
        ) == Phase::Stopped,
{
    let first = before + seq![Signal::Shutdown];
    let second = first + between;
    let third = second + seq![Signal::GraceOver];
    lemma_signals_in_turn(Phase::Active, before, seq![Signal::Shutdown]);
    let left = after_signals(Phase::Active, first);
    lemma_one_signal(after_signals(Phase::Active, before), Signal::Shutdown);
    assert(left != Phase::Active);
    lemma_signals_in_turn(Phase::Active, first, between);
    lemma_shutdown_is_final(left, between);
    let drained = after_signals(Phase::Active, second);
    lemma_signals_in_turn(Phase::Active, second, seq![Signal::GraceOver]);
    lemma_one_signal(drained, Signal::GraceOver);
    lemma_signals_in_turn(Phase::Active, third, after);
    lemma_shutdown_is_final(Phase::Stopped, after);
}

/// The phase after a run of one signal is the phase after that signal.
proof fn lemma_one_signal(phase: Phase, signal: Signal)
    ensures
        after_signals(phase, seq![signal]) == next_phase(phase, signal),
{
    let one = seq![signal];
    assert(one.drop_last() =~= Seq::<Signal>::empty());
    assert(after_signals(phase, one.drop_last()) == phase);
    assert(one.last() == signal);
}

/// The phase after two runs of signals, one after the other, is the phase
/// after the second run, begun where the first run ends.
proof fn lemma_signals_in_turn(phase: Phase, first: Seq<Signal>, second: Seq<Signal>)
    ensures
        after_signals(phase, first + second) == after_signals(after_signals(phase, first), second),
    decreases second.len(),
{
    if second.len() == 0 {
        assert(first + second =~= first);
    } else {
        lemma_signals_in_turn(phase, first, second.drop_last());
        assert((first + second).drop_last() =~= first + second.drop_last());
        assert((first + second).last() == second.last());
    }
}

/// What the listener is to do next.
#[derive(Debug, Clone, Copy, PartialEq, Eq, Structural)]
pub enum ListenerAction {
    /// Serve the peer that has connected, on its own, and go on accepting.
    Serve,
    /// Accept no more, and wait for so many seconds. Open connections are
    /// left alone.
    Wait { seconds: u64 },
    /// Nothing.
    Ignore,
}

/// What the listener does on a signal.
pub open spec fn listener_action(phase: Phase, signal: Signal) -> ListenerAction {
    match (phase, signal) {
        (Phase::Active, Signal::Work) => ListenerAction::Serve,
        (Phase::Active, Signal::Shutdown) => ListenerAction::Wait { seconds: GRACE_SECONDS },
        _ => ListenerAction::Ignore,
    }
}

/// The listener serves only while it is at work: once it has the shutdown
/// signal it serves no peer, whatever signals come.
pub proof fn lemma_no_service_after_shutdown(phase: Phase, signals: Seq<Signal>, signal: Signal)
    requires
        phase != Phase::Active,
    ensures
        listener_action(after_signals(phase, signals), signal) != ListenerAction::Serve,
{
    lemma_shutdown_is_final(phase, signals);
}

/// One step of the listener of a run: a peer that connects while the
/// listener is at work is served; the shutdown signal stops the accepting
/// and starts the grace period; the end of the grace period stops the
/// listener.
pub fn start_tcp_server(phase: Phase, signal: Signal) -> (step: (Phase, ListenerAction))
    ensures
        step.0 == next_phase(phase, signal),
        step.1 == listener_action(phase, signal),
{
    let action = match (phase, signal) {
        (Phase::Active, Signal::Work) => ListenerAction::Serve,
        (Phase::Active, Signal::Shutdown) => ListenerAction::Wait { seconds: GRACE_SECONDS },
        _ => ListenerAction::Ignore,
    };
    (advance(phase, signal), action)
}

/// What the status reporter is to do next.
#[derive(Debug, Clone, PartialEq)]
pub enum StatusAction {
    /// Log this summary.
    Report(StatusReport),
    /// Wait for so many seconds.
    Wait { seconds: u64 },
    /// Nothing.
    Ignore,
}

/// One step of the status reporter of a run: at the end of a period it
/// summarises the state; on the shutdown signal it starts the grace period,
/// and it stops at its end without a last summary.
pub fn server_status(phase: Phase, signal: Signal, state: &ServerState) -> (step: (
    Phase,
    StatusAction,
))
    ensures
        step.0 == next_phase(phase, signal),
        match (phase, signal) {
            (Phase::Active, Signal::Work) => match step.1 {
                StatusAction::Report(StatusReport::NoDevices) => device_rows(
                    state@,
                    state.order(),
                ).len() == 0,
                StatusAction::Report(StatusReport::Devices(rows)) => rows@.len() > 0 && rows_of(
                    rows@,
                ) == device_rows(state@, state.order()),
                _ => false,
            },
            (Phase::Active, Signal::Shutdown) => step.1 == (StatusAction::Wait {
                seconds: GRACE_SECONDS,
            }),
            _ => step.1 is Ignore,
        },
{
    let action = match (phase, signal) {
        (Phase::Active, Signal::Work) => StatusAction::Report(state.print_state()),
        (Phase::Active, Signal::Shutdown) => StatusAction::Wait { seconds: GRACE_SECONDS },
        _ => StatusAction::Ignore,
    };
    (advance(phase, signal), action)
}

} // verus!
