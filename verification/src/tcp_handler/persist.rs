//! The persistence task: when a snapshot is due, and how it gets on disk.

use vstd::prelude::*;
use crate::data_handler::document::{document, Node};
use crate::data_handler::entity::EntityView;
use crate::data_handler::naming::{output_file_name, snapshot_path};
use crate::data_handler::stamp::is_clock_stamp;
use crate::data_handler::state::{experiment_of, finalised, has_ended, has_experiment, ServerState};
use crate::tcp_handler::lifecycle::{advance, next_phase, Phase, Signal, GRACE_SECONDS};

verus! {

/// The name of the file that always holds the latest snapshot, in the
/// directory for temporary files.
pub const LATEST_NAME: &'static str = "pyfex.toml";

/// The name of the file that a snapshot is written to before it takes the
/// place of the latest one, in the same directory.
pub const SCRATCH_NAME: &'static str = "pyfex.tmp";

/// One step of putting a snapshot on disk.
#[derive(Debug, Clone, PartialEq)]
pub enum FileStep {
    /// Write the whole text to the file at `path`, in place of what it held.
    Write { path: String, text: String },
    /// Put the file at `from` in the place of the one at `to`, in one move.
    Rename { from: String, to: String },
}

/// What a `FileStep` holds.
pub enum FileStepView {
    Write { path: Seq<char>, text: Seq<char> },
    Rename { from: Seq<char>, to: Seq<char> },
}

impl View for FileStep {
    type V = FileStepView;

    open spec fn view(&self) -> FileStepView {
        match self {
            FileStep::Write { path, text } => FileStepView::Write { path: path@, text: text@ },
            FileStep::Rename { from, to } => FileStepView::Rename { from: from@, to: to@ },
        }
    }
}

/// What a sequence of steps holds.
pub open spec fn step_views(steps: Seq<FileStep>) -> Seq<FileStepView> {
    Seq::new(steps.len(), |i: int| steps[i]@)
}

/// How a snapshot gets on disk: the file of the run is written; then the
/// scratch file is written; then the scratch file takes the place of the
/// latest snapshot.
pub open spec fn snapshot_steps_of(
    run_path: Seq<char>,
    scratch_path: Seq<char>,
    latest_path: Seq<char>,
    text: Seq<char>,
) -> Seq<FileStepView> {
    seq![
        FileStepView::Write { path: run_path, text },
        FileStepView::Write { path: scratch_path, text },
        FileStepView::Rename { from: scratch_path, to: latest_path },
    ]
}

/// The steps that put the snapshot `text` on disk, in their order.
pub fn snapshot_steps(run_path: &str, scratch_path: &str, latest_path: &str, text: &str) -> (steps:
    Vec<FileStep>)
    ensures
        step_views(steps@) == snapshot_steps_of(run_path@, scratch_path@, latest_path@, text@),
{
    let mut steps: Vec<FileStep> = Vec::new();
    steps.push(FileStep::Write { path: run_path.to_owned(), text: text.to_owned() });
    steps.push(FileStep::Write { path: scratch_path.to_owned(), text: text.to_owned() });
    steps.push(FileStep::Rename { from: scratch_path.to_owned(), to: latest_path.to_owned() });
    proof {
        assert(step_views(steps@) =~= snapshot_steps_of(
            run_path@,
            scratch_path@,
            latest_path@,
            text@,
        ));
    }
    steps
}

/// The latest snapshot is only ever replaced whole. Where the latest
/// snapshot has a path of its own, no step writes into it: the one step
/// that touches it is a rename, and what is renamed was written in full,
/// with the same text, by an earlier step.
pub proof fn lemma_latest_is_replaced_whole(
    run_path: Seq<char>,
    scratch_path: Seq<char>,
    latest_path: Seq<char>,
    text: Seq<char>,
)
    requires
        latest_path != run_path,
        latest_path != scratch_path,
    ensures
        forall|i: int|
            0 <= i < snapshot_steps_of(run_path, scratch_path, latest_path, text).len()
                ==> match #[trigger] snapshot_steps_of(run_path, scratch_path, latest_path, text)[i] {
                FileStepView::Write { path, .. } => path != latest_path,
                FileStepView::Rename { from, to } => exists|j: int|
                    0 <= j < i && #[trigger] snapshot_steps_of(
                        run_path,
                        scratch_path,
                        latest_path,
                        text,
                    )[j] == (FileStepView::Write { path: from, text }),
            },
{
    let steps = snapshot_steps_of(run_path, scratch_path, latest_path, text);
    assert(steps[1] == (FileStepView::Write { path: scratch_path, text }));
}

/// What the persistence task is to do next.
#[derive(Debug, PartialEq)]
pub enum SaveAction {
    /// Write this document as the snapshot at this path.
    Write { path: String, document: Node },
    /// Wait for so many seconds.
    Wait { seconds: u64 },
    /// Nothing.
    Ignore,
}

/// The name of the experiment of a run, where it has its descriptor.
pub open spec fn experiment_name(m: Map<Seq<char>, EntityView>) -> Option<Seq<char>> {
    if has_experiment(m) {
        Some(experiment_of(m).info.experiment_name)
    } else {
        None
    }
}

/// Whether the action is to write the snapshot of `m` to its path.
pub open spec fn writes_snapshot(
    action: SaveAction,
    m: Map<Seq<char>, EntityView>,
    output_path: Seq<char>,
    suffix: Seq<char>,
) -> bool {
    &&& action matches SaveAction::Write { path, document: root }
    &&& path@ == snapshot_path(output_path, experiment_name(m), suffix)
    &&& root.doc() == document(m)
}

/// The snapshot of the state, to be written to the path of the run.
fn snapshot(state: &ServerState, file_name_suffix: &str, output_path: &String) -> (action:
    SaveAction)
    ensures
        writes_snapshot(action, state@, output_path@, file_name_suffix@),
{
    let path = output_file_name(
        output_path.as_str(),
        state.get_experiment_name(),
        file_name_suffix,
    );
    SaveAction::Write { path, document: state.dump_to_toml() }
}

/// One step of the persistence task of a run.
///
/// At the end of a period the full state is to be written to the path of
/// the run. On the shutdown signal the end of the run is set, unless it is
/// set already, and the grace period starts. At the end of the grace period
/// the full state is to be written once more, to the same path, and the
/// task stops: that path is what the task has produced. Nothing else
/// changes the state.
pub fn save_state(
    phase: Phase,
    signal: Signal,
    state: &mut ServerState,
    file_name_suffix: &str,
    output_path: &String,
) -> (step: (Phase, SaveAction))
    ensures
        final(state).wf(),
        step.0 == next_phase(phase, signal),
        final(state).order() == old(state).order(),
        final(state).live() == old(state).live(),
        match (phase, signal) {
            (Phase::Active, Signal::Work) | (Phase::Draining, Signal::GraceOver) => {
                &&& final(state)@ == old(state)@
                &&& writes_snapshot(step.1, old(state)@, output_path@, file_name_suffix@)
            },
            (Phase::Active, Signal::Shutdown) => {
                &&& step.1 == (SaveAction::Wait { seconds: GRACE_SECONDS })
                &&& if has_ended(old(state)@) {
                    final(state)@ == old(state)@
                } else {
                    exists|now: Seq<char>|
                        is_clock_stamp(now) && final(state)@ == #[trigger] finalised(
                            old(state)@,
                            now,
                        )
                }
            },
            _ => final(state)@ == old(state)@ && step.1 is Ignore,
        },
{
    let ghost before = *state;
    let action = match (phase, signal) {
        (Phase::Active, Signal::Work) => snapshot(state, file_name_suffix, output_path),
        (Phase::Draining, Signal::GraceOver) => snapshot(state, file_name_suffix, output_path),
        (Phase::Active, Signal::Shutdown) => {
            if !state.is_finalised() {
                state.finalise_time();
            }
            SaveAction::Wait { seconds: GRACE_SECONDS }
        },
        _ => SaveAction::Ignore,
    };
    proof {
        use_type_invariant(&*state);
    }
    (advance(phase, signal), action)
}

} // verus!
