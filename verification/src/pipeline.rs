//! The course of a run. The supervisor moves from phase to phase as the
//! outside world reports what happened, and says at each move what is to be
//! done next. Whatever way a run ends, the scratch directory is removed
//! before the host is told.

use crate::config::Config;
use vstd::prelude::*;

verus! {

/// The longer side of every encoded picture, in pixels.
pub const IMGSZ: usize = 1280;

/// How many encoded frames may wait for the stream at a time. The queue is
/// small because every frame in it holds a picture.
pub const MEDIA_QUEUE_CAPACITY: usize = 8;

/// How many counts of finished files may wait for the host at a time.
pub const PROGRESS_QUEUE_CAPACITY: usize = 5;

/// How long the supervisor sleeps between two looks at the exporter, in
/// milliseconds.
pub const EXPORTER_POLL_MILLIS: u64 = 100;

/// How often the removal of a staged copy is tried.
pub const REMOVAL_ATTEMPTS: u32 = 3;

/// How long the producer waits between two such attempts, in seconds.
pub const REMOVAL_DELAY_SECONDS: u64 = 1;

/// How a run ended.
#[derive(Clone, Copy, Debug, PartialEq, Eq, Structural)]
pub enum Outcome {
    /// The host is told that the run is complete.
    Completed,
    /// The host is told the error that ended the run.
    Failed,
}

/// Where a run stands.
#[derive(Clone, Copy, Debug, PartialEq, Eq, Structural)]
pub enum Phase {
    /// The channel to the service is being opened.
    Connecting,
    /// The access token was presented; the answer is awaited.
    Authenticating,
    /// The source folder is being walked.
    Indexing,
    /// The checkpoint is being read.
    Resuming,
    /// The scratch directory is being made.
    Staging,
    /// Frames go out and replies come in.
    Streaming,
    /// The stream is over; the exporter takes in what is left.
    Draining,
    /// The final artifact is being written.
    Exporting,
    /// The run is over.
    Finished(Outcome),
}

/// What the outside world reports.
#[derive(Clone, Copy, Debug, PartialEq, Eq, Structural)]
pub enum Signal {
    Connected,
    ConnectFailed,
    AuthAccepted,
    AuthRejected,
    Indexed,
    IndexFailed,
    CheckpointLoaded,
    CheckpointFailed,
    ScratchCreated,
    ScratchFailed,
    /// The service refused to open the stream.
    StreamRejected,
    /// The stream of replies came to its end.
    StreamEnded,
    /// The stream of replies broke.
    StreamFailed,
    /// The exporter has taken in all that was sent to it.
    ExporterDone,
    FinalWritten,
    FinalFailed,
}

/// What is to be done.
#[derive(Clone, Copy, Debug, PartialEq, Eq, Structural)]
pub enum Step {
    Authenticate,
    /// Remove the scratch directory with all that is in it.
    RemoveScratch,
    IndexFolder,
    LoadCheckpoint,
    /// Make the scratch directory.
    CreateScratch,
    /// Start the exporter, the stager where files are staged, and the frame
    /// producers.
    StartWorkers,
    OpenStream,
    /// Close the exporter's input.
    CloseExporter,
    /// Write the final artifact.
    WriteFinal,
    /// Write the error to the log.
    LogError,
    /// Tell the host that the run is complete.
    EmitComplete,
    /// Tell the host the error.
    EmitError,
}

/// What the configuration says of the course of the run.
#[derive(Clone, Copy, Debug, PartialEq, Eq, Structural)]
pub struct Setup {
    /// The interval of checkpoints is at least 1.
    pub valid: bool,
    /// A checkpoint is given to resume from.
    pub resumes: bool,
    /// Files are staged in a scratch directory.
    pub stages: bool,
}

/// What `config` says of the course of the run: whether its interval of
/// checkpoints allows a run at all, whether it names a checkpoint to resume
/// from, and whether files are staged.
pub fn setup_of(config: &Config) -> (setup: Setup)
    ensures
        setup.valid == config.config_options.is_valid(),
        setup.resumes == (config.detect_options.checkpoint_path() is Some),
        setup.stages == config.config_options.stages(),
{
    Setup {
        valid: config.config_options.valid(),
        resumes: config.detect_options.checkpoint().is_some(),
        stages: config.config_options.stager_enabled(),
    }
}

/// The move that follows when the files of the run are known: the scratch
/// directory is made first where files are staged, else the workers start
/// at once.
pub open spec fn starting(setup: Setup) -> (Phase, Seq<Step>) {
    if setup.stages {
        (Phase::Staging, seq![Step::CreateScratch])
    } else {
        (Phase::Streaming, seq![Step::StartWorkers, Step::OpenStream])
    }
}

/// The steps that end a run in failure.
pub open spec fn failing() -> (Phase, Seq<Step>) {
    (Phase::Finished(Outcome::Failed), seq![Step::RemoveScratch, Step::EmitError])
}

/// The phase that follows `phase` on `signal`, and the steps to take. A
/// signal that has no place in the phase changes nothing.
pub open spec fn transition(phase: Phase, signal: Signal, setup: Setup) -> (Phase, Seq<Step>) {
    match (phase, signal) {
        (Phase::Connecting, Signal::Connected) => (Phase::Authenticating, seq![Step::Authenticate]),
        (Phase::Connecting, Signal::ConnectFailed) => failing(),
        (Phase::Authenticating, Signal::AuthAccepted) => if setup.valid {
            (Phase::Indexing, seq![Step::RemoveScratch, Step::IndexFolder])
        } else {
            (
                Phase::Finished(Outcome::Completed),
                seq![Step::RemoveScratch, Step::LogError, Step::EmitComplete],
            )
        },
        (Phase::Authenticating, Signal::AuthRejected) => failing(),
        (Phase::Indexing, Signal::Indexed) => if setup.resumes {
            (Phase::Resuming, seq![Step::LoadCheckpoint])
        } else {
            starting(setup)
        },
        (Phase::Indexing, Signal::IndexFailed) => failing(),
        (Phase::Resuming, Signal::CheckpointLoaded) => starting(setup),
        (Phase::Resuming, Signal::CheckpointFailed) => failing(),
        (Phase::Staging, Signal::ScratchCreated) => (
            Phase::Streaming,
            seq![Step::StartWorkers, Step::OpenStream],
        ),
        (Phase::Staging, Signal::ScratchFailed) => failing(),
        (Phase::Streaming, Signal::StreamEnded) => (Phase::Draining, seq![Step::CloseExporter]),
        (Phase::Streaming, Signal::StreamRejected) => (
            Phase::Draining,
            seq![Step::LogError, Step::CloseExporter],
        ),
        (Phase::Streaming, Signal::StreamFailed) => (
            Phase::Draining,
            seq![Step::LogError, Step::CloseExporter],
        ),
        (Phase::Draining, Signal::ExporterDone) => (Phase::Exporting, seq![Step::WriteFinal]),
        (Phase::Exporting, Signal::FinalWritten) => (
            Phase::Finished(Outcome::Completed),
            seq![Step::RemoveScratch, Step::EmitComplete],
        ),
        (Phase::Exporting, Signal::FinalFailed) => failing(),
        _ => (phase, Seq::empty()),
    }
}

/// Moves the run on by one signal.
pub fn advance(phase: Phase, signal: Signal, setup: Setup) -> (r: (Phase, Vec<Step>))
    ensures
        (r.0, r.1@) == transition(phase, signal, setup),
{
    let mut steps: Vec<Step> = Vec::new();
    let next = match (phase, signal) {
        (Phase::Connecting, Signal::Connected) => {
            steps.push(Step::Authenticate);
            Phase::Authenticating
        },
        (Phase::Authenticating, Signal::AuthAccepted) => {
            steps.push(Step::RemoveScratch);
            if setup.valid {
                steps.push(Step::IndexFolder);
                Phase::Indexing
            } else {
                steps.push(Step::LogError);
                steps.push(Step::EmitComplete);
                Phase::Finished(Outcome::Completed)
            }
        },
        (Phase::Indexing, Signal::Indexed) => {
            if setup.resumes {
                steps.push(Step::LoadCheckpoint);
                Phase::Resuming
            } else if setup.stages {
                steps.push(Step::CreateScratch);
                Phase::Staging
            } else {
                steps.push(Step::StartWorkers);
                steps.push(Step::OpenStream);
                Phase::Streaming
            }
        },
        (Phase::Resuming, Signal::CheckpointLoaded) => {
            if setup.stages {
                steps.push(Step::CreateScratch);
                Phase::Staging
            } else {
                steps.push(Step::StartWorkers);
                steps.push(Step::OpenStream);
                Phase::Streaming
            }
        },
        (Phase::Staging, Signal::ScratchCreated) => {
            steps.push(Step::StartWorkers);
            steps.push(Step::OpenStream);
            Phase::Streaming
        },
        (Phase::Streaming, Signal::StreamEnded) => {
            steps.push(Step::CloseExporter);
            Phase::Draining
        },
        (Phase::Streaming, Signal::StreamRejected) | (Phase::Streaming, Signal::StreamFailed) => {
            steps.push(Step::LogError);
            steps.push(Step::CloseExporter);
            Phase::Draining
        },
        (Phase::Draining, Signal::ExporterDone) => {
            steps.push(Step::WriteFinal);
            Phase::Exporting
        },
        (Phase::Exporting, Signal::FinalWritten) => {
            steps.push(Step::RemoveScratch);
            steps.push(Step::EmitComplete);
            Phase::Finished(Outcome::Completed)
        },
        (Phase::Connecting, Signal::ConnectFailed)
        | (Phase::Authenticating, Signal::AuthRejected)
        | (Phase::Indexing, Signal::IndexFailed)
        | (Phase::Resuming, Signal::CheckpointFailed)
        | (Phase::Staging, Signal::ScratchFailed)
        | (Phase::Exporting, Signal::FinalFailed) => {
            steps.push(Step::RemoveScratch);
            steps.push(Step::EmitError);
            Phase::Finished(Outcome::Failed)
        },
        _ => phase,
    };
    (next, steps)
}

/// The phase that a run reaches from its start on `signals`.
pub open spec fn phase_after(signals: Seq<Signal>, setup: Setup) -> Phase
    decreases signals.len(),
{
    if signals.len() == 0 {
        Phase::Connecting
    } else {
        transition(phase_after(signals.drop_last(), setup), signals.last(), setup).0
    }
}

/// All the steps that a run takes from its start on `signals`, in order.
pub open spec fn steps_after(signals: Seq<Signal>, setup: Setup) -> Seq<Step>
    decreases signals.len(),
{
    if signals.len() == 0 {
        Seq::empty()
    } else {
        steps_after(signals.drop_last(), setup) + transition(
            phase_after(signals.drop_last(), setup),
            signals.last(),
            setup,
        ).1
    }
}

/// The course of a whole run: the phase that it reaches from its start on
/// `signals`, and all the steps that it takes on the way. A run that is
/// over has removed the scratch directory and told the host, in this order
/// and as the last things it did.
pub fn process(signals: &Vec<Signal>, setup: Setup) -> (r: (Phase, Vec<Step>))
    ensures
        r.0 == phase_after(signals@, setup),
        r.1@ == steps_after(signals@, setup),
        r.0 is Finished ==> ends_clean(r.1@),
{
    let mut phase = Phase::Connecting;
    let mut steps: Vec<Step> = Vec::new();
    let mut i: usize = 0;
    while i < signals.len()
        invariant
            i <= signals@.len(),
            phase == phase_after(signals@.take(i as int), setup),
            steps@ == steps_after(signals@.take(i as int), setup),
        decreases signals@.len() - i,
    {
        proof {
            assert(signals@.take(i + 1).drop_last() =~= signals@.take(i as int));
        }
        let (next, mut more) = advance(phase, signals[i], setup);
        phase = next;
        steps.append(&mut more);
        i = i + 1;
    }
    proof {
        assert(signals@.take(i as int) =~= signals@);
        if phase is Finished {
            lemma_scratch_removed(signals@, setup);
        }
    }
    (phase, steps)
}

/// A step that tells the host how the run ended.
pub open spec fn is_report(step: Step) -> bool {
    step == Step::EmitComplete || step == Step::EmitError
}

/// `steps` ends with the removal of the scratch directory and one report
/// to the host, with at most the logging of an error between them.
pub open spec fn ends_clean(steps: Seq<Step>) -> bool {
    exists|i: int|
        0 <= i < steps.len() - 1 && #[trigger] steps[i] == Step::RemoveScratch && is_report(
            steps.last(),
        ) && forall|j: int| i < j < steps.len() - 1 ==> #[trigger] steps[j] == Step::LogError
}

/// A finished run stays finished, and nothing more is done.
pub proof fn lemma_finished_is_final(outcome: Outcome, signal: Signal, setup: Setup)
    ensures
        transition(Phase::Finished(outcome), signal, setup) == (
            Phase::Finished(outcome),
            Seq::<Step>::empty(),
        ),
{
}

/// The move that ends a run removes the scratch directory and then tells
/// the host, complete for a run that completed and the error for one that
/// failed.
pub proof fn lemma_last_move_cleans(phase: Phase, signal: Signal, setup: Setup)
    requires
        !(phase is Finished),
        transition(phase, signal, setup).0 is Finished,
    ensures
        ends_clean(transition(phase, signal, setup).1),
        transition(phase, signal, setup).0 == Phase::Finished(Outcome::Completed)
            <==> transition(phase, signal, setup).1.last() == Step::EmitComplete,
{
}

/// However a run ends, after success, a refused token or a broken stream,
/// the last things done are the removal of the scratch directory and the
/// report to the host.
pub proof fn lemma_scratch_removed(signals: Seq<Signal>, setup: Setup)
    requires
        phase_after(signals, setup) is Finished,
    ensures
        ends_clean(steps_after(signals, setup)),
    decreases signals.len(),
{
    let front = signals.drop_last();
    let before = phase_after(front, setup);
    let last = transition(before, signals.last(), setup).1;
    let all = steps_after(signals, setup);
    if before is Finished {
        lemma_finished_is_final(before->Finished_0, signals.last(), setup);
        lemma_scratch_removed(front, setup);
    } else {
        lemma_last_move_cleans(before, signals.last(), setup);
        let i = choose|i: int|
            0 <= i < last.len() - 1 && #[trigger] last[i] == Step::RemoveScratch && is_report(
                last.last(),
            ) && forall|j: int| i < j < last.len() - 1 ==> #[trigger] last[j] == Step::LogError;
        let offset = steps_after(front, setup).len() as int;
        assert(all[offset + i] == last[i]);
        assert forall|j: int| offset + i < j < all.len() - 1 implies #[trigger] all[j]
            == Step::LogError by {
        }
    }
}

/// A phase before the stream is opened.
pub open spec fn is_early(phase: Phase) -> bool {
    phase is Connecting || phase is Authenticating || phase is Indexing || phase is Resuming
        || phase is Staging
}

/// A step that starts work on files or writes an artifact.
pub open spec fn is_work(step: Step) -> bool {
    step == Step::StartWorkers || step == Step::OpenStream || step == Step::WriteFinal
}

/// `steps` holds no step that starts work or writes.
pub open spec fn idle(steps: Seq<Step>) -> bool {
    forall|i: int| 0 <= i < steps.len() ==> !is_work(#[trigger] steps[i])
}

/// Before the stream is opened no worker runs and nothing is written.
pub proof fn lemma_early_phases_idle(signals: Seq<Signal>, setup: Setup)
    requires
        is_early(phase_after(signals, setup)),
    ensures
        idle(steps_after(signals, setup)),
    decreases signals.len(),
{
    if signals.len() > 0 {
        let front = signals.drop_last();
        let before = phase_after(front, setup);
        let all = steps_after(signals, setup);
        lemma_early_phases_idle(front, setup);
        assert forall|i: int| 0 <= i < all.len() implies !is_work(#[trigger] all[i]) by {
        }
    }
}

/// A run that fails before the stream is opened, as it does where the
/// service refuses the token, has started no worker and written nothing:
/// it removes the scratch directory and tells the host the error.
pub proof fn lemma_early_failure_writes_nothing(
    signals: Seq<Signal>,
    signal: Signal,
    setup: Setup,
)
    requires
        is_early(phase_after(signals, setup)),
        phase_after(signals.push(signal), setup) is Finished,
    ensures
        idle(steps_after(signals.push(signal), setup)),
        ends_clean(steps_after(signals.push(signal), setup)),
        signal == Signal::AuthRejected ==> phase_after(signals.push(signal), setup)
            == Phase::Finished(Outcome::Failed) && steps_after(signals.push(signal), setup).last()
            == Step::EmitError,
{
    let run = signals.push(signal);
    assert(run.drop_last() =~= signals);
    let all = steps_after(run, setup);
    lemma_early_phases_idle(signals, setup);
    lemma_scratch_removed(run, setup);
    assert forall|i: int| 0 <= i < all.len() implies !is_work(#[trigger] all[i]) by {
    }
}

/// A run whose stream is over, ended or broken, still writes its final
/// artifact: the exporter's input is closed, and when the exporter is
/// done, the artifact is written before the scratch directory is removed.
pub proof fn lemma_stream_end_is_orderly(signal: Signal, setup: Setup)
    requires
        signal == Signal::StreamEnded || signal == Signal::StreamFailed || signal
            == Signal::StreamRejected,
    ensures
        ({
            let (draining, closing) = transition(Phase::Streaming, signal, setup);
            let (exporting, writing) = transition(draining, Signal::ExporterDone, setup);
            let (finished, cleaning) = transition(exporting, Signal::FinalWritten, setup);
            &&& draining == Phase::Draining
            &&& closing.last() == Step::CloseExporter
            &&& exporting == Phase::Exporting
            &&& writing == seq![Step::WriteFinal]
            &&& finished == Phase::Finished(Outcome::Completed)
            &&& cleaning == seq![Step::RemoveScratch, Step::EmitComplete]
        }),
{
}

} // verus!
