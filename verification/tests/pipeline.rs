use megascops::pipeline::{advance, process, Outcome, Phase, Setup, Signal, Step};

const PLAIN: Setup = Setup { valid: true, resumes: false, stages: false };
const RESUMED: Setup = Setup { valid: true, resumes: true, stages: false };
const STAGED: Setup = Setup { valid: true, resumes: false, stages: true };
const RESUMED_STAGED: Setup = Setup { valid: true, resumes: true, stages: true };
const INVALID: Setup = Setup { valid: false, resumes: false, stages: true };

fn run(signals: &[Signal], setup: Setup) -> (Phase, Vec<Step>) {
    process(&signals.to_vec(), setup)
}

#[test]
fn a_run_is_its_moves_one_after_another() {
    let signals = [Signal::Connected, Signal::AuthAccepted, Signal::Indexed, Signal::StreamFailed];
    let mut phase = Phase::Connecting;
    let mut steps = Vec::new();
    for signal in signals {
        let (next, more) = advance(phase, signal, PLAIN);
        phase = next;
        steps.extend(more);
    }
    assert_eq!(process(&signals.to_vec(), PLAIN), (phase, steps));
    assert_eq!(process(&Vec::new(), PLAIN), (Phase::Connecting, vec![]));
}

#[test]
fn a_run_without_trouble_takes_these_steps() {
    let (phase, steps) = run(
        &[
            Signal::Connected,
            Signal::AuthAccepted,
            Signal::Indexed,
            Signal::StreamEnded,
            Signal::ExporterDone,
            Signal::FinalWritten,
        ],
        PLAIN,
    );
    assert_eq!(phase, Phase::Finished(Outcome::Completed));
    assert_eq!(
        steps,
        vec![
            Step::Authenticate,
            Step::RemoveScratch,
            Step::IndexFolder,
            Step::StartWorkers,
            Step::OpenStream,
            Step::CloseExporter,
            Step::WriteFinal,
            Step::RemoveScratch,
            Step::EmitComplete,
        ]
    );
}

#[test]
fn a_resumed_run_loads_its_checkpoint_before_it_starts() {
    let (phase, steps) = run(&[Signal::Connected, Signal::AuthAccepted, Signal::Indexed], RESUMED);
    assert_eq!(phase, Phase::Resuming);
    assert_eq!(steps, vec![Step::Authenticate, Step::RemoveScratch, Step::IndexFolder, Step::LoadCheckpoint]);
    assert_eq!(
        advance(Phase::Resuming, Signal::CheckpointLoaded, RESUMED),
        (Phase::Streaming, vec![Step::StartWorkers, Step::OpenStream])
    );
}

#[test]
fn a_staged_run_makes_its_scratch_directory_before_it_starts() {
    let (phase, steps) = run(&[Signal::Connected, Signal::AuthAccepted, Signal::Indexed], STAGED);
    assert_eq!(phase, Phase::Staging);
    assert_eq!(steps, vec![Step::Authenticate, Step::RemoveScratch, Step::IndexFolder, Step::CreateScratch]);
    assert_eq!(
        advance(Phase::Staging, Signal::ScratchCreated, STAGED),
        (Phase::Streaming, vec![Step::StartWorkers, Step::OpenStream])
    );
    assert_eq!(
        advance(Phase::Resuming, Signal::CheckpointLoaded, RESUMED_STAGED),
        (Phase::Staging, vec![Step::CreateScratch])
    );
}

#[test]
fn a_scratch_directory_that_cannot_be_made_ends_the_run_with_an_error() {
    assert_eq!(
        advance(Phase::Staging, Signal::ScratchFailed, STAGED),
        (Phase::Finished(Outcome::Failed), vec![Step::RemoveScratch, Step::EmitError])
    );
}

#[test]
fn a_refused_token_ends_the_run_with_an_error() {
    let (phase, steps) = run(&[Signal::Connected, Signal::AuthRejected], PLAIN);
    assert_eq!(phase, Phase::Finished(Outcome::Failed));
    assert_eq!(steps, vec![Step::Authenticate, Step::RemoveScratch, Step::EmitError]);
    assert!(!steps.contains(&Step::StartWorkers));
    assert!(!steps.contains(&Step::WriteFinal));
}

#[test]
fn a_failed_connection_ends_the_run_with_an_error() {
    assert_eq!(
        advance(Phase::Connecting, Signal::ConnectFailed, PLAIN),
        (Phase::Finished(Outcome::Failed), vec![Step::RemoveScratch, Step::EmitError])
    );
}

#[test]
fn an_interval_of_zero_ends_the_run_cleanly() {
    let (phase, steps) = run(&[Signal::Connected, Signal::AuthAccepted], INVALID);
    assert_eq!(phase, Phase::Finished(Outcome::Completed));
    assert_eq!(steps, vec![Step::Authenticate, Step::RemoveScratch, Step::LogError, Step::EmitComplete]);
}

#[test]
fn a_folder_that_cannot_be_read_ends_the_run_with_an_error() {
    assert_eq!(
        advance(Phase::Indexing, Signal::IndexFailed, PLAIN),
        (Phase::Finished(Outcome::Failed), vec![Step::RemoveScratch, Step::EmitError])
    );
}

#[test]
fn a_checkpoint_that_cannot_be_read_ends_the_run_with_an_error() {
    assert_eq!(
        advance(Phase::Resuming, Signal::CheckpointFailed, RESUMED),
        (Phase::Finished(Outcome::Failed), vec![Step::RemoveScratch, Step::EmitError])
    );
}

#[test]
fn a_broken_stream_still_writes_the_artifact() {
    for signal in [Signal::StreamFailed, Signal::StreamRejected] {
        let (phase, steps) = run(
            &[Signal::Connected, Signal::AuthAccepted, Signal::Indexed, signal, Signal::ExporterDone, Signal::FinalWritten],
            PLAIN,
        );
        assert_eq!(phase, Phase::Finished(Outcome::Completed));
        assert_eq!(
            steps[5..],
            [Step::LogError, Step::CloseExporter, Step::WriteFinal, Step::RemoveScratch, Step::EmitComplete]
        );
    }
}

#[test]
fn an_artifact_that_cannot_be_written_ends_the_run_with_an_error() {
    assert_eq!(
        advance(Phase::Exporting, Signal::FinalFailed, PLAIN),
        (Phase::Finished(Outcome::Failed), vec![Step::RemoveScratch, Step::EmitError])
    );
}

#[test]
fn the_artifact_is_written_only_when_the_exporter_is_done() {
    assert_eq!(advance(Phase::Streaming, Signal::StreamEnded, PLAIN), (Phase::Draining, vec![Step::CloseExporter]));
    assert_eq!(advance(Phase::Draining, Signal::StreamEnded, PLAIN), (Phase::Draining, vec![]));
    assert_eq!(advance(Phase::Draining, Signal::ExporterDone, PLAIN), (Phase::Exporting, vec![Step::WriteFinal]));
}

#[test]
fn a_signal_out_of_place_changes_nothing() {
    assert_eq!(advance(Phase::Connecting, Signal::AuthAccepted, PLAIN), (Phase::Connecting, vec![]));
    assert_eq!(advance(Phase::Streaming, Signal::Connected, PLAIN), (Phase::Streaming, vec![]));
    assert_eq!(advance(Phase::Indexing, Signal::CheckpointLoaded, PLAIN), (Phase::Indexing, vec![]));
    assert_eq!(advance(Phase::Exporting, Signal::ExporterDone, PLAIN), (Phase::Exporting, vec![]));
}

#[test]
fn a_finished_run_does_nothing_more() {
    let all = [
        Signal::Connected, Signal::ConnectFailed, Signal::AuthAccepted, Signal::AuthRejected,
        Signal::Indexed, Signal::IndexFailed, Signal::CheckpointLoaded, Signal::CheckpointFailed,
        Signal::ScratchCreated, Signal::ScratchFailed, Signal::StreamRejected, Signal::StreamEnded, Signal::StreamFailed, Signal::ExporterDone,
        Signal::FinalWritten, Signal::FinalFailed,
    ];
    for outcome in [Outcome::Completed, Outcome::Failed] {
        for signal in all {
            assert_eq!(advance(Phase::Finished(outcome), signal, PLAIN), (Phase::Finished(outcome), vec![]));
        }
    }
}

#[test]
fn every_end_removes_the_scratch_directory_before_it_reports() {
    let all = [
        Signal::Connected, Signal::ConnectFailed, Signal::AuthAccepted, Signal::AuthRejected,
        Signal::Indexed, Signal::IndexFailed, Signal::CheckpointLoaded, Signal::CheckpointFailed,
        Signal::ScratchCreated, Signal::ScratchFailed, Signal::StreamRejected, Signal::StreamEnded, Signal::StreamFailed, Signal::ExporterDone,
        Signal::FinalWritten, Signal::FinalFailed,
    ];
    let phases = [
        Phase::Connecting, Phase::Authenticating, Phase::Indexing, Phase::Resuming, Phase::Staging,
        Phase::Streaming, Phase::Draining, Phase::Exporting,
    ];
    let mut ends = 0;
    for setup in [PLAIN, RESUMED, STAGED, INVALID] {
        for phase in phases {
            for signal in all {
                let (next, steps) = advance(phase, signal, setup);
                if let Phase::Finished(outcome) = next {
                    ends += 1;
                    assert_eq!(steps[0], Step::RemoveScratch);
                    let report = if outcome == Outcome::Completed { Step::EmitComplete } else { Step::EmitError };
                    assert_eq!(*steps.last().unwrap(), report);
                    assert!(steps[1..steps.len() - 1].iter().all(|s| *s == Step::LogError));
                }
            }
        }
    }
    // seven moves end a run under every setup, and one more under an interval of zero
    assert_eq!(ends, 4 * 7 + 1);
}
