use image_compressor::batch::{BatchError, BatchOrchestrator, Phase, ProgressState};
use image_compressor::compressor::{CompressError, FailureKind};

fn files(names: &[&str]) -> Vec<String> {
    names.iter().map(|s| s.to_string()).collect()
}

fn draining(names: &[&str]) -> BatchOrchestrator {
    let mut batch = BatchOrchestrator::new();
    assert_eq!(batch.start("in", true), Ok(()));
    let tasks = batch.scanned("in", "out", &files(names));
    assert_eq!(tasks.len(), names.len());
    assert!(batch.dispatched());
    batch
}

#[test]
fn batch_goes_through_its_phases() {
    let mut batch = BatchOrchestrator::new();
    assert_eq!(batch.phase(), Phase::Idle);
    assert_eq!(batch.start("in", true), Ok(()));
    assert_eq!(batch.phase(), Phase::Scanning);
    let tasks = batch.scanned("in", "out", &files(&["in/photo.jpg", "in/icon.png", "in/readme.md"]));
    assert_eq!(tasks.len(), 2);
    assert_eq!(batch.phase(), Phase::Dispatching);
    assert_eq!(batch.progress(), ProgressState { completed: 0, total: 2 });
    assert!(batch.dispatched());
    assert_eq!(batch.phase(), Phase::Draining);
    assert!(batch.task_completed(Ok(())));
    assert_eq!(batch.phase(), Phase::Draining);
    assert_eq!(batch.progress(), ProgressState { completed: 1, total: 2 });
    assert!(!batch.is_done());
    assert!(batch.task_completed(Ok(())));
    assert_eq!(batch.phase(), Phase::Done);
    assert!(batch.is_done());
    assert_eq!(batch.progress(), ProgressState { completed: 2, total: 2 });
    assert_eq!(batch.result().processed(), 2);
    assert_eq!(batch.result().failed(), 0);
    assert!(batch.result().failures().is_empty());
}

#[test]
fn missing_input_directory_stops_the_batch_before_it_begins() {
    let mut batch = BatchOrchestrator::new();
    assert_eq!(
        batch.start("nowhere", false),
        Err(BatchError::DirectoryNotFound { path: "nowhere".to_string() })
    );
    assert_eq!(batch.phase(), Phase::Idle);
    assert!(batch.scanned("nowhere", "out", &files(&["nowhere/a.jpg"])).is_empty());
    assert_eq!(batch.phase(), Phase::Idle);
}

#[test]
fn batch_begins_once() {
    let mut batch = BatchOrchestrator::new();
    assert_eq!(batch.start("in", true), Ok(()));
    assert_eq!(batch.start("in", true), Err(BatchError::AlreadyStarted));
    assert_eq!(batch.start("in", false), Err(BatchError::AlreadyStarted));
    assert_eq!(batch.phase(), Phase::Scanning);
}

#[test]
fn batch_without_tasks_is_done_at_once() {
    let mut batch = BatchOrchestrator::new();
    batch.start("in", true).unwrap();
    assert!(batch.scanned("in", "out", &files(&["in/readme.md"])).is_empty());
    assert_eq!(batch.phase(), Phase::Dispatching);
    assert!(batch.dispatched());
    assert_eq!(batch.phase(), Phase::Done);
    assert_eq!(batch.progress(), ProgressState { completed: 0, total: 0 });
    assert!(!batch.task_completed(Ok(())));
    assert_eq!(batch.result().processed(), 0);
}

#[test]
fn events_out_of_turn_change_nothing() {
    let mut batch = BatchOrchestrator::new();
    assert!(!batch.dispatched());
    assert!(!batch.task_completed(Ok(())));
    assert!(batch.scanned("in", "out", &files(&["in/a.jpg"])).is_empty());
    assert_eq!(batch.phase(), Phase::Idle);
    batch.start("in", true).unwrap();
    assert!(!batch.dispatched());
    assert!(!batch.task_completed(Ok(())));
    assert_eq!(batch.phase(), Phase::Scanning);
    assert_eq!(batch.scanned("in", "out", &files(&["in/a.jpg"])).len(), 1);
    assert!(!batch.task_completed(Ok(())));
    assert!(batch.scanned("in", "out", &files(&["in/a.jpg", "in/b.jpg"])).is_empty());
    assert_eq!(batch.progress(), ProgressState { completed: 0, total: 1 });
    assert!(batch.dispatched());
    assert!(!batch.dispatched());
    assert!(batch.task_completed(Ok(())));
    assert!(!batch.task_completed(Ok(())));
    assert_eq!(batch.result().processed(), 1);
    assert_eq!(batch.phase(), Phase::Done);
}

#[test]
fn one_corrupt_file_does_not_stop_the_others() {
    let names = ["in/a.jpg", "in/b.jpg", "in/corrupt.jpg", "in/c.png", "in/d.gif"];
    for bad in 0..names.len() {
        let mut batch = draining(&names);
        for turn in 0..names.len() {
            assert_eq!(batch.phase(), Phase::Draining);
            let outcome = if turn == bad {
                Err(CompressError::new("in/corrupt.jpg", FailureKind::Decode, "not a JPEG"))
            } else {
                Ok(())
            };
            assert!(batch.task_completed(outcome));
        }
        assert_eq!(batch.phase(), Phase::Done);
        assert_eq!(batch.result().processed(), 4);
        assert_eq!(batch.result().failed(), 1);
        assert_eq!(
            batch.result().failures(),
            &vec![CompressError::new("in/corrupt.jpg", FailureKind::Decode, "not a JPEG")]
        );
    }
}

#[test]
fn failures_are_logged_in_the_order_they_come_back() {
    let mut batch = draining(&["in/a.jpg", "in/b.png", "in/c.gif"]);
    assert!(batch.task_completed(Err(CompressError::new("in/b.png", FailureKind::Optimize, "bad chunk"))));
    assert!(batch.task_completed(Ok(())));
    assert!(batch.task_completed(Err(CompressError::new("in/a.jpg", FailureKind::Io, "gone"))));
    assert!(batch.is_done());
    assert_eq!(batch.result().processed(), 1);
    assert_eq!(batch.result().failed(), 2);
    let log = batch.result().failures();
    assert_eq!(log[0].path, "in/b.png");
    assert_eq!(log[0].kind, FailureKind::Optimize);
    assert_eq!(log[1].path, "in/a.jpg");
    assert_eq!(log[1].kind, FailureKind::Io);
}

#[test]
fn progress_only_grows() {
    let mut batch = draining(&["in/a.jpg", "in/b.jpg", "in/c.jpg", "in/d.jpg"]);
    let mut last = batch.progress().completed;
    for turn in 0..4 {
        let outcome = if turn % 2 == 0 {
            Ok(())
        } else {
            Err(CompressError::new("in/x.jpg", FailureKind::Encode, "no space"))
        };
        batch.task_completed(outcome);
        let now = batch.progress();
        assert_eq!(now.completed, last + 1);
        assert_eq!(now.total, 4);
        last = now.completed;
    }
    assert!(batch.is_done());
}

#[test]
fn every_failing_file_still_ends_the_batch() {
    let mut batch = draining(&["in/a.jpg", "in/b.jpg"]);
    batch.task_completed(Err(CompressError::new("in/a.jpg", FailureKind::OutputDirCreate, "denied")));
    batch.task_completed(Err(CompressError::new("in/b.jpg", FailureKind::OutputDirCreate, "denied")));
    assert!(batch.is_done());
    assert_eq!(batch.result().processed(), 0);
    assert_eq!(batch.result().failed(), 2);
}
