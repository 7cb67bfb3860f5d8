use spindle_speed_updater::batch::{
    start_update_process, BatchAction, BatchEvent, BatchExecutor, BatchOutcome,
};
use spindle_speed_updater::cancel::CancellationSignal;
use spindle_speed_updater::error::SpindleSpeedUpdaterError;
use spindle_speed_updater::inventory::{index_entries, Inventory, ScannedEntry, Timestamp};
use spindle_speed_updater::progress::ProgressState;
use spindle_speed_updater::speed::validate_spindle_speed;
use std::collections::HashMap;
use std::io;

/// A disk in memory.
struct Disk {
    texts: HashMap<String, String>,
    times: HashMap<String, Timestamp>,
    unreadable: Vec<String>,
    unwritable: Vec<String>,
}

/// What a batch did.
struct Run {
    outcome: BatchOutcome,
    published: Vec<(usize, usize)>,
    written: Vec<String>,
    stale: Vec<String>,
    touched: Vec<String>,
}

fn time(seconds: i64) -> Timestamp {
    Timestamp { seconds, nanoseconds: 0 }
}

fn disk_of(files: &[(&str, &str)]) -> Disk {
    let mut disk = Disk {
        texts: HashMap::new(),
        times: HashMap::new(),
        unreadable: Vec::new(),
        unwritable: Vec::new(),
    };
    for (path, text) in files {
        disk.texts.insert(path.to_string(), text.to_string());
        disk.times.insert(path.to_string(), time(100));
    }
    disk
}

fn inventory_of(paths: &[&str]) -> Inventory {
    let entries = paths
        .iter()
        .map(|path| {
            Ok(ScannedEntry {
                path: path.to_string(),
                file_name: path.rsplit('/').next().unwrap().to_string(),
                is_file: true,
                last_modified: time(100),
            })
        })
        .collect();
    index_entries(entries).unwrap()
}

/// Performs the actions of `executor` on `disk` until the batch is over. A
/// stop is requested once `stop_after` files are published as done.
fn drive(mut executor: BatchExecutor, disk: &mut Disk, stop_after: Option<usize>) -> Run {
    let mut signal = CancellationSignal::new();
    let mut progress = ProgressState::new(executor.total());
    let mut published = Vec::new();
    let mut written = Vec::new();
    let mut stale = Vec::new();
    let mut touched = Vec::new();
    let mut action = executor.step(BatchEvent::Started);
    for _ in 0..10_000 {
        let event = match action {
            BatchAction::Publish { processed, total } => {
                assert!(progress.publish(processed, total));
                published.push(progress.snapshot());
                if stop_after == Some(processed) {
                    signal.fire();
                }
                BatchEvent::Published
            }
            BatchAction::CheckCancel => BatchEvent::CancelChecked(signal.observe()),
            BatchAction::Stat { path } => {
                touched.push(path.clone());
                match disk.times.get(&path) {
                    Some(modified) => BatchEvent::StatFinished(Ok(*modified)),
                    None => BatchEvent::StatFinished(Err(io::Error::new(
                        io::ErrorKind::NotFound,
                        "no such file",
                    ))),
                }
            }
            BatchAction::Read { path, stale: is_stale } => {
                if is_stale {
                    stale.push(path.clone());
                }
                if disk.unreadable.contains(&path) {
                    BatchEvent::ReadFinished(Err(io::Error::new(
                        io::ErrorKind::PermissionDenied,
                        "unreadable",
                    )))
                } else {
                    BatchEvent::ReadFinished(Ok(disk.texts[&path].clone()))
                }
            }
            BatchAction::Write { path, content } => {
                if disk.unwritable.contains(&path) {
                    BatchEvent::WriteFinished(Err(io::Error::new(
                        io::ErrorKind::PermissionDenied,
                        "read-only",
                    )))
                } else {
                    disk.texts.insert(path.clone(), content);
                    written.push(path);
                    BatchEvent::WriteFinished(Ok(()))
                }
            }
            BatchAction::Finish => {
                assert!(executor.is_done());
                let outcome = executor.into_outcome().expect("the batch is over");
                return Run { outcome, published, written, stale, touched };
            }
            BatchAction::Rejected => panic!("the executor rejected an event it had asked for"),
        };
        action = executor.step(event);
    }
    panic!("the batch did not end");
}

fn start(paths: &[&str], speed: u32) -> BatchExecutor {
    start_update_process(Some(speed), &inventory_of(paths)).unwrap()
}

#[test]
fn batch_updates_first_file_then_fails_on_file_without_command() {
    let mut disk = disk_of(&[("/jobs/a.tap", "S1000 M3\nG1 X10"), ("/jobs/b.tap", "G1 X10")]);
    let entries = vec![
        Ok(ScannedEntry {
            path: "/jobs/a.tap".to_string(),
            file_name: "a.tap".to_string(),
            is_file: true,
            last_modified: time(100),
        }),
        Ok(ScannedEntry {
            path: "/jobs/b.tap".to_string(),
            file_name: "b.tap".to_string(),
            is_file: true,
            last_modified: time(100),
        }),
    ];
    let inventory = index_entries(entries).unwrap();
    assert_eq!(inventory.len(), 2);
    let speed = validate_spindle_speed("2000").unwrap();
    let executor = start_update_process(Some(speed), &inventory).unwrap();
    let run = drive(executor, &mut disk, None);
    assert!(matches!(
        run.outcome,
        BatchOutcome::Failed(1, SpindleSpeedUpdaterError::NoSpindleCommand)
    ));
    assert_eq!(run.published, vec![(0, 2), (1, 2)]);
    assert_eq!(run.written, vec!["/jobs/a.tap"]);
    assert_eq!(disk.texts["/jobs/a.tap"], "S2000 M3\nG1 X10");
    assert_eq!(disk.texts["/jobs/b.tap"], "G1 X10");
}

#[test]
fn out_of_range_speed_is_rejected_before_anything_starts() {
    assert_eq!(
        validate_spindle_speed("30000"),
        Err("Spindle speed must be between 1 and 24000 RPM".to_string())
    );
    let inventory = inventory_of(&["/jobs/a.tap"]);
    match start_update_process(Some(30000), &inventory) {
        Err(SpindleSpeedUpdaterError::InvalidSpindleSpeed(detail)) => {
            assert_eq!(detail, "Spindle speed must be between 1 and 24000 RPM")
        }
        other => panic!("unexpected {:?}", other),
    }
    assert!(matches!(
        start_update_process(Some(0), &inventory),
        Err(SpindleSpeedUpdaterError::InvalidSpindleSpeed(_))
    ));
}

#[test]
fn no_batch_without_a_validated_speed() {
    match start_update_process(None, &inventory_of(&["/jobs/a.tap"])) {
        Err(SpindleSpeedUpdaterError::InvalidSpindleSpeed(detail)) => {
            assert_eq!(detail, "No validated spindle speed")
        }
        other => panic!("unexpected {:?}", other),
    }
}

#[test]
fn rerun_with_the_same_speed_writes_nothing() {
    let paths = ["/jobs/a.tap", "/jobs/b.tap", "/jobs/c.tap"];
    let mut disk = disk_of(&[
        ("/jobs/a.tap", "S1000 M3\nG1 X10"),
        ("/jobs/b.tap", "G0\r\n  S5 M3\r\nG1\r\n"),
        ("/jobs/c.tap", "S2000 M3"),
    ]);
    let first = drive(start(&paths, 2000), &mut disk, None);
    assert!(matches!(first.outcome, BatchOutcome::Completed(3)));
    assert_eq!(first.written, vec!["/jobs/a.tap", "/jobs/b.tap"]);
    assert_eq!(disk.texts["/jobs/a.tap"], "S2000 M3\nG1 X10");
    assert_eq!(disk.texts["/jobs/b.tap"], "G0\nS2000 M3\nG1");
    assert_eq!(disk.texts["/jobs/c.tap"], "S2000 M3");
    let second = drive(start(&paths, 2000), &mut disk, None);
    assert!(matches!(second.outcome, BatchOutcome::Completed(3)));
    assert!(second.written.is_empty());
    assert_eq!(second.published, vec![(0, 3), (1, 3), (2, 3), (3, 3)]);
    assert_eq!(disk.texts["/jobs/a.tap"], "S2000 M3\nG1 X10");
    assert_eq!(disk.texts["/jobs/b.tap"], "G0\nS2000 M3\nG1");
}

#[test]
fn file_with_the_target_speed_is_left_as_it_is() {
    let mut disk = disk_of(&[("/jobs/a.tap", "S2000 M3\r\nG1 X10\r\n")]);
    let run = drive(start(&["/jobs/a.tap"], 2000), &mut disk, None);
    assert!(matches!(run.outcome, BatchOutcome::Completed(1)));
    assert!(run.written.is_empty());
    assert_eq!(disk.texts["/jobs/a.tap"], "S2000 M3\r\nG1 X10\r\n");
}

#[test]
fn cancellation_after_k_files_leaves_the_rest_untouched() {
    let paths = ["/jobs/a.tap", "/jobs/b.tap", "/jobs/c.tap", "/jobs/d.tap"];
    for k in 0..paths.len() {
        let mut disk = disk_of(&[
            ("/jobs/a.tap", "S1 M3"),
            ("/jobs/b.tap", "S2 M3"),
            ("/jobs/c.tap", "S3 M3"),
            ("/jobs/d.tap", "S4 M3"),
        ]);
        let run = drive(start(&paths, 9000), &mut disk, Some(k));
        match run.outcome {
            BatchOutcome::Cancelled(count) => assert_eq!(count, k),
            other => panic!("unexpected {:?}", other),
        }
        assert_eq!(run.written, paths[..k].to_vec());
        assert_eq!(run.touched, paths[..k].to_vec());
        for (index, path) in paths.iter().enumerate() {
            let expected = if index < k { "S9000 M3".to_string() } else { format!("S{} M3", index + 1) };
            assert_eq!(disk.texts[*path], expected);
        }
        assert_eq!(run.published.last(), Some(&(k, 4)));
    }
}

#[test]
fn a_stop_requested_after_the_last_file_comes_too_late() {
    let paths = ["/jobs/a.tap", "/jobs/b.tap"];
    let mut disk = disk_of(&[("/jobs/a.tap", "S1 M3"), ("/jobs/b.tap", "S2 M3")]);
    let run = drive(start(&paths, 9000), &mut disk, Some(2));
    assert!(matches!(run.outcome, BatchOutcome::Completed(2)));
    assert_eq!(run.written, paths.to_vec());
}

#[test]
fn a_stop_request_wins_over_a_failing_file() {
    let paths = ["/jobs/a.tap", "/jobs/b.tap"];
    let mut disk = disk_of(&[("/jobs/a.tap", "S1 M3"), ("/jobs/b.tap", "G1")]);
    let run = drive(start(&paths, 9000), &mut disk, Some(1));
    assert!(matches!(run.outcome, BatchOutcome::Cancelled(1)));
    assert_eq!(run.touched, vec!["/jobs/a.tap"]);
}

#[test]
fn progress_never_decreases_and_stays_within_the_total() {
    let paths = ["/jobs/a.tap", "/jobs/b.tap", "/jobs/c.tap"];
    let mut disk = disk_of(&[
        ("/jobs/a.tap", "S1 M3"),
        ("/jobs/b.tap", "S100 M3"),
        ("/jobs/c.tap", "S3 M3"),
    ]);
    let run = drive(start(&paths, 100), &mut disk, None);
    assert_eq!(run.published, vec![(0, 3), (1, 3), (2, 3), (3, 3)]);
    for pair in run.published.windows(2) {
        assert!(pair[0].0 <= pair[1].0);
    }
    for (processed, total) in &run.published {
        assert!(processed <= total);
    }
}

#[test]
fn empty_inventory_completes_at_once() {
    let mut disk = disk_of(&[]);
    let run = drive(start(&[], 100), &mut disk, None);
    assert!(matches!(run.outcome, BatchOutcome::Completed(0)));
    assert_eq!(run.published, vec![(0, 0)]);
    assert!(run.touched.is_empty());
}

#[test]
fn stale_record_is_noticed_and_processed_all_the_same() {
    let mut disk = disk_of(&[("/jobs/a.tap", "S1 M3"), ("/jobs/b.tap", "S2 M3")]);
    disk.times.insert("/jobs/b.tap".to_string(), time(101));
    let run = drive(start(&["/jobs/a.tap", "/jobs/b.tap"], 7), &mut disk, None);
    assert!(matches!(run.outcome, BatchOutcome::Completed(2)));
    assert_eq!(run.stale, vec!["/jobs/b.tap"]);
    assert_eq!(disk.texts["/jobs/b.tap"], "S7 M3");
}

#[test]
fn failure_to_inspect_a_file_ends_the_batch() {
    let mut disk = disk_of(&[("/jobs/a.tap", "S1 M3"), ("/jobs/c.tap", "S3 M3")]);
    let run = drive(start(&["/jobs/a.tap", "/jobs/b.tap", "/jobs/c.tap"], 7), &mut disk, None);
    match run.outcome {
        BatchOutcome::Failed(1, SpindleSpeedUpdaterError::Io(error)) => {
            assert_eq!(error.kind(), io::ErrorKind::NotFound)
        }
        other => panic!("unexpected {:?}", other),
    }
    assert_eq!(disk.texts["/jobs/a.tap"], "S7 M3");
    assert_eq!(disk.texts["/jobs/c.tap"], "S3 M3");
    assert_eq!(run.touched, vec!["/jobs/a.tap", "/jobs/b.tap"]);
}

#[test]
fn failure_to_read_a_file_ends_the_batch() {
    let mut disk = disk_of(&[("/jobs/a.tap", "S1 M3"), ("/jobs/b.tap", "S2 M3")]);
    disk.unreadable.push("/jobs/a.tap".to_string());
    let run = drive(start(&["/jobs/a.tap", "/jobs/b.tap"], 7), &mut disk, None);
    match run.outcome {
        BatchOutcome::Failed(0, SpindleSpeedUpdaterError::Io(error)) => {
            assert_eq!(error.to_string(), "unreadable")
        }
        other => panic!("unexpected {:?}", other),
    }
    assert!(run.written.is_empty());
    assert_eq!(run.published, vec![(0, 2)]);
}

#[test]
fn failure_to_write_a_file_ends_the_batch_without_rollback() {
    let mut disk = disk_of(&[("/jobs/a.tap", "S1 M3"), ("/jobs/b.tap", "S2 M3")]);
    disk.unwritable.push("/jobs/b.tap".to_string());
    let run = drive(start(&["/jobs/a.tap", "/jobs/b.tap"], 7), &mut disk, None);
    match run.outcome {
        BatchOutcome::Failed(1, SpindleSpeedUpdaterError::Io(error)) => {
            assert_eq!(error.to_string(), "read-only")
        }
        other => panic!("unexpected {:?}", other),
    }
    assert_eq!(disk.texts["/jobs/a.tap"], "S7 M3");
    assert_eq!(disk.texts["/jobs/b.tap"], "S2 M3");
}

#[test]
fn the_batch_works_on_its_own_copy_of_the_inventory() {
    let mut inventory = inventory_of(&["/jobs/a.tap"]);
    let executor = start_update_process(Some(7), &inventory).unwrap();
    inventory.insert(spindle_speed_updater::inventory::FileRecord {
        path: "/jobs/b.tap".to_string(),
        last_modified: time(100),
    });
    assert_eq!(executor.total(), 1);
    let mut disk = disk_of(&[("/jobs/a.tap", "S1 M3"), ("/jobs/b.tap", "S2 M3")]);
    let run = drive(executor, &mut disk, None);
    assert!(matches!(run.outcome, BatchOutcome::Completed(1)));
    assert_eq!(disk.texts["/jobs/b.tap"], "S2 M3");
}

#[test]
fn executor_reports_its_state() {
    let mut executor = BatchExecutor::new(inventory_of(&["/jobs/a.tap", "/jobs/b.tap"]), 1234);
    assert_eq!(executor.total(), 2);
    assert_eq!(executor.processed(), 0);
    assert_eq!(executor.speed(), 1234);
    assert!(!executor.is_done());
    assert!(executor.outcome().is_none());
    assert!(matches!(
        executor.step(BatchEvent::Started),
        BatchAction::Publish { processed: 0, total: 2 }
    ));
    assert!(matches!(executor.step(BatchEvent::Published), BatchAction::CheckCancel));
    match executor.step(BatchEvent::CancelChecked(false)) {
        BatchAction::Stat { path } => assert_eq!(path, "/jobs/a.tap"),
        other => panic!("unexpected {:?}", other),
    }
    match executor.step(BatchEvent::StatFinished(Ok(time(100)))) {
        BatchAction::Read { path, stale } => {
            assert_eq!(path, "/jobs/a.tap");
            assert!(!stale);
        }
        other => panic!("unexpected {:?}", other),
    }
    match executor.step(BatchEvent::ReadFinished(Ok("G0\nS1 M3".to_string()))) {
        BatchAction::Write { path, content } => {
            assert_eq!(path, "/jobs/a.tap");
            assert_eq!(content, "G0\nS1234 M3");
        }
        other => panic!("unexpected {:?}", other),
    }
    assert_eq!(executor.processed(), 0);
    assert!(matches!(
        executor.step(BatchEvent::WriteFinished(Ok(()))),
        BatchAction::Publish { processed: 1, total: 2 }
    ));
    assert_eq!(executor.processed(), 1);
    assert!(matches!(executor.step(BatchEvent::Published), BatchAction::CheckCancel));
    assert!(matches!(executor.step(BatchEvent::CancelChecked(true)), BatchAction::Finish));
    assert!(executor.is_done());
    assert!(matches!(executor.outcome(), Some(BatchOutcome::Cancelled(1))));
    assert!(matches!(executor.into_outcome(), Some(BatchOutcome::Cancelled(1))));
}

#[test]
fn unchanged_file_is_published_without_a_write() {
    let mut executor = BatchExecutor::new(inventory_of(&["/jobs/a.tap"]), 500);
    executor.step(BatchEvent::Started);
    executor.step(BatchEvent::Published);
    executor.step(BatchEvent::CancelChecked(false));
    executor.step(BatchEvent::StatFinished(Ok(time(100))));
    assert!(matches!(
        executor.step(BatchEvent::ReadFinished(Ok("S500 M3\nG1".to_string()))),
        BatchAction::Publish { processed: 1, total: 1 }
    ));
    assert!(matches!(executor.step(BatchEvent::Published), BatchAction::Finish));
    assert!(matches!(executor.into_outcome(), Some(BatchOutcome::Completed(1))));
}

#[test]
fn events_out_of_turn_are_rejected_and_change_nothing() {
    let mut executor = BatchExecutor::new(inventory_of(&["/jobs/a.tap"]), 500);
    assert!(matches!(executor.step(BatchEvent::Published), BatchAction::Rejected));
    assert!(matches!(executor.step(BatchEvent::CancelChecked(true)), BatchAction::Rejected));
    assert!(matches!(
        executor.step(BatchEvent::ReadFinished(Ok("S1".to_string()))),
        BatchAction::Rejected
    ));
    assert!(!executor.is_done());
    assert_eq!(executor.processed(), 0);
    assert!(matches!(
        executor.step(BatchEvent::Started),
        BatchAction::Publish { processed: 0, total: 1 }
    ));
    assert!(matches!(executor.step(BatchEvent::Started), BatchAction::Rejected));
    assert!(matches!(executor.step(BatchEvent::WriteFinished(Ok(()))), BatchAction::Rejected));
    assert!(matches!(executor.step(BatchEvent::Published), BatchAction::CheckCancel));
    assert!(matches!(
        executor.step(BatchEvent::StatFinished(Ok(time(100)))),
        BatchAction::Rejected
    ));
    assert!(matches!(executor.step(BatchEvent::CancelChecked(false)), BatchAction::Stat { .. }));
}

#[test]
fn a_finished_batch_stays_finished() {
    let mut executor = BatchExecutor::new(inventory_of(&["/jobs/a.tap"]), 500);
    executor.step(BatchEvent::Started);
    executor.step(BatchEvent::Published);
    assert!(matches!(executor.step(BatchEvent::CancelChecked(true)), BatchAction::Finish));
    assert!(matches!(executor.step(BatchEvent::Started), BatchAction::Finish));
    assert!(matches!(executor.step(BatchEvent::CancelChecked(false)), BatchAction::Finish));
    assert!(matches!(executor.step(BatchEvent::Published), BatchAction::Finish));
    assert!(matches!(executor.outcome(), Some(BatchOutcome::Cancelled(0))));
    assert_eq!(executor.processed(), 0);
}
