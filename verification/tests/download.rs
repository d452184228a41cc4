use gelbooru::download::{
    add_download_task, cancelled_error, next_task_id, record_to_task, retry_step, DownloadAttempt, DownloadManager,
    DownloadRun, DownloadStatus, DownloadTask, RetryDecision, RunAction, RunEvent, RunPhase,
    TaskIds,
};

fn task(id: u32, status: DownloadStatus) -> DownloadTask {
    let mut t = DownloadTask::new(
        id,
        id * 10,
        format!("https://img/{}.jpg", id),
        format!("{}.jpg", id),
        format!("/dl/{}.jpg", id),
    );
    t.status = status;
    t
}

#[test]
fn status_names_round_trip() {
    let all = [
        DownloadStatus::Pending,
        DownloadStatus::Downloading,
        DownloadStatus::Completed,
        DownloadStatus::Failed,
        DownloadStatus::Paused,
        DownloadStatus::Cancelled,
    ];
    for s in all {
        assert_eq!(DownloadStatus::from_name(s.as_str()), s);
    }
    assert_eq!(DownloadStatus::Paused.as_str(), "paused");
    assert_eq!(DownloadStatus::from_name("weird"), DownloadStatus::Pending);
}

#[test]
fn table_add_get_replace_remove() {
    let mut m = DownloadManager::new();
    m.add_task(task(1, DownloadStatus::Pending));
    m.add_task(task(2, DownloadStatus::Pending));
    assert_eq!(m.get_task(1).unwrap().post_id, 10);
    let mut replaced = task(1, DownloadStatus::Paused);
    replaced.post_id = 99;
    m.add_task(replaced);
    assert_eq!(m.get_all_tasks().len(), 2);
    assert_eq!(m.get_task(1).unwrap().post_id, 99);
    m.remove_task(1);
    assert!(m.get_task(1).is_none());
    assert!(m.get_task(2).is_some());
    m.remove_task(7);
    assert_eq!(m.get_all_tasks().len(), 1);
}

#[test]
fn table_updates_only_the_named_task() {
    let mut m = DownloadManager::new();
    m.restore_tasks(vec![task(1, DownloadStatus::Pending), task(2, DownloadStatus::Pending)]);
    m.update_task_status(2, DownloadStatus::Downloading);
    m.update_task_progress(2, 50, 200);
    assert_eq!(m.get_task(2).unwrap().status, DownloadStatus::Downloading);
    assert_eq!(m.get_task(2).unwrap().downloaded_size, 50);
    assert_eq!(m.get_task(2).unwrap().total_size, 200);
    assert_eq!(m.get_task(1).unwrap().status, DownloadStatus::Pending);
    m.set_task_error(1, "boom".to_string());
    let t1 = m.get_task(1).unwrap();
    assert_eq!(t1.status, DownloadStatus::Failed);
    assert_eq!(t1.error.as_deref(), Some("boom"));
    m.update_task_status(9, DownloadStatus::Completed);
    assert_eq!(m.get_all_tasks().len(), 2);
}

#[test]
fn clear_completed_keeps_the_others() {
    let mut m = DownloadManager::new();
    m.add_task(task(1, DownloadStatus::Completed));
    m.add_task(task(2, DownloadStatus::Failed));
    m.add_task(task(3, DownloadStatus::Completed));
    m.add_task(task(4, DownloadStatus::Paused));
    m.clear_completed();
    let mut ids: Vec<u32> = m.get_all_tasks().iter().map(|t| t.id).collect();
    ids.sort();
    assert_eq!(ids, vec![2, 4]);
}

#[test]
fn start_and_pause_checks() {
    let mut m = DownloadManager::new();
    m.add_task(task(1, DownloadStatus::Pending));
    m.add_task(task(2, DownloadStatus::Completed));
    m.add_task(task(3, DownloadStatus::Downloading));
    assert_eq!(m.check_start(1).unwrap().id, 1);
    assert_eq!(m.check_start(2).unwrap_err(), "Task is not in pending or paused state");
    assert_eq!(m.check_start(5).unwrap_err(), "Task not found");
    assert!(m.check_pause(3).is_ok());
    assert_eq!(m.check_pause(1).unwrap_err(), "Task is not downloading");
    assert_eq!(m.check_pause(5).unwrap_err(), "Task not found");
}

#[test]
fn records_become_tasks_and_give_next_id() {
    let t = record_to_task(
        7,
        -1,
        "u".to_string(),
        "f".to_string(),
        "p".to_string(),
        "completed",
        10,
        20,
        None,
    );
    assert_eq!(t.id, 7);
    assert_eq!(t.post_id, u32::MAX);
    assert_eq!(t.status, DownloadStatus::Completed);
    assert_eq!(t.save_path, "p");
    assert_eq!(next_task_id(&vec![3, 9, 4]), 10);
    assert_eq!(next_task_id(&vec![]), 1);
    assert_eq!(next_task_id(&vec![-3]), ((-3i64) as u32) + 1);
    assert_eq!(next_task_id(&vec![-5, -3, -9]), ((-3i64) as u32) + 1);
}

#[test]
fn task_ids_count_up_and_restore_past_the_largest() {
    let mut ids = TaskIds::new();
    assert_eq!(ids.take(), 1);
    assert_eq!(ids.take(), 2);
    ids.restore(&vec![]);
    assert_eq!(ids.take(), 3);
    ids.restore(&vec![7, 41, 12]);
    assert_eq!(ids.take(), 42);
    assert_eq!(ids.take(), 43);
}

#[test]
fn a_taken_id_is_not_in_the_table() {
    let mut m = DownloadManager::new();
    let mut ids = TaskIds::new();
    m.restore_tasks(vec![task(4, DownloadStatus::Completed), task(9, DownloadStatus::Paused)]);
    ids.restore(&vec![4, 9]);
    let id = ids.take();
    assert!(m.get_task(id).is_none());
    m.add_task(task(id, DownloadStatus::Pending));
    assert_eq!(m.get_all_tasks().len(), 3);
    assert!(ids.take() > id);
}

#[test]
fn all_tasks_are_listed_once() {
    let mut m = DownloadManager::new();
    for id in [5, 1, 3, 1] {
        m.add_task(task(id, DownloadStatus::Pending));
    }
    let mut ids: Vec<u32> = m.get_all_tasks().iter().map(|t| t.id).collect();
    ids.sort();
    assert_eq!(ids, vec![1, 3, 5]);
}

fn is_remove_token(a: &RunAction) -> bool {
    matches!(a, RunAction::RemoveCancelToken)
}

#[test]
fn run_goes_from_start_to_completion() {
    let mut r = DownloadRun::new(1, 10);
    let a = r.step(&RunEvent::Started);
    assert_eq!(a.len(), 3);
    assert!(matches!(a[0], RunAction::SetStatus(DownloadStatus::Downloading)));
    r.step(&RunEvent::ResponseReceived(Some(204800)));
    r.step(&RunEvent::FileCreated);
    assert_eq!(r.phase, RunPhase::Streaming);
    let a = r.step(&RunEvent::ChunkWritten(1000));
    // no report inside the first 100 KiB
    assert_eq!(a.len(), 1);
    let a = r.step(&RunEvent::ChunkWritten(102000));
    // crossed 102400: reported and stored
    assert_eq!(a.len(), 3);
    let a = r.step(&RunEvent::ChunkWritten(101800));
    // reached the total
    assert_eq!(a.len(), 3);
    assert_eq!(r.downloaded, 204800);
    r.step(&RunEvent::StreamEnded);
    let a = r.step(&RunEvent::Renamed);
    assert_eq!(r.phase, RunPhase::Done);
    assert!(matches!(a[0], RunAction::SetStatus(DownloadStatus::Completed)));
    assert!(is_remove_token(a.last().unwrap()));
    // a finished run ignores further events
    assert!(r.step(&RunEvent::ChunkWritten(5)).is_empty());
}

#[test]
fn run_failures_report_messages() {
    let mut r = DownloadRun::new(2, 20);
    r.step(&RunEvent::Started);
    let a = r.step(&RunEvent::RequestFailed("timed out".to_string()));
    match &a[0] {
        RunAction::SetError(m) => assert_eq!(m, "Request failed: timed out"),
        other => panic!("unexpected {:?}", other),
    }
    assert!(is_remove_token(&a[3]));
    let mut w = DownloadRun::new(3, 30);
    w.step(&RunEvent::Started);
    w.step(&RunEvent::FileCreated);
    let a = w.step(&RunEvent::WriteFailed("disk full".to_string()));
    assert_eq!(a.len(), 5);
    assert!(matches!(a[4], RunAction::RemoveTempFile));
}

#[test]
fn run_pauses_on_cancel() {
    let mut r = DownloadRun::new(4, 40);
    r.step(&RunEvent::Started);
    r.step(&RunEvent::ResponseReceived(None));
    r.step(&RunEvent::FileCreated);
    r.step(&RunEvent::ChunkWritten(10));
    let a = r.step(&RunEvent::Cancelled);
    assert!(matches!(a[0], RunAction::SetStatus(DownloadStatus::Paused)));
    assert!(matches!(a[1], RunAction::Emit(DownloadStatus::Paused, 10, 0, None)));
    assert_eq!(r.phase, RunPhase::Done);
}

fn outcome(a: DownloadAttempt) -> Result<DownloadAttempt, String> {
    Ok(a)
}

#[test]
fn succeeds_on_first_attempt_decision() {
    match retry_step(1, &outcome(DownloadAttempt::Response(200))) {
        RetryDecision::Return(DownloadAttempt::Response(200)) => {},
        other => panic!("unexpected {:?}", other),
    }
}

#[test]
fn retry_waits_double_then_gives_up() {
    let fail = || outcome(DownloadAttempt::TransportError("persistent failure".to_string()));
    assert!(matches!(retry_step(1, &fail()), RetryDecision::Wait(1000)));
    assert!(matches!(retry_step(2, &fail()), RetryDecision::Wait(2000)));
    match retry_step(3, &fail()) {
        RetryDecision::Fail(m) => {
            assert_eq!(m, "Request failed after 3 attempt(s): persistent failure");
        },
        other => panic!("unexpected {:?}", other),
    }
}

#[test]
fn retry_server_errors_but_not_client_errors() {
    assert!(matches!(retry_step(1, &outcome(DownloadAttempt::Response(502))), RetryDecision::Wait(1000)));
    assert!(matches!(
        retry_step(1, &outcome(DownloadAttempt::Response(404))),
        RetryDecision::Return(DownloadAttempt::Response(404))
    ));
    match retry_step(3, &outcome(DownloadAttempt::Response(503))) {
        RetryDecision::Fail(m) => assert_eq!(m, "Server error 503 Service Unavailable after 3 retries"),
        other => panic!("unexpected {:?}", other),
    }
    // an invalid code counts as 500
    match retry_step(3, &outcome(DownloadAttempt::Response(42))) {
        RetryDecision::Fail(m) => assert_eq!(m, "Server error 500 Internal Server Error after 3 retries"),
        other => panic!("unexpected {:?}", other),
    }
    match retry_step(1, &Err("logic".to_string())) {
        RetryDecision::Fail(m) => assert_eq!(m, "logic"),
        other => panic!("unexpected {:?}", other),
    }
    assert_eq!(cancelled_error(), "cancelled");
}

#[test]
fn add_download_task_stores_a_fresh_pending_task() {
    let mut m = DownloadManager::new();
    let mut ids = TaskIds::new();
    m.add_task(task(1, DownloadStatus::Completed));
    ids.restore(&vec![1]);
    let t = add_download_task(&mut m, &mut ids, 77, "https://img/x.jpg".to_string(), "x.jpg".to_string(), "/dl/x.jpg".to_string()).unwrap();
    assert_eq!(t.id, 2);
    assert_eq!(t.post_id, 77);
    assert_eq!(t.status, DownloadStatus::Pending);
    assert_eq!(t.downloaded_size, 0);
    assert_eq!(t.total_size, 0);
    assert!(t.error.is_none());
    assert_eq!(m.get_task(2).unwrap().file_name, "x.jpg");
    assert_eq!(m.get_task(1).unwrap().status, DownloadStatus::Completed);
    let u = add_download_task(&mut m, &mut ids, 78, String::new(), String::new(), String::new()).unwrap();
    assert_eq!(u.id, 3);
}
