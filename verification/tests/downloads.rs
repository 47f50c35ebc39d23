use xupg::download::aggregate_download_results;
use xupg::download::DownloadEvent;
use xupg::download::DownloadOutcome;
use xupg::download::DownloadTask;
use xupg::download::TaskAction;
use xupg::download::TaskState;
use xupg::file::DownloadInfo;

fn task() -> DownloadTask {
    DownloadTask::new(DownloadInfo::new(
        "https://example.test/php-8.2.1.zip".to_string(),
        "/d/php-8.2.1.zip".to_string(),
    ))
}

#[test]
fn download_info_keeps_its_fields() {
    let info = DownloadInfo::new("https://example.test/a.zip".to_string(), "/d/a.zip".to_string());
    assert_eq!(info.url(), "https://example.test/a.zip");
    assert_eq!(info.dest, "/d/a.zip");
}

#[test]
fn successful_stream_runs_to_done() {
    let mut t = task();
    assert_eq!(t.state(), TaskState::Starting);
    let a = t.step(DownloadEvent::Response { success: true, content_length: Some(100) });
    assert_eq!(a, vec![TaskAction::SetTotal(100), TaskAction::OpenFile]);
    assert_eq!(t.state(), TaskState::Streaming);
    let a = t.step(DownloadEvent::ChunkWritten { len: 60 });
    assert_eq!(a, vec![TaskAction::Advance(60)]);
    let a = t.step(DownloadEvent::ChunkWritten { len: 40 });
    assert_eq!(a, vec![TaskAction::Advance(100)]);
    assert_eq!(t.bytes_downloaded(), 100);
    let a = t.step(DownloadEvent::EndOfStream);
    assert_eq!(a, vec![TaskAction::FinishProgress]);
    assert_eq!(t.state(), TaskState::Done);
}

#[test]
fn interrupted_stream_deletes_the_file() {
    let mut t = task();
    t.step(DownloadEvent::Response { success: true, content_length: Some(100) });
    t.step(DownloadEvent::ChunkWritten { len: 50 });
    let a = t.step(DownloadEvent::StreamFailed);
    assert_eq!(a, vec![TaskAction::DeleteFile]);
    assert_eq!(t.state(), TaskState::Failed);
    let a = t.step(DownloadEvent::ChunkWritten { len: 10 });
    assert!(a.is_empty());
    assert_eq!(t.state(), TaskState::Failed);
}

#[test]
fn bad_status_fails_before_any_write() {
    let mut t = task();
    let a = t.step(DownloadEvent::Response { success: false, content_length: Some(100) });
    assert_eq!(a, vec![TaskAction::DeleteFile]);
    assert_eq!(t.state(), TaskState::Failed);
}

#[test]
fn missing_content_length_is_a_hard_error() {
    let mut t = task();
    let a = t.step(DownloadEvent::Response { success: true, content_length: None });
    assert_eq!(a, vec![TaskAction::DeleteFile]);
    assert_eq!(t.state(), TaskState::Failed);

    let mut t2 = task();
    let a = t2.step(DownloadEvent::Response { success: true, content_length: Some(0) });
    assert_eq!(a, vec![TaskAction::DeleteFile]);
    assert_eq!(t2.state(), TaskState::Failed);
}

#[test]
fn request_and_directory_failures_fail_the_task() {
    let mut t = task();
    let a = t.step(DownloadEvent::RequestFailed);
    assert_eq!(a, vec![TaskAction::DeleteFile]);
    assert_eq!(t.state(), TaskState::Failed);

    let mut t2 = task();
    let a = t2.step(DownloadEvent::DirFailed);
    assert_eq!(a, vec![TaskAction::DeleteFile]);
    assert_eq!(t2.state(), TaskState::Failed);
}

#[test]
fn progress_counter_never_decreases() {
    let mut t = task();
    t.step(DownloadEvent::Response { success: true, content_length: Some(10) });
    let mut last = t.bytes_downloaded();
    for len in [3usize, 0, 4, 3] {
        t.step(DownloadEvent::ChunkWritten { len });
        assert!(t.bytes_downloaded() >= last);
        last = t.bytes_downloaded();
    }
}

#[test]
fn aggregation_of_all_successes_is_ok() {
    let outcomes = vec![
        DownloadOutcome { url: "https://example.test/a.zip".to_string(), error: None },
        DownloadOutcome { url: "https://example.test/b.zip".to_string(), error: None },
    ];
    assert!(aggregate_download_results(outcomes).is_ok());
}

#[test]
fn aggregation_reports_every_failure_with_its_url() {
    let outcomes = vec![
        DownloadOutcome { url: "https://example.test/a.zip".to_string(), error: None },
        DownloadOutcome {
            url: "https://example.test/b.zip".to_string(),
            error: Some("connection reset".to_string()),
        },
        DownloadOutcome { url: "https://example.test/c.zip".to_string(), error: None },
        DownloadOutcome {
            url: "https://example.test/d.zip".to_string(),
            error: Some("HTTP 404".to_string()),
        },
    ];
    let err = aggregate_download_results(outcomes).unwrap_err();
    assert_eq!(err.failures.len(), 2);
    assert_eq!(err.failures[0].0, "https://example.test/b.zip");
    assert_eq!(err.failures[0].1, "connection reset");
    assert_eq!(err.failures[1].0, "https://example.test/d.zip");
    assert_eq!(err.failures[1].1, "HTTP 404");
}

#[test]
fn aggregation_of_no_tasks_is_ok() {
    assert!(aggregate_download_results(Vec::new()).is_ok());
}
