use pahe_pipeline::job::{JobMachine, Phase};
use pahe_pipeline::errors::DownloadError;

const PLAIN_MANIFEST: &str =
    "#EXTM3U\nhttp://host/seg0.ts\nhttp://host/seg1.ts\nhttp://host/seg2.ts\n";

const KEYED_MANIFEST: &str = "#EXTM3U\n#EXT-X-KEY:METHOD=AES-128,URI=\"http://host/key\"\nhttp://host/seg0.ts\nhttp://host/seg1.ts\n";

#[test]
fn three_plain_segments_run_to_done() {
    let mut m = JobMachine::new(4);
    assert_eq!(m.phase, Phase::Planning);
    let keyed = m.on_manifest(PLAIN_MANIFEST).expect("plan is nonempty");
    assert!(!keyed);
    assert_eq!(m.phase, Phase::Downloading);
    assert_eq!(m.progress(), (0, 3));
    assert_eq!(m.start_next_fetch(), Some(0));
    assert_eq!(m.start_next_fetch(), Some(1));
    assert_eq!(m.start_next_fetch(), Some(2));
    assert_eq!(m.start_next_fetch(), None);
    m.on_segment_fetched();
    m.on_segment_fetched();
    assert_eq!(m.phase, Phase::Downloading);
    m.on_segment_fetched();
    assert_eq!(m.phase, Phase::Assembling);
    assert_eq!(m.progress(), (3, 3));
    let remove_workdir = m.on_assembly_finished();
    assert!(remove_workdir);
    assert_eq!(m.phase, Phase::Done);
}

#[test]
fn empty_manifest_fails_before_any_fetch() {
    let mut m = JobMachine::new(4);
    let r = m.on_manifest("#EXTM3U\n#EXT-X-ENDLIST\n");
    assert_eq!(r, Err(DownloadError::EmptySegmentPlan));
    assert_eq!(m.phase, Phase::Failed);
    assert_eq!(m.fetch_started, 0);
    assert_eq!(m.error, Some(DownloadError::EmptySegmentPlan));
}

#[test]
fn manifest_with_no_lines_at_all_fails() {
    let mut m = JobMachine::new(2);
    let r = m.on_manifest("");
    assert_eq!(r, Err(DownloadError::EmptySegmentPlan));
    assert_eq!(m.phase, Phase::Failed);
}

#[test]
fn one_failed_fetch_fails_the_job_without_assembly() {
    let mut m = JobMachine::new(4);
    m.on_manifest(PLAIN_MANIFEST).unwrap();
    assert_eq!(m.start_next_fetch(), Some(0));
    assert_eq!(m.start_next_fetch(), Some(1));
    assert_eq!(m.start_next_fetch(), Some(2));
    m.on_segment_fetched();
    m.on_segment_fetch_failed(1);
    assert_eq!(m.phase, Phase::Failed);
    assert_eq!(m.error, Some(DownloadError::SegmentFetchFailed { index: 1 }));
    // Two fetched segment files may remain on disk; the machine never asked
    // for assembly or for the working directory's removal.
    assert_ne!(m.phase, Phase::Assembling);
    assert_ne!(m.phase, Phase::Done);
}

#[test]
fn concurrency_bound_limits_outstanding_fetches() {
    let mut m = JobMachine::new(2);
    m.on_manifest(PLAIN_MANIFEST).unwrap();
    assert_eq!(m.start_next_fetch(), Some(0));
    assert_eq!(m.start_next_fetch(), Some(1));
    assert_eq!(m.start_next_fetch(), None);
    m.on_segment_fetched();
    assert_eq!(m.start_next_fetch(), Some(2));
    assert_eq!(m.start_next_fetch(), None);
}

#[test]
fn thread_budget_is_clamped_to_at_least_one() {
    let m = JobMachine::new(0);
    assert_eq!(m.threads, 1);
}

#[test]
fn cancel_after_one_segment_never_reaches_done() {
    let mut m = JobMachine::new(2);
    m.on_manifest(PLAIN_MANIFEST).unwrap();
    assert_eq!(m.start_next_fetch(), Some(0));
    assert_eq!(m.start_next_fetch(), Some(1));
    m.on_segment_fetched();
    m.request_cancel();
    assert!(m.cancel_requested);
    // No new work starts after the request.
    assert_eq!(m.start_next_fetch(), None);
    // The in-flight segment winds down, then the job is cancelled, not done.
    m.on_segment_fetched();
    assert_eq!(m.phase, Phase::Cancelled);
    assert_ne!(m.phase, Phase::Done);
}

#[test]
fn cancel_of_an_idle_job_is_immediate() {
    let mut m = JobMachine::new(2);
    m.request_cancel();
    assert_eq!(m.phase, Phase::Cancelled);
}

#[test]
fn cancel_of_a_done_job_changes_nothing() {
    let mut m = JobMachine::new(2);
    m.on_manifest("http://host/only.ts\n").unwrap();
    assert_eq!(m.start_next_fetch(), Some(0));
    m.on_segment_fetched();
    m.on_assembly_finished();
    m.request_cancel();
    assert_eq!(m.phase, Phase::Done);
    assert!(!m.cancel_requested);
}

#[test]
fn keyed_manifest_decrypts_everything_before_assembly() {
    let mut m = JobMachine::new(8);
    let keyed = m.on_manifest(KEYED_MANIFEST).expect("plan is nonempty");
    assert!(keyed);
    assert_eq!(m.phase, Phase::FetchingKey);
    let key = vec![0xabu8; 16];
    m.on_key_fetched(&key);
    assert_eq!(m.phase, Phase::Downloading);
    assert_eq!(m.key_hex.as_deref(), Some("abababababababababababababababab"));
    assert_eq!(m.start_next_fetch(), Some(0));
    assert_eq!(m.start_next_fetch(), Some(1));
    m.on_segment_fetched();
    m.on_segment_fetched();
    assert_eq!(m.phase, Phase::Decrypting);
    assert_eq!(m.start_next_decrypt(), Some(0));
    assert_eq!(m.start_next_decrypt(), Some(1));
    m.on_segment_decrypted();
    assert_eq!(m.phase, Phase::Decrypting);
    m.on_segment_decrypted();
    assert_eq!(m.phase, Phase::Assembling);
    assert_eq!(m.decrypted, 2);
    assert_eq!(m.fetched, 2);
}

#[test]
fn key_fetch_failure_is_fatal() {
    let mut m = JobMachine::new(2);
    m.on_manifest(KEYED_MANIFEST).unwrap();
    m.on_key_fetch_failed();
    assert_eq!(m.phase, Phase::Failed);
    assert_eq!(m.error, Some(DownloadError::KeyFetchFailed));
}

#[test]
fn decrypt_failure_is_fatal() {
    let mut m = JobMachine::new(2);
    m.on_manifest(KEYED_MANIFEST).unwrap();
    m.on_key_fetched(&vec![0u8; 16]);
    m.start_next_fetch();
    m.start_next_fetch();
    m.on_segment_fetched();
    m.on_segment_fetched();
    m.start_next_decrypt();
    m.on_segment_decrypt_failed(0);
    assert_eq!(m.phase, Phase::Failed);
    assert_eq!(m.error, Some(DownloadError::SegmentDecryptFailed { index: 0 }));
}

#[test]
fn manifest_fetch_failure_is_upstream() {
    let mut m = JobMachine::new(2);
    m.on_manifest_fetch_failed();
    assert_eq!(m.phase, Phase::Failed);
    assert_eq!(m.error, Some(DownloadError::UpstreamHttp));
}

#[test]
fn assembly_failures_name_the_tool() {
    let mut m = JobMachine::new(2);
    m.on_manifest("http://host/only.ts\n").unwrap();
    m.start_next_fetch();
    m.on_segment_fetched();
    m.on_assembly_failed(true);
    assert_eq!(m.error, Some(DownloadError::ToolMissing));

    let mut m2 = JobMachine::new(2);
    m2.on_manifest("http://host/only.ts\n").unwrap();
    m2.start_next_fetch();
    m2.on_segment_fetched();
    m2.on_assembly_failed(false);
    assert_eq!(m2.error, Some(DownloadError::ExternalToolFailed));
}

#[test]
fn progress_is_monotonic_through_a_run() {
    let mut m = JobMachine::new(3);
    let mut last = m.progress();
    m.on_manifest(PLAIN_MANIFEST).unwrap();
    let cur = m.progress();
    assert!(cur.0 >= last.0 && cur.1 >= last.1);
    last = cur;
    for _ in 0..3 {
        m.start_next_fetch();
        m.on_segment_fetched();
        let cur = m.progress();
        assert!(cur.0 >= last.0 && cur.1 >= last.1);
        last = cur;
    }
    assert_eq!(last, (3, 3));
}

#[test]
fn error_labels_are_stable() {
    assert_eq!(DownloadError::EmptySegmentPlan.describe(), "no segments in playlist");
    assert_eq!(DownloadError::ToolMissing.describe(), "ffmpeg not found");
    assert_eq!(DownloadError::ExternalToolFailed.describe(), "ffmpeg failed");
    assert_eq!(DownloadError::ExternalToolTimeout.describe(), "ffmpeg execution timed out");
    assert_eq!(DownloadError::UpstreamHttp.describe(), "upstream HTTP request failed");
    assert_eq!(
        DownloadError::ManifestScriptNotFound.describe(),
        "no eval script found in page content"
    );
    assert_eq!(
        DownloadError::SegmentFetchFailed { index: 7 }.describe(),
        "segment download failed"
    );
}

#[test]
fn status_lines_follow_the_lifecycle() {
    let mut m = JobMachine::new(2);
    assert_eq!(m.status_label(), "Fetching link");
    m.on_manifest(KEYED_MANIFEST).unwrap();
    assert_eq!(m.status_label(), "Extracting playlist");
    m.on_key_fetched(&vec![0u8; 16]);
    assert_eq!(m.status_label(), "Downloading");
    m.start_next_fetch();
    m.on_segment_fetch_failed(0);
    assert_eq!(m.status_label(), "Failed: segment download failed");

    let mut m2 = JobMachine::new(2);
    m2.request_cancel();
    assert_eq!(m2.status_label(), "Cancelled");

    let mut m3 = JobMachine::new(2);
    m3.on_manifest("http://h/a.ts\n").unwrap();
    m3.start_next_fetch();
    m3.on_segment_fetched();
    m3.on_assembly_finished();
    assert_eq!(m3.status_label(), "Done");
}
