use pahe_pipeline::tracker::{DownloadTracker, DownloadStatus};
use pahe_pipeline::settings::{normalize_host, gen_cookie, AppSettings, AppState};
use pahe_pipeline::api_types::{EpisodeInfo, find_session_for_episode};

fn tracked_one(now: i64) -> (DownloadTracker, String) {
    let mut t = DownloadTracker::new();
    let id = t.add_download(
        "My Show".to_string(),
        5,
        "my-show".to_string(),
        "/tmp/My Show/5.mp4".to_string(),
        Some("jpn".to_string()),
        None,
        now,
    );
    (t, id)
}

#[test]
fn the_minted_identifier_names_slug_episode_and_time() {
    let (_, id) = tracked_one(1700000000);
    assert_eq!(id, "my-show-ep5-1700000000");
}

#[test]
fn a_fresh_record_is_in_progress_and_empty() {
    let (t, id) = tracked_one(10);
    let rec = t.get_download(&id).expect("present");
    assert_eq!(rec.status, DownloadStatus::InProgress);
    assert_eq!(rec.downloaded_bytes, 0);
    assert_eq!(rec.file_size, None);
    assert_eq!(rec.started_at, 10);
    assert_eq!(rec.episode, 5);
    assert_eq!(rec.audio_type.as_deref(), Some("jpn"));
}

#[test]
fn progress_updates_land_on_the_record() {
    let (mut t, id) = tracked_one(10);
    t.update_progress(&id, 1024, Some(4096), 11);
    let rec = t.get_download(&id).unwrap();
    assert_eq!(rec.downloaded_bytes, 1024);
    assert_eq!(rec.file_size, Some(4096));
    assert_eq!(rec.updated_at, 11);
    // A later update without a size keeps the known size.
    t.update_progress(&id, 2048, None, 12);
    let rec = t.get_download(&id).unwrap();
    assert_eq!(rec.downloaded_bytes, 2048);
    assert_eq!(rec.file_size, Some(4096));
}

#[test]
fn completion_squares_the_byte_counter() {
    let (mut t, id) = tracked_one(10);
    t.update_progress(&id, 100, Some(4096), 11);
    t.mark_completed(&id, 12);
    let rec = t.get_download(&id).unwrap();
    assert_eq!(rec.status, DownloadStatus::Completed);
    assert_eq!(rec.downloaded_bytes, 4096);
    assert_eq!(rec.completed_at, Some(12));
}

#[test]
fn failure_and_cancellation_are_distinct_states() {
    let (mut t, id) = tracked_one(10);
    t.mark_failed(&id, "segment download failed".to_string(), 11);
    assert_eq!(t.get_download(&id).unwrap().status, DownloadStatus::Failed);
    assert_eq!(
        t.get_download(&id).unwrap().error_message.as_deref(),
        Some("segment download failed")
    );
    t.mark_cancelled(&id, 12);
    assert_eq!(t.get_download(&id).unwrap().status, DownloadStatus::Cancelled);
}

#[test]
fn incomplete_means_in_progress_or_failed() {
    let mut t = DownloadTracker::new();
    let a = t.add_download("A".into(), 1, "a".into(), "a.mp4".into(), None, None, 1);
    let b = t.add_download("B".into(), 2, "b".into(), "b.mp4".into(), None, None, 2);
    let c = t.add_download("C".into(), 3, "c".into(), "c.mp4".into(), None, None, 3);
    t.mark_completed(&b, 4);
    t.mark_failed(&c, "x".into(), 5);
    let incomplete = t.get_incomplete_downloads();
    let ids: Vec<&str> = incomplete.iter().map(|r| r.id.as_str()).collect();
    assert_eq!(ids, vec![a.as_str(), c.as_str()]);
}

#[test]
fn clearing_drops_only_completed_records() {
    let mut t = DownloadTracker::new();
    let a = t.add_download("A".into(), 1, "a".into(), "a.mp4".into(), None, None, 1);
    let b = t.add_download("B".into(), 2, "b".into(), "b.mp4".into(), None, None, 2);
    t.mark_completed(&a, 3);
    t.clear_completed();
    assert!(t.get_download(&a).is_none());
    assert!(t.get_download(&b).is_some());
}

#[test]
fn removal_drops_the_record() {
    let (mut t, id) = tracked_one(10);
    t.remove_download(&id);
    assert!(t.get_download(&id).is_none());
    // Removing again is harmless.
    t.remove_download(&id);
}

#[test]
fn validation_checks_existence_then_size() {
    let (mut t, id) = tracked_one(10);
    assert_eq!(t.validate_file("unknown", true, None), None);
    assert_eq!(t.validate_file(&id, false, None), Some(false));
    assert_eq!(t.validate_file(&id, true, None), Some(true));
    t.update_progress(&id, 4096, Some(4096), 11);
    t.mark_completed(&id, 12);
    assert_eq!(t.validate_file(&id, true, Some(4096)), Some(true));
    assert_eq!(t.validate_file(&id, true, Some(4095)), Some(false));
    assert_eq!(t.validate_file(&id, true, None), Some(false));
}

#[test]
fn host_entries_normalize() {
    assert_eq!(normalize_host("  https://example.si/  "), "https://example.si");
    assert_eq!(normalize_host("https://example.si///"), "https://example.si");
    assert_eq!(normalize_host(""), "https://animepahe.si");
    assert_eq!(normalize_host("   "), "https://animepahe.si");
    assert_eq!(normalize_host("///"), "");
}

#[test]
fn cookies_carry_the_fixed_name_and_a_random_token() {
    let c = gen_cookie();
    assert!(c.starts_with("__ddg2_="));
    assert_eq!(c.len(), "__ddg2_=".len() + 16);
    assert!(c["__ddg2_=".len()..].chars().all(|ch| ch.is_ascii_alphanumeric()));
}

#[test]
fn default_settings_point_at_the_default_host() {
    let s = AppSettings::default();
    assert_eq!(s.host_url, "https://animepahe.si");
    assert!(s.theme_dark);
    assert_eq!(s.download_dir, None);
    assert!(!s.tour_completed);
}

#[test]
fn session_state_normalizes_and_keeps_its_cookie() {
    let mut state = AppState::init(AppSettings {
        download_dir: Some("/tmp".to_string()),
        theme_dark: false,
        host_url: "https://h.example/".to_string(),
        tour_completed: true,
    });
    assert_eq!(state.settings.host_url, "https://h.example");
    let cookie_before = state.cookie().clone();
    let stored = state.persist(AppSettings {
        download_dir: None,
        theme_dark: true,
        host_url: " https://other.example// ".to_string(),
        tour_completed: false,
    });
    assert_eq!(stored.host_url, "https://other.example");
    assert_eq!(state.cookie(), &cookie_before);
}

#[test]
fn the_first_listed_session_for_an_episode_wins() {
    let eps = vec![
        EpisodeInfo { number: 1, session: "s1".to_string() },
        EpisodeInfo { number: 2, session: "s2".to_string() },
        EpisodeInfo { number: 2, session: "s2-dup".to_string() },
    ];
    assert_eq!(find_session_for_episode(&eps, 2).map(|s| s.as_str()), Some("s2"));
    assert_eq!(find_session_for_episode(&eps, 9), None);
}

#[test]
fn the_requirements_report_names_the_tool() {
    let ok = pahe_pipeline::api_types::check_requirements(Some("/usr/bin/ffmpeg".to_string()));
    assert!(ok.all_available);
    assert_eq!(ok.requirements.len(), 1);
    assert_eq!(ok.requirements[0].name, "ffmpeg");
    assert_eq!(ok.requirements[0].error, None);

    let missing = pahe_pipeline::api_types::check_requirements(None);
    assert!(!missing.all_available);
    assert_eq!(missing.requirements[0].error.as_deref(), Some("ffmpeg not found"));
}
