use pahe_pipeline::candidate::{select_candidate, extract_candidates, Candidate};

fn cand(src: &str, audio: Option<&str>, resolution: Option<&str>, av1: Option<&str>) -> Candidate {
    Candidate {
        src: src.to_string(),
        audio: audio.map(|s| s.to_string()),
        resolution: resolution.map(|s| s.to_string()),
        av1: av1.map(|s| s.to_string()),
    }
}

#[test]
fn av1_is_excluded_regardless_of_preference() {
    let candidates = vec![
        cand("https://a/1", Some("eng"), Some("720p"), None),
        cand("https://a/2", Some("jpn"), Some("1080p"), Some("1")),
    ];
    let picked = select_candidate(&candidates, Some("eng"), None).expect("one candidate survives");
    assert_eq!(picked.src, "https://a/1");
    assert_eq!(picked.audio.as_deref(), Some("eng"));
}

#[test]
fn all_av1_yields_none() {
    let candidates = vec![
        cand("https://a/1", None, None, Some("1")),
        cand("https://a/2", None, None, Some("1")),
    ];
    assert!(select_candidate(&candidates, None, None).is_none());
}

#[test]
fn empty_list_yields_none() {
    let candidates: Vec<Candidate> = vec![];
    assert!(select_candidate(&candidates, None, None).is_none());
}

#[test]
fn audio_preference_narrows_when_it_matches() {
    let candidates = vec![
        cand("https://a/eng", Some("eng"), Some("720p"), None),
        cand("https://a/jpn", Some("jpn"), Some("720p"), None),
    ];
    let picked = select_candidate(&candidates, Some("eng"), None).unwrap();
    assert_eq!(picked.src, "https://a/eng");
}

#[test]
fn unmatched_audio_preference_is_ignored() {
    let candidates = vec![
        cand("https://a/1", Some("eng"), None, None),
        cand("https://a/2", Some("jpn"), None, None),
    ];
    let picked = select_candidate(&candidates, Some("ger"), None).unwrap();
    assert_eq!(picked.src, "https://a/2");
}

#[test]
fn resolution_preference_narrows_after_audio() {
    let candidates = vec![
        cand("https://a/1", Some("jpn"), Some("720p"), None),
        cand("https://a/2", Some("jpn"), Some("1080p"), None),
        cand("https://a/3", Some("eng"), Some("1080p"), None),
    ];
    let picked = select_candidate(&candidates, Some("jpn"), Some("720p")).unwrap();
    assert_eq!(picked.src, "https://a/1");
}

#[test]
fn preferred_host_wins_and_last_of_them() {
    let candidates = vec![
        cand("https://kwik.example/1", None, None, None),
        cand("https://other.example/2", None, None, None),
        cand("https://kwik.example/3", None, None, None),
    ];
    let picked = select_candidate(&candidates, None, None).unwrap();
    assert_eq!(picked.src, "https://kwik.example/3");
}

#[test]
fn without_preferred_host_the_last_wins() {
    let candidates = vec![
        cand("https://a.example/1", None, None, None),
        cand("https://b.example/2", None, None, None),
    ];
    let picked = select_candidate(&candidates, None, None).unwrap();
    assert_eq!(picked.src, "https://b.example/2");
}

#[test]
fn candidates_come_out_of_page_buttons() {
    let html = "<html><body>\
        <button data-src=\"https://kwik.example/e/1\" data-audio=\"jpn\" data-resolution=\"720\"></button>\
        <button data-src=\"https://other.example/e/2\" data-audio=\"eng\" data-resolution=\"1080\" data-av1=\"1\"></button>\
        <button>no source here</button>\
        </body></html>";
    let candidates = extract_candidates(html);
    assert_eq!(candidates.len(), 2);
    assert_eq!(candidates[0].src, "https://kwik.example/e/1");
    assert_eq!(candidates[0].audio.as_deref(), Some("jpn"));
    assert_eq!(candidates[0].resolution.as_deref(), Some("720"));
    assert_eq!(candidates[0].av1, None);
    assert_eq!(candidates[1].av1.as_deref(), Some("1"));
    let picked = select_candidate(&candidates, None, None).unwrap();
    assert_eq!(picked.src, "https://kwik.example/e/1");
}
