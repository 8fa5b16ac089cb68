use pahe_pipeline::manifest::{plan_from_manifest, parse_segment_urls, extract_key_uri, split_lines};
use pahe_pipeline::errors::DownloadError;

#[test]
fn three_segment_lines_give_a_plan_of_three() {
    let manifest = "#EXTM3U\nhttp://h/a.ts\nhttp://h/b.ts\n#EXT-X-ENDLIST\nhttp://h/c.ts\n";
    let plan = plan_from_manifest(manifest).expect("plan");
    assert_eq!(plan.urls, vec!["http://h/a.ts", "http://h/b.ts", "http://h/c.ts"]);
    assert_eq!(plan.key_uri, None);
}

#[test]
fn discovery_order_is_kept() {
    let manifest = "http://h/9.ts\nhttp://h/1.ts\nhttp://h/5.ts\n";
    let urls = parse_segment_urls(manifest);
    assert_eq!(urls, vec!["http://h/9.ts", "http://h/1.ts", "http://h/5.ts"]);
}

#[test]
fn no_http_line_is_an_empty_plan_error() {
    let manifest = "#EXTM3U\n#EXT-X-VERSION:3\nftp://nope\n";
    assert_eq!(plan_from_manifest(manifest).err(), Some(DownloadError::EmptySegmentPlan));
}

#[test]
fn empty_manifest_is_an_empty_plan_error() {
    assert_eq!(plan_from_manifest("").err(), Some(DownloadError::EmptySegmentPlan));
}

#[test]
fn key_line_is_found() {
    let manifest = "#EXTM3U\n#EXT-X-KEY:METHOD=AES-128,URI=\"https://h/key?id=1\"\nhttp://h/a.ts\n";
    let plan = plan_from_manifest(manifest).unwrap();
    assert_eq!(plan.key_uri.as_deref(), Some("https://h/key?id=1"));
}

#[test]
fn first_key_line_wins() {
    let manifest = "#EXT-X-KEY:METHOD=AES-128,URI=\"https://h/key1\"\n#EXT-X-KEY:METHOD=AES-128,URI=\"https://h/key2\"\nhttp://h/a.ts\n";
    assert_eq!(extract_key_uri(manifest).as_deref(), Some("https://h/key1"));
}

#[test]
fn key_line_without_uri_is_no_key() {
    let manifest = "#EXT-X-KEY:METHOD=NONE\nhttp://h/a.ts\n";
    assert_eq!(extract_key_uri(manifest), None);
}

#[test]
fn key_uri_must_be_nonempty_and_closed() {
    assert_eq!(extract_key_uri("#EXT-X-KEY:METHOD=AES-128,URI=\"\"\n"), None);
    assert_eq!(extract_key_uri("#EXT-X-KEY:METHOD=AES-128,URI=\"open\n"), None);
}

#[test]
fn lines_split_like_a_text_document() {
    assert_eq!(split_lines("a\nb\nc"), vec!["a", "b", "c"]);
    assert_eq!(split_lines("a\nb\n"), vec!["a", "b"]);
    assert_eq!(split_lines(""), Vec::<String>::new());
    assert_eq!(split_lines("a\r\nb\r\n"), vec!["a", "b"]);
    assert_eq!(split_lines("a\n\nb"), vec!["a", "", "b"]);
}

#[test]
fn carriage_returns_do_not_break_segment_lines() {
    let manifest = "#EXTM3U\r\nhttp://h/a.ts\r\nhttp://h/b.ts\r\n";
    let urls = parse_segment_urls(manifest);
    assert_eq!(urls, vec!["http://h/a.ts", "http://h/b.ts"]);
}
