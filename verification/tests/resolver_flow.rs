use pahe_pipeline::resolver::{
    replace_all, rewrite_script, find_eval_script, make_script_literal, extract_m3u8_url,
    resolve_from_html,
};
use pahe_pipeline::errors::DownloadError;

#[test]
fn replacement_is_leftmost_and_resumes_after() {
    assert_eq!(replace_all("aaa", "aa", "b"), "ba");
    assert_eq!(replace_all("abcabc", "b", "xy"), "axycaxyc");
    assert_eq!(replace_all("abc", "z", "q"), "abc");
}

#[test]
fn the_rewrite_redirects_and_prints() {
    assert_eq!(
        rewrite_script("eval(document.querySelector)"),
        "console.log(process.exit)"
    );
    assert_eq!(rewrite_script("document.documentElement"), "process.processElement");
}

#[test]
fn the_packed_script_is_found_between_its_tags() {
    let html = "<html><head></head><body><script>var x;</script><script>eval(packed(1,2))</script></body></html>";
    assert_eq!(find_eval_script(html).as_deref(), Some("eval(packed(1,2))"));
}

#[test]
fn a_page_without_a_packed_script_yields_nothing() {
    assert_eq!(find_eval_script("<html><script>var y;</script></html>"), None);
    assert_eq!(find_eval_script("<html><script>eval(unclosed"), None);
}

#[test]
fn script_literals_escape_what_matters() {
    assert_eq!(make_script_literal("abc"), "\"abc\"");
    assert_eq!(make_script_literal("a\"b"), "\"a\\\"b\"");
    assert_eq!(make_script_literal("a\\b"), "\"a\\\\b\"");
    assert_eq!(make_script_literal("a\nb\tc\rd"), "\"a\\nb\\tc\\rd\"");
}

#[test]
fn the_first_quoted_manifest_reference_wins() {
    let out = "var source='https://h/one.m3u8'; var other=\"https://h/two.m3u8\";";
    assert_eq!(extract_m3u8_url(out).as_deref(), Some("https://h/one.m3u8"));
}

#[test]
fn a_quote_before_the_suffix_moves_the_scan_on() {
    let out = "source='bad' and then source=\"https://h/real.m3u8\"";
    assert_eq!(extract_m3u8_url(out).as_deref(), Some("https://h/real.m3u8"));
}

#[test]
fn output_without_a_reference_yields_nothing() {
    assert_eq!(extract_m3u8_url("no source here"), None);
    assert_eq!(extract_m3u8_url("source='only-mp4.mp4'"), None);
    assert_eq!(extract_m3u8_url(""), None);
}

#[test]
fn a_packed_page_resolves_end_to_end() {
    let html = "<html><body><script>eval(\"var source='https://example.com/stream/master.m3u8';\")</script></body></html>";
    let url = resolve_from_html(html).expect("resolves");
    assert_eq!(url, "https://example.com/stream/master.m3u8");
}

#[test]
fn the_sandbox_gets_a_decoding_primitive() {
    // The packed payload uses the injected base64 decoder; its output is
    // captured, not executed.
    let html = "<html><script>eval(atob('dmFyIHNvdXJjZT0naHR0cHM6Ly9oL2EubTN1OCc7'))</script></html>";
    let url = resolve_from_html(html).expect("resolves");
    assert_eq!(url, "https://h/a.m3u8");
}

#[test]
fn a_page_without_a_script_fails_with_script_not_found() {
    assert_eq!(
        resolve_from_html("<html><body>nothing packed</body></html>"),
        Err(DownloadError::ManifestScriptNotFound)
    );
}

#[test]
fn a_script_that_prints_no_reference_fails_with_url_not_found() {
    let html = "<html><script>eval(\"var x = 1;\")</script></html>";
    assert_eq!(resolve_from_html(html), Err(DownloadError::ManifestUrlNotFound));
}

#[test]
fn a_throwing_script_is_caught_not_fatal() {
    let html = "<html><script>eval(\"throw new Error('boom');\")</script></html>";
    assert_eq!(resolve_from_html(html), Err(DownloadError::ManifestUrlNotFound));
}
