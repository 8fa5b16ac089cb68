use pahe_pipeline::progress::{
    parse_time_to_millis, PassthroughProgress, coordinator_tick, SamplerStep,
};

#[test]
fn times_convert_to_milliseconds_exactly() {
    assert_eq!(parse_time_to_millis("00:00:00"), Some(0));
    assert_eq!(parse_time_to_millis("00:00:01"), Some(1000));
    assert_eq!(parse_time_to_millis("00:01:02.5"), Some(62500));
    assert_eq!(parse_time_to_millis("01:02:03"), Some(3723000));
    assert_eq!(parse_time_to_millis("00:24:00.06"), Some(1440060));
    assert_eq!(parse_time_to_millis("00:00:00.123"), Some(123));
    assert_eq!(parse_time_to_millis("00:00:00.1239"), Some(123));
    assert_eq!(parse_time_to_millis(" 00:00:02 "), Some(2000));
}

#[test]
fn malformed_times_are_rejected() {
    assert_eq!(parse_time_to_millis(""), None);
    assert_eq!(parse_time_to_millis("1:2"), None);
    assert_eq!(parse_time_to_millis("1:2:3:4"), None);
    assert_eq!(parse_time_to_millis("aa:bb:cc"), None);
    assert_eq!(parse_time_to_millis("00:00:"), None);
    assert_eq!(parse_time_to_millis("00:00:00.x"), None);
}

#[test]
fn duration_line_sets_the_total() {
    let mut p = PassthroughProgress::new();
    p.apply_tool_line("  Duration: 00:24:00.06, start: 0.000000, bitrate: 1000 kb/s");
    assert_eq!(p.total_ms, 1440060);
    assert_eq!(p.done_ms, 0);
    assert!(p.duration_known);
}

#[test]
fn time_lines_advance_done_monotonically() {
    let mut p = PassthroughProgress::new();
    p.apply_tool_line("  Duration: 00:10:00.00, start: 0, bitrate:");
    p.apply_tool_line("frame=  100 fps=25 q=-1.0 size=  1024KiB time=00:01:00.50 bitrate=");
    assert_eq!(p.done_ms, 60500);
    assert_eq!(p.total_ms, 600000);
    p.apply_tool_line("frame=  200 fps=25 q=-1.0 size=  2048KiB time=00:00:30.00 bitrate=");
    assert_eq!(p.done_ms, 60500);
}

#[test]
fn total_grows_opportunistically_without_a_duration() {
    let mut p = PassthroughProgress::new();
    p.apply_tool_line("frame= 1 time=00:00:10.00 bitrate=");
    assert_eq!(p.done_ms, 10000);
    assert_eq!(p.total_ms, 10000);
    p.apply_tool_line("frame= 2 time=00:00:20.00 bitrate=");
    assert_eq!(p.total_ms, 20000);
}

#[test]
fn a_position_past_the_announced_duration_raises_the_total() {
    let mut p = PassthroughProgress::new();
    p.apply_tool_line("Duration: 00:00:10.00, start:");
    p.apply_tool_line("time=00:00:12.00 more");
    assert_eq!(p.done_ms, 12000);
    assert_eq!(p.total_ms, 12000);
}

#[test]
fn unrelated_lines_change_nothing() {
    let mut p = PassthroughProgress::new();
    p.apply_tool_line("Input #0, hls, from 'playlist.m3u8':");
    assert_eq!((p.done_ms, p.total_ms), (0, 0));
}

#[test]
fn a_successful_finish_completes_the_pair() {
    let mut p = PassthroughProgress::new();
    p.apply_tool_line("Duration: 00:00:10.00, start:");
    p.apply_tool_line("time=00:00:04.00 x");
    p.finish(true);
    assert_eq!(p.done_ms, p.total_ms);
    assert_eq!(p.total_ms, 10000);
}

#[test]
fn a_failed_finish_leaves_done_where_it_was() {
    let mut p = PassthroughProgress::new();
    p.apply_tool_line("Duration: 00:00:10.00, start:");
    p.apply_tool_line("time=00:00:04.00 x");
    p.finish(false);
    assert_eq!(p.done_ms, 4000);
}

#[test]
fn the_sampler_exits_on_cancellation() {
    assert_eq!(coordinator_tick(true, 5, 10, 0), SamplerStep::Exit);
}

#[test]
fn the_sampler_is_quiet_while_the_total_is_zero() {
    assert_eq!(coordinator_tick(false, 0, 0, 0), SamplerStep::Quiet);
}

#[test]
fn the_sampler_reports_a_nonnegative_forward_step() {
    assert_eq!(
        coordinator_tick(false, 7, 10, 4),
        SamplerStep::Report { done: 7, total: 10, delta: 3 }
    );
    // A repeated observation reports zero, never a negative step.
    assert_eq!(
        coordinator_tick(false, 7, 10, 7),
        SamplerStep::Report { done: 7, total: 10, delta: 0 }
    );
    assert_eq!(
        coordinator_tick(false, 5, 10, 7),
        SamplerStep::Report { done: 5, total: 10, delta: 0 }
    );
}
