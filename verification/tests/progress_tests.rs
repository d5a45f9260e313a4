use proxy_backend::progress::{calculate_progress, FfmpegProgress, ProgressParser};

fn text(v: &Vec<char>) -> String {
    v.iter().collect()
}

#[test]
fn parse_complete_block() {
    let mut parser = ProgressParser::new();
    assert!(parser.feed_line("frame=100").is_none());
    assert!(parser.feed_line("fps=25.0").is_none());
    assert!(parser.feed_line("speed=1.5x").is_none());
    assert!(parser.feed_line("out_time_us=4000000").is_none());
    assert!(parser.feed_line("total_size=1024000").is_none());

    let p = parser.feed_line("progress=continue").unwrap();
    assert_eq!(p.frame, 100);
    assert_eq!(p.fps_milli, 25_000);
    assert_eq!(p.speed_milli, 1_500);
    assert_eq!(p.out_time_us, 4_000_000);
    assert!(!p.is_done);
}

#[test]
fn parse_end_block() {
    let mut parser = ProgressParser::new();
    assert!(parser.feed_line("frame=200").is_none());
    let p = parser.feed_line("progress=end").unwrap();
    assert_eq!(p.frame, 200);
    assert!(p.is_done);
}

#[test]
fn progress_clamps_to_one() {
    assert_eq!(calculate_progress(120_000_000, 100_000_000), 1_000_000);
}

#[test]
fn progress_zero_duration() {
    assert_eq!(calculate_progress(10_000_000, 0), 0);
}

#[test]
fn progress_halfway() {
    let p = calculate_progress(50_000_000, 100_000_000);
    assert_eq!(p, 500_000);
}

#[test]
fn progress_negative_current_clamps_to_zero() {
    assert_eq!(calculate_progress(-5, 100), 0);
}

#[test]
fn missing_keys_default_to_zero() {
    let mut parser = ProgressParser::new();
    let p = parser.feed_line("progress=continue").unwrap();
    assert_eq!(p.frame, 0);
    assert_eq!(p.fps_milli, 0);
    assert_eq!(p.speed_milli, 0);
    assert_eq!(p.out_time_us, 0);
    assert_eq!(p.total_size, 0);
    assert!(!p.is_done);
}

#[test]
fn speed_parses_with_and_without_mark() {
    let mut parser = ProgressParser::new();
    assert!(parser.feed_line("speed=1.5x").is_none());
    let with_mark = parser.feed_line("progress=continue").unwrap();
    assert_eq!(with_mark.speed_milli, 1_500);

    let mut parser2 = ProgressParser::new();
    assert!(parser2.feed_line("speed=1.5").is_none());
    let without_mark = parser2.feed_line("progress=continue").unwrap();
    assert_eq!(without_mark.speed_milli, 1_500);
}

#[test]
fn malformed_values_default_to_zero() {
    let mut parser = ProgressParser::new();
    assert!(parser.feed_line("frame=abc").is_none());
    assert!(parser.feed_line("fps=oops").is_none());
    let p = parser.feed_line("progress=continue").unwrap();
    assert_eq!(p.frame, 0);
    assert_eq!(p.fps_milli, 0);
}

#[test]
fn lines_without_separator_are_ignored() {
    let mut parser = ProgressParser::new();
    assert!(parser.feed_line("").is_none());
    assert!(parser.feed_line("   ").is_none());
    assert!(parser.feed_line("no separator here").is_none());
    let p = parser.feed_line("progress=continue").unwrap();
    assert_eq!(p.frame, 0);
}

#[test]
fn later_values_win_within_a_block() {
    let mut parser = ProgressParser::new();
    assert!(parser.feed_line("frame=1").is_none());
    assert!(parser.feed_line("frame=2").is_none());
    let p = parser.feed_line("progress=continue").unwrap();
    assert_eq!(p.frame, 2);
}

#[test]
fn blocks_are_independent() {
    let mut parser = ProgressParser::new();
    assert!(parser.feed_line("frame=10").is_none());
    let first = parser.feed_line("progress=continue").unwrap();
    assert_eq!(first.frame, 10);
    let second = parser.feed_line("progress=continue").unwrap();
    assert_eq!(second.frame, 0);
}

#[test]
fn serialize_then_parse_round_trips() {
    let record = FfmpegProgress {
        frame: 321,
        fps_milli: 24_500,
        speed_milli: 950,
        out_time_us: 7_000_001,
        total_size: -3,
        is_done: false,
    };
    let lines = proxy_backend::progress::serialize_progress_lines(&record);
    let mut parser = ProgressParser::new();
    let mut emitted = None;
    for line in &lines {
        emitted = parser.feed_line(&text(line));
    }
    assert_eq!(emitted.unwrap(), record);
}
