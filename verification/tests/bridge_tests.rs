use proxy_backend::braw::{parse_metadata_json, BrawRun};
use proxy_backend::ffmpeg::{FfmpegEvent, FfmpegRun, LineStep};
use proxy_backend::r3d::R3dRun;

fn chars(s: &str) -> Vec<char> {
    s.chars().collect()
}

fn text(v: &Vec<char>) -> String {
    v.iter().collect()
}

#[test]
fn metadata_line_parses() {
    let line = "{\"timecode\":\"01:00:00:00\",\"fps_num\":24000,\"fps_den\":1001,\
                \"width\":4096,\"height\":2160,\"frame_count\":240}";
    let m = parse_metadata_json(line).unwrap();
    assert_eq!(text(&m.timecode), "01:00:00:00");
    assert_eq!(m.fps_num, 24000);
    assert_eq!(m.fps_den, 1001);
    assert_eq!(m.width, 4096);
    assert_eq!(m.height, 2160);
    assert_eq!(m.frame_count, 240);
}

#[test]
fn metadata_timecode_defaults() {
    let line = "{\"fps_num\":24,\"fps_den\":1,\"width\":100,\"height\":50,\"frame_count\":7}";
    let m = parse_metadata_json(line).unwrap();
    assert_eq!(text(&m.timecode), "00:00:00:00");
}

#[test]
fn metadata_missing_field_refused() {
    let line = "{\"fps_num\":24,\"fps_den\":1,\"width\":100,\"height\":50}";
    assert!(parse_metadata_json(line).is_none());
    assert!(parse_metadata_json("not json").is_none());
    let r3d_line = "{\"fps_num\":24,\"fps_den\":1,\"width\":2,\"height\":2,\"frame_count\":1}";
    assert!(proxy_backend::r3d::parse_metadata_json(r3d_line).is_some());
}

#[test]
fn bridge_progress_lines_become_events() {
    let run = BrawRun::new(chars("j1"), 1200);
    match run.on_stderr_line("{\"type\":\"progress\",\"frame\":600}") {
        Some(FfmpegEvent::Progress { id, percent_milli, frame, .. }) => {
            assert_eq!(text(&id), "j1");
            assert_eq!(percent_milli, 50_000);
            assert_eq!(frame, 600);
        }
        other => panic!("unexpected event: {:?}", other),
    }
    assert!(run.on_stderr_line("{\"type\":\"other\"}").is_none());
    assert!(run.on_stderr_line("garbage").is_none());
    // Frames beyond the count clamp to one hundred percent.
    match run.on_stderr_line("{\"type\":\"progress\",\"frame\":2400}") {
        Some(FfmpegEvent::Progress { percent_milli, .. }) => assert_eq!(percent_milli, 100_000),
        other => panic!("unexpected event: {:?}", other),
    }
}

#[test]
fn bridge_exit_precedence() {
    let run = R3dRun::new(chars("j"), 10);
    match run.on_finished(false, 3, false, 5) {
        FfmpegEvent::Error { message, .. } => {
            assert_eq!(text(&message), "r3d-bridge exited with code: 3");
        }
        other => panic!("unexpected event: {:?}", other),
    }
    match run.on_finished(true, 0, false, 5) {
        FfmpegEvent::Error { message, .. } => {
            assert_eq!(text(&message), "FFmpeg exited with code: 5");
        }
        other => panic!("unexpected event: {:?}", other),
    }
    assert!(matches!(run.on_finished(true, 0, true, 0), FfmpegEvent::Done { .. }));
    assert!(matches!(run.on_cancelled(), FfmpegEvent::Cancelled { .. }));
}

#[test]
fn encoder_run_folds_lines() {
    let mut run = FfmpegRun::new(chars("j1"), 8_000_000);
    assert!(matches!(run.on_stderr_line("frame=10"), LineStep::Quiet));
    assert!(matches!(run.on_stderr_line("out_time_us=4000000"), LineStep::Quiet));
    match run.on_stderr_line("progress=continue") {
        LineStep::Emit(FfmpegEvent::Progress { percent_milli, frame, .. }) => {
            assert_eq!(percent_milli, 50_000);
            assert_eq!(frame, 10);
        }
        _ => panic!("expected a progress event"),
    }
    assert!(matches!(run.on_stderr_line("progress=end"), LineStep::AwaitExit));
    assert!(matches!(run.on_exit(true, 0), FfmpegEvent::Done { .. }));
}

#[test]
fn encoder_run_reports_failures_with_log_tail() {
    let mut run = FfmpegRun::new(chars("j1"), 0);
    assert!(matches!(run.on_stderr_line("something went wrong"), LineStep::Quiet));
    match run.on_exit(false, 2) {
        FfmpegEvent::Error { message, .. } => {
            assert_eq!(text(&message), "FFmpeg exited with code: 2\n\nsomething went wrong");
        }
        other => panic!("unexpected event: {:?}", other),
    }
    match run.on_read_error(&chars("broken pipe")) {
        FfmpegEvent::Error { message, .. } => {
            assert_eq!(
                text(&message),
                "Error reading the encoder's progress channel: broken pipe"
            );
        }
        other => panic!("unexpected event: {:?}", other),
    }
    assert!(matches!(run.on_cancelled(), FfmpegEvent::Cancelled { .. }));
}

#[test]
fn audio_wav_name_carries_job_id() {
    let name = proxy_backend::r3d::audio_wav_name(&chars("j7"));
    assert_eq!(text(&name), "proxy-gen-r3d-audio-j7.wav");
}
