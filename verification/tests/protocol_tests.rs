use proxy_backend::protocol::{
    parse_request, serialize_response, JobMode, JobOptions, JobState, JobStatus, Request,
    Response,
};

fn chars(s: &str) -> Vec<char> {
    s.chars().collect()
}

fn text(v: &Vec<char>) -> String {
    v.iter().collect()
}

#[test]
fn parse_add_job_request() {
    let line = "{\"type\":\"add_job\",\"id\":\"j1\",\"input_path\":\"/tmp/a.mov\",\
                \"output_dir\":\"/tmp/out\",\"mode\":\"proxy\",\
                \"options\":{\"proxy_codec\":\"h264\",\"hw_accel\":\"none\"}}";
    match parse_request(line) {
        Some(Request::AddJob { id, input_path, output_dir, mode, options }) => {
            assert_eq!(text(&id), "j1");
            assert_eq!(text(&input_path), "/tmp/a.mov");
            assert_eq!(text(&output_dir), "/tmp/out");
            assert_eq!(mode, JobMode::Proxy);
            assert_eq!(text(&options.proxy_codec), "h264");
            assert_eq!(text(&options.hw_accel), "none");
            // Unmentioned options take their defaults.
            assert_eq!(text(&options.audio_codec), "pcm_s24le");
            assert!(options.proxy_resolution.is_none());
            assert_eq!(text(&options.output_suffix), "");
            assert!(!options.skip_if_exists);
        }
        other => panic!("unexpected parse result: {:?}", other),
    }
}

#[test]
fn parse_add_job_without_options_uses_defaults() {
    let line = "{\"type\":\"add_job\",\"id\":\"a\",\"input_path\":\"/in.mov\",\
                \"output_dir\":\"/out\",\"mode\":\"re_wrap\"}";
    match parse_request(line) {
        Some(Request::AddJob { mode, options, .. }) => {
            assert_eq!(mode, JobMode::ReWrap);
            assert_eq!(text(&options.proxy_codec), "h264");
            assert_eq!(text(&options.r3d_debayer_quality), "premium");
        }
        other => panic!("unexpected parse result: {:?}", other),
    }
}

#[test]
fn parse_raw_modes() {
    let a = "{\"type\":\"add_job\",\"id\":\"r\",\"input_path\":\"/c.raw\",\
             \"output_dir\":\"/o\",\"mode\":\"raw_a_proxy\"}";
    match parse_request(a) {
        Some(Request::AddJob { mode, .. }) => assert_eq!(mode, JobMode::BrawProxy),
        other => panic!("unexpected parse result: {:?}", other),
    }
    let b = "{\"type\":\"add_job\",\"id\":\"r\",\"input_path\":\"/c.raw\",\
             \"output_dir\":\"/o\",\"mode\":\"raw_b_proxy\"}";
    match parse_request(b) {
        Some(Request::AddJob { mode, .. }) => assert_eq!(mode, JobMode::R3dProxy),
        other => panic!("unexpected parse result: {:?}", other),
    }
}

#[test]
fn parse_cancel_and_control_requests() {
    match parse_request("{\"type\":\"cancel_job\",\"id\":\"x\"}") {
        Some(Request::CancelJob { id }) => assert_eq!(text(&id), "x"),
        other => panic!("unexpected parse result: {:?}", other),
    }
    match parse_request("{\"type\":\"set_max_parallel\",\"n\":4}") {
        Some(Request::SetMaxParallel { n }) => assert_eq!(n, 4),
        other => panic!("unexpected parse result: {:?}", other),
    }
    assert!(matches!(parse_request("{\"type\":\"pause_all\"}"), Some(Request::PauseAll)));
    assert!(matches!(parse_request("{\"type\":\"resume_all\"}"), Some(Request::ResumeAll)));
    assert!(matches!(parse_request("{\"type\":\"get_status\"}"), Some(Request::GetStatus)));
    assert!(matches!(parse_request("{\"type\":\"shutdown\"}"), Some(Request::Shutdown)));
}

#[test]
fn parse_rejects_malformed_requests() {
    assert!(parse_request("").is_none());
    assert!(parse_request("not json").is_none());
    assert!(parse_request("{\"type\":\"warp_ten\"}").is_none());
    assert!(parse_request("{\"type\":\"cancel_job\"}").is_none());
    assert!(parse_request("{\"type\":\"set_max_parallel\",\"n\":-1}").is_none());
    assert!(parse_request("{\"type\":\"add_job\",\"id\":\"j\"}").is_none());
    assert!(parse_request("{\"type\":\"add_job\",\"id\":\"j\",\"input_path\":\"/a\",\
                           \"output_dir\":\"/b\",\"mode\":\"warp\"}").is_none());
    assert!(parse_request("{\"type\":\"get_status\"} trailing").is_none());
}

#[test]
fn parse_accepts_escapes_and_whitespace() {
    let line = " { \"type\" : \"cancel_job\" , \"id\" : \"a\\\"b\\\\c\\u00e9\" } ";
    match parse_request(line) {
        Some(Request::CancelJob { id }) => assert_eq!(text(&id), "a\"b\\c\u{e9}"),
        other => panic!("unexpected parse result: {:?}", other),
    }
}

#[test]
fn parse_rejects_broken_strings() {
    assert!(parse_request("{\"type\":\"cancel_job\",\"id\":\"unterminated}").is_none());
    assert!(parse_request("{\"type\":\"cancel_job\",\"id\":\"bad \\q escape\"}").is_none());
    assert!(parse_request("{\"type\":\"cancel_job\",\"id\":\"\\ud800\"}").is_none());
}

#[test]
fn parse_set_max_parallel_zero_is_accepted() {
    // The scheduler raises the stored limit to one; the wire accepts zero.
    match parse_request("{\"type\":\"set_max_parallel\",\"n\":0}") {
        Some(Request::SetMaxParallel { n }) => assert_eq!(n, 0),
        other => panic!("unexpected parse result: {:?}", other),
    }
}

#[test]
fn serialize_control_characters() {
    let e = Response::JobError { id: chars("j"), message: chars("a\tb\u{1}c") };
    assert_eq!(
        text(&serialize_response(&e)),
        "{\"type\":\"job_error\",\"id\":\"j\",\"message\":\"a\\tb\\u0001c\"}"
    );
}

#[test]
fn serialize_queued_and_done() {
    let q = Response::JobQueued { id: chars("j1") };
    assert_eq!(text(&serialize_response(&q)), "{\"type\":\"job_queued\",\"id\":\"j1\"}");
    let d = Response::JobDone { id: chars("j1") };
    assert_eq!(text(&serialize_response(&d)), "{\"type\":\"job_done\",\"id\":\"j1\"}");
}

#[test]
fn serialize_progress_fixed_point() {
    let p = Response::JobProgress {
        id: chars("j1"),
        percent_milli: 50_000,
        fps_milli: 25_000,
        speed_milli: 1_500,
        frame: 10,
    };
    assert_eq!(
        text(&serialize_response(&p)),
        "{\"type\":\"job_progress\",\"id\":\"j1\",\"percent\":50,\"fps\":25,\
         \"speed\":1.5,\"frame\":10}"
    );
}

#[test]
fn serialize_error_escapes_message() {
    let e = Response::JobError { id: chars("j"), message: chars("bad \"path\"\nline") };
    assert_eq!(
        text(&serialize_response(&e)),
        "{\"type\":\"job_error\",\"id\":\"j\",\"message\":\"bad \\\"path\\\"\\nline\"}"
    );
}

#[test]
fn serialize_status_report() {
    let r = Response::StatusReport {
        jobs: vec![
            JobStatus {
                id: chars("a"),
                input_path: chars("/in/a.mov"),
                mode: JobMode::Proxy,
                status: JobState::Running,
                percent_milli: 12_500,
            },
            JobStatus {
                id: chars("b"),
                input_path: chars("/in/b.mov"),
                mode: JobMode::ReWrap,
                status: JobState::Queued,
                percent_milli: 0,
            },
        ],
    };
    assert_eq!(
        text(&serialize_response(&r)),
        "{\"type\":\"status_report\",\"jobs\":[\
         {\"id\":\"a\",\"input_path\":\"/in/a.mov\",\"mode\":\"proxy\",\
          \"status\":\"running\",\"percent\":12.5},\
         {\"id\":\"b\",\"input_path\":\"/in/b.mov\",\"mode\":\"re_wrap\",\
          \"status\":\"queued\",\"percent\":0}]}"
    );
}

#[test]
fn default_options_round() {
    let o = JobOptions::default();
    assert_eq!(text(&o.audio_codec), "pcm_s24le");
    assert_eq!(text(&o.proxy_codec), "h264");
    assert_eq!(text(&o.hw_accel), "none");
    assert_eq!(text(&o.output_suffix), "");
    assert_eq!(text(&o.debayer_quality), "premium");
    assert!(!o.skip_if_exists);
}
