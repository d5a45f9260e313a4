use proxy_backend::ffmpeg::FfmpegEvent;
use proxy_backend::protocol::{JobMode, JobOptions, JobState, Response};
use proxy_backend::transcode::{
    bridge_total_duration_us, nvenc_full_gpu_supported, parse_duration_us, Job, JobQueue,
};

fn chars(s: &str) -> Vec<char> {
    s.chars().collect()
}

fn text(v: &Vec<char>) -> String {
    v.iter().collect()
}

fn job(id: &str) -> Job {
    Job::new(chars(id), chars("/in/clip.mov"), chars("/out"), JobMode::Proxy,
        JobOptions::default())
}

#[test]
fn add_job_announces_queued() {
    let mut q = JobQueue::new(1);
    match q.add_job(job("j1")) {
        Some(Response::JobQueued { id }) => assert_eq!(text(&id), "j1"),
        other => panic!("unexpected response: {:?}", other),
    }
    // A taken identifier admits nothing.
    assert!(q.add_job(job("j1")).is_none());
}

#[test]
fn start_respects_limit() {
    let mut q = JobQueue::new(1);
    q.add_job(job("a"));
    q.add_job(job("b"));
    assert!(q.try_start(&chars("a")));
    // Only one slot: the second job waits.
    assert!(!q.try_start(&chars("b")));
    // Raising the limit frees a slot.
    q.set_max_parallel(2);
    assert!(q.try_start(&chars("b")));
}

#[test]
fn start_blocks_while_paused() {
    let mut q = JobQueue::new(2);
    q.add_job(job("a"));
    q.pause_all();
    assert!(!q.try_start(&chars("a")));
    q.resume_all();
    assert!(q.try_start(&chars("a")));
}

#[test]
fn cancel_queued_before_running() {
    let mut q = JobQueue::new(1);
    q.add_job(job("a"));
    match q.cancel_queued(&chars("a")) {
        Some(Response::JobCancelled { id }) => assert_eq!(text(&id), "a"),
        other => panic!("unexpected response: {:?}", other),
    }
    // The job is gone; it was never running.
    assert!(!q.cancel_job(&chars("a")));
    assert!(!q.try_start(&chars("a")));
}

#[test]
fn cancel_running_job_is_not_synchronous() {
    let mut q = JobQueue::new(1);
    q.add_job(job("a"));
    assert!(q.try_start(&chars("a")));
    // A running job is cancelled through its runner, not by the table.
    assert!(q.cancel_job(&chars("a")));
    assert!(q.cancel_queued(&chars("a")).is_none());
}

#[test]
fn events_fold_into_table_and_responses() {
    let mut q = JobQueue::new(1);
    q.add_job(job("a"));
    assert!(q.try_start(&chars("a")));
    let progress = FfmpegEvent::Progress {
        id: chars("a"),
        percent_milli: 25_000,
        fps_milli: 25_000,
        speed_milli: 1_000,
        frame: 10,
    };
    match q.apply_event(&progress) {
        Some(Response::JobProgress { percent_milli, .. }) => assert_eq!(percent_milli, 25_000),
        other => panic!("unexpected response: {:?}", other),
    }
    match q.apply_event(&FfmpegEvent::Done { id: chars("a") }) {
        Some(Response::JobDone { id }) => assert_eq!(text(&id), "a"),
        other => panic!("unexpected response: {:?}", other),
    }
    // Terminal state reached: further events are not forwarded.
    assert!(q.apply_event(&FfmpegEvent::Done { id: chars("a") }).is_none());
    q.release_slot();
    q.remove_job(&chars("a"));
    assert!(!q.cancel_job(&chars("a")));
}

#[test]
fn events_for_unknown_jobs_are_dropped() {
    let mut q = JobQueue::new(1);
    assert!(q.apply_event(&FfmpegEvent::Done { id: chars("ghost") }).is_none());
}

#[test]
fn status_report_prunes_terminal_entries() {
    let mut q = JobQueue::new(2);
    q.add_job(job("a"));
    q.add_job(job("b"));
    assert!(q.try_start(&chars("a")));
    q.apply_event(&FfmpegEvent::Error { id: chars("a"), message: chars("boom") });
    match q.get_status() {
        Response::StatusReport { jobs } => {
            assert_eq!(jobs.len(), 1);
            assert_eq!(text(&jobs[0].id), "b");
            assert_eq!(jobs[0].status, JobState::Queued);
        }
        other => panic!("unexpected response: {:?}", other),
    }
}

#[test]
fn pause_resume_preserves_running_set() {
    let mut q = JobQueue::new(2);
    q.add_job(job("a"));
    q.add_job(job("b"));
    assert!(q.try_start(&chars("a")));
    let before = match q.get_status() {
        Response::StatusReport { jobs } => jobs,
        _ => unreachable!(),
    };
    q.pause_all();
    q.resume_all();
    let after = match q.get_status() {
        Response::StatusReport { jobs } => jobs,
        _ => unreachable!(),
    };
    assert_eq!(before.len(), after.len());
    for (x, y) in before.iter().zip(after.iter()) {
        assert_eq!(text(&x.id), text(&y.id));
        assert_eq!(x.status, y.status);
        assert_eq!(x.percent_milli, y.percent_milli);
    }
}

#[test]
fn three_jobs_two_slots() {
    let mut q = JobQueue::new(1);
    q.add_job(job("a"));
    q.add_job(job("b"));
    q.add_job(job("c"));
    q.set_max_parallel(2);
    assert!(q.try_start(&chars("a")));
    assert!(q.try_start(&chars("b")));
    assert!(!q.try_start(&chars("c")));
    q.set_max_parallel(3);
    assert!(q.try_start(&chars("c")));
}

#[test]
fn set_max_parallel_twice_is_once() {
    let mut once = JobQueue::new(1);
    once.add_job(job("a"));
    once.set_max_parallel(4);
    let mut twice = JobQueue::new(1);
    twice.add_job(job("a"));
    twice.set_max_parallel(4);
    twice.set_max_parallel(4);
    // The two schedulers behave identically afterwards.
    assert!(once.try_start(&chars("a")) && twice.try_start(&chars("a")));
    let a = match once.get_status() {
        Response::StatusReport { jobs } => jobs,
        _ => unreachable!(),
    };
    let b = match twice.get_status() {
        Response::StatusReport { jobs } => jobs,
        _ => unreachable!(),
    };
    assert_eq!(a.len(), b.len());
    for (x, y) in a.iter().zip(b.iter()) {
        assert_eq!(text(&x.id), text(&y.id));
        assert_eq!(x.status, y.status);
    }
}

#[test]
fn limit_below_one_is_raised_to_one() {
    let mut q = JobQueue::new(0);
    q.add_job(job("a"));
    assert!(q.try_start(&chars("a")));
    q.set_max_parallel(0);
    q.add_job(job("b"));
    assert!(!q.try_start(&chars("b")));
    q.release_slot();
    q.remove_job(&chars("a"));
    assert!(q.try_start(&chars("b")));
}

#[test]
fn one_job_event_stream_shape() {
    let mut q = JobQueue::new(1);
    let mut stream: Vec<Response> = Vec::new();
    if let Some(r) = q.add_job(job("a")) {
        stream.push(r);
    }
    assert!(q.try_start(&chars("a")));
    for frame in [1u64, 2, 3] {
        let ev = FfmpegEvent::Progress {
            id: chars("a"),
            percent_milli: (frame as u32) * 10_000,
            fps_milli: 24_000,
            speed_milli: 1_000,
            frame,
        };
        if let Some(r) = q.apply_event(&ev) {
            stream.push(r);
        }
    }
    if let Some(r) = q.apply_event(&FfmpegEvent::Done { id: chars("a") }) {
        stream.push(r);
    }
    // The stream is the queued event, progress, then one terminal event.
    assert_eq!(stream.len(), 5);
    assert!(matches!(stream[0], Response::JobQueued { .. }));
    assert!(matches!(stream[1], Response::JobProgress { .. }));
    assert!(matches!(stream[3], Response::JobProgress { .. }));
    assert!(matches!(stream[4], Response::JobDone { .. }));
}

#[test]
fn output_path_shapes() {
    let mut j = job("a");
    j.options.output_suffix = chars("_proxy");
    assert_eq!(text(&j.output_path()), "/out/clip_proxy.mov");
    j.options.output_subfolder = chars("proxies");
    assert_eq!(text(&j.output_path()), "/out/proxies/clip_proxy.mov");
    j.options.proxy_codec = chars("av1");
    assert_eq!(text(&j.output_path()), "/out/proxies/clip_proxy.mp4");
    let mut rewrap = job("b");
    rewrap.mode = JobMode::ReWrap;
    rewrap.options.proxy_codec = chars("av1");
    assert_eq!(text(&rewrap.output_path()), "/out/clip.mov");
}

#[test]
fn duration_figure_parses_to_microseconds() {
    assert_eq!(parse_duration_us("123.456789"), Some(123_456_789));
    assert_eq!(parse_duration_us("0.5"), Some(500_000));
    assert_eq!(parse_duration_us("10"), Some(10_000_000));
    assert_eq!(parse_duration_us(" 2.25 \n"), Some(2_250_000));
    assert_eq!(parse_duration_us("1.2345678"), Some(1_234_567));
    assert_eq!(parse_duration_us(""), None);
    assert_eq!(parse_duration_us("abc"), None);
    assert_eq!(parse_duration_us("1.2.3"), None);
}

#[test]
fn bridge_duration_formula() {
    assert_eq!(bridge_total_duration_us(240, 24, 1), 10_000_000);
    assert_eq!(bridge_total_duration_us(240, 24000, 1001), 10_010_000);
    assert_eq!(bridge_total_duration_us(240, 0, 1), 0);
}

#[test]
fn full_gpu_pixel_format_safe_list() {
    assert!(nvenc_full_gpu_supported(&chars("yuv420p")));
    assert!(nvenc_full_gpu_supported(&chars("p010le")));
    assert!(nvenc_full_gpu_supported(&chars("yuv420p12le")));
    assert!(!nvenc_full_gpu_supported(&chars("p210le")));
    assert!(!nvenc_full_gpu_supported(&chars("")));
}
