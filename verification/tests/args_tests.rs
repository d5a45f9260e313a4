use proxy_backend::braw::{build_braw_ffmpeg_args, BrawMetadata};
use proxy_backend::ffmpeg::{build_ffmpeg_args, is_prores, normalize_resolution};
use proxy_backend::protocol::{JobMode, JobOptions};
use proxy_backend::r3d::{build_r3d_ffmpeg_args, R3dMetadata};

fn chars(s: &str) -> Vec<char> {
    s.chars().collect()
}

fn texts(args: &Vec<Vec<char>>) -> Vec<String> {
    args.iter().map(|a| a.iter().collect()).collect()
}

#[test]
fn prores_identifiers() {
    assert!(is_prores(&chars("prores_proxy")));
    assert!(is_prores(&chars("prores_lt")));
    assert!(is_prores(&chars("prores_422")));
    assert!(is_prores(&chars("prores_hq")));
    assert!(!is_prores(&chars("h264")));
    assert!(!is_prores(&chars("")));
}

#[test]
fn resolution_separator() {
    let r: String = normalize_resolution(&chars("1920x1080")).iter().collect();
    assert_eq!(r, "1920:1080");
}

#[test]
fn rewrap_args() {
    let opts = JobOptions::default();
    let args = build_ffmpeg_args(&chars("/in/c.mxf"), &chars("/out/c.mov"), &JobMode::ReWrap,
        &opts, false);
    assert_eq!(
        texts(&args),
        vec![
            "-y", "-loglevel", "warning", "-i", "/in/c.mxf", "-map", "0:v:0", "-map", "0:a",
            "-map_metadata", "0", "-c:v", "copy", "-c:a", "pcm_s24le", "-progress", "pipe:2",
            "/out/c.mov",
        ]
    );
}

#[test]
fn proxy_software_h264_args() {
    let mut opts = JobOptions::default();
    opts.proxy_resolution = Some(chars("1920x1080"));
    let args = build_ffmpeg_args(&chars("/in/c.mov"), &chars("/out/c.mov"), &JobMode::Proxy,
        &opts, false);
    assert_eq!(
        texts(&args),
        vec![
            "-y", "-loglevel", "warning", "-i", "/in/c.mov", "-map", "0:v:0", "-map", "0:a",
            "-map_metadata", "0", "-c:v", "libx264", "-crf", "23", "-preset", "fast",
            "-pix_fmt", "yuv420p", "-vf", "scale=1920:1080", "-c:a", "pcm_s16le", "-progress",
            "pipe:2", "/out/c.mov",
        ]
    );
}

#[test]
fn proxy_nvenc_full_gpu_args() {
    let mut opts = JobOptions::default();
    opts.hw_accel = chars("nvenc");
    opts.proxy_resolution = Some(chars("1280x720"));
    let args = build_ffmpeg_args(&chars("/in/c.mov"), &chars("/out/c.mov"), &JobMode::Proxy,
        &opts, true);
    assert_eq!(
        texts(&args),
        vec![
            "-y", "-init_hw_device", "cuda=cuda:0", "-filter_hw_device", "cuda", "-hwaccel",
            "cuda", "-hwaccel_device", "cuda", "-hwaccel_output_format", "cuda", "-loglevel",
            "warning", "-i", "/in/c.mov", "-map", "0:v:0", "-map", "0:a", "-map_metadata",
            "0", "-c:v", "h264_nvenc", "-preset", "p4", "-rc", "constqp", "-qp", "23", "-vf",
            "scale_cuda=1280:720", "-c:a", "pcm_s16le", "-progress", "pipe:2", "/out/c.mov",
        ]
    );
}

#[test]
fn proxy_vaapi_hevc_args() {
    let mut opts = JobOptions::default();
    opts.proxy_codec = chars("h265");
    opts.hw_accel = chars("vaapi");
    let args = build_ffmpeg_args(&chars("/a.mov"), &chars("/b.mov"), &JobMode::Proxy, &opts,
        false);
    assert_eq!(
        texts(&args),
        vec![
            "-y", "-vaapi_device", "/dev/dri/renderD128", "-loglevel", "warning", "-i",
            "/a.mov", "-map", "0:v:0", "-map", "0:a", "-map_metadata", "0", "-c:v",
            "hevc_vaapi", "-rc_mode", "CQP", "-qp", "23", "-vf", "format=nv12,hwupload",
            "-c:a", "pcm_s16le", "-progress", "pipe:2", "/b.mov",
        ]
    );
}

#[test]
fn proxy_prores_args_skip_accel_flags() {
    let mut opts = JobOptions::default();
    opts.proxy_codec = chars("prores_hq");
    opts.hw_accel = chars("nvenc");
    let args = build_ffmpeg_args(&chars("/a.mov"), &chars("/b.mov"), &JobMode::Proxy, &opts,
        true);
    assert_eq!(
        texts(&args),
        vec![
            "-y", "-loglevel", "warning", "-i", "/a.mov", "-map", "0:v:0", "-map", "0:a",
            "-map_metadata", "0", "-c:v", "prores_ks", "-profile:v", "3", "-pix_fmt",
            "yuv422p10le", "-c:a", "pcm_s16le", "-progress", "pipe:2", "/b.mov",
        ]
    );
}

#[test]
fn braw_args_use_metadata_dimensions() {
    let meta = BrawMetadata {
        timecode: chars("01:02:03:04"),
        fps_num: 24000,
        fps_den: 1001,
        width: 4096,
        height: 2160,
        frame_count: 240,
    };
    let opts = JobOptions::default();
    let args = build_braw_ffmpeg_args(&chars("/out/p.mov"), &opts, &meta);
    assert_eq!(
        texts(&args),
        vec![
            "-y", "-loglevel", "warning", "-f", "rawvideo", "-pix_fmt", "rgb24", "-s",
            "4096x2160", "-r", "24000/1001", "-i", "pipe:0", "-c:v", "libx264", "-crf", "23",
            "-preset", "fast", "-pix_fmt", "yuv420p", "-metadata", "timecode=01:02:03:04",
            "/out/p.mov",
        ]
    );
}

#[test]
fn r3d_args_scale_dimensions_and_map_audio() {
    let meta = R3dMetadata {
        timecode: chars(""),
        fps_num: 24,
        fps_den: 1,
        width: 8192,
        height: 4320,
        frame_count: 100,
    };
    let mut opts = JobOptions::default();
    opts.r3d_debayer_quality = chars("Half");
    let wav = chars("/tmp/audio.wav");
    let args = build_r3d_ffmpeg_args(&chars("/out/p.mov"), &opts, &meta, Some(&wav));
    assert_eq!(
        texts(&args),
        vec![
            "-y", "-loglevel", "warning", "-f", "rawvideo", "-pix_fmt", "rgb24", "-s",
            "4096x2160", "-r", "24/1", "-i", "pipe:0", "-i", "/tmp/audio.wav", "-map",
            "0:v:0", "-map", "1:a", "-c:v", "libx264", "-crf", "23", "-preset", "fast",
            "-pix_fmt", "yuv420p", "-c:a", "pcm_s32le", "/out/p.mov",
        ]
    );
}

#[test]
fn error_message_includes_log_tail() {
    let tail = vec![chars("first warning"), chars("second warning")];
    let m: String = proxy_backend::ffmpeg::build_error_message(1, &tail).iter().collect();
    assert_eq!(m, "FFmpeg exited with code: 1\n\nfirst warning\nsecond warning");
    let empty: Vec<Vec<char>> = Vec::new();
    let m2: String = proxy_backend::ffmpeg::build_error_message(-1, &empty).iter().collect();
    assert_eq!(m2, "FFmpeg exited with code: -1");
}
