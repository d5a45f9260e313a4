//! The second camera-RAW bridge pipeline.  It shares the first bridge's
//! protocol — a metadata line, then raw RGB on standard output and
//! progress lines on the error channel — and adds audio extraction into a
//! temporary WAV and debayer-quality scaling of the frame dimensions.

use vstd::prelude::*;

use crate::braw::{
    dimensions_arg, rate_arg, spec_bridge_line_event, spec_dimensions_arg, spec_rate_arg,
    spec_timecode_args, frame_percent_milli,
};
use crate::ffmpeg::{
    arg_views, is_prores, normalize_resolution, push_arg, push_arg_str, push_proxy_codec_args,
    spec_hw_init_flags, spec_is_prores, spec_normalize_resolution, spec_proxy_codec_args,
    FfmpegEvent, FfmpegEventV,
};
use crate::json::{
    parse_flat_object, scalar_obj_get, scalar_obj_map, spec_parse_flat_object, spec_skip_ws,
    Scalar,
};
use crate::protocol::{JobOptions, JobOptionsV};
use crate::text::{append_chars, append_str, chars_of, copy_range};

verus! {

/// Metadata of a RAW clip, delivered by the bridge's first line.  The
/// dimensions are the full sensor resolution; the bridge's output frames
/// shrink with the debayer quality.
#[derive(Debug, Clone)]
pub struct R3dMetadata {
    pub timecode: Vec<char>,
    pub fps_num: u32,
    pub fps_den: u32,
    pub width: u32,
    pub height: u32,
    pub frame_count: u64,
}

/// Mathematical view of [`R3dMetadata`].
#[verifier::ext_equal]
pub struct R3dMetadataV {
    pub timecode: Seq<char>,
    pub fps_num: u32,
    pub fps_den: u32,
    pub width: u32,
    pub height: u32,
    pub frame_count: u64,
}

impl View for R3dMetadata {
    type V = R3dMetadataV;

    open spec fn view(&self) -> R3dMetadataV {
        R3dMetadataV {
            timecode: self.timecode@,
            fps_num: self.fps_num,
            fps_den: self.fps_den,
            width: self.width,
            height: self.height,
            frame_count: self.frame_count,
        }
    }
}

/// The metadata described by one JSON line: the numeric fields are
/// required, the timecode defaults when missing or of another type.
/// Oversized dimension values are truncated to the field width.
pub open spec fn spec_parse_r3d_metadata(line: Seq<char>) -> Option<R3dMetadataV> {
    match spec_parse_flat_object(line, 0) {
        Some((entries, j)) => {
            if spec_skip_ws(line, j) == line.len() {
                let m = scalar_obj_map(entries);
                let timecode = if m.contains_key("timecode"@) && m["timecode"@] is Text {
                    m["timecode"@]->Text_0
                } else {
                    "00:00:00:00"@
                };
                let fps_num = crate::json::spec_obj_u64(m, "fps_num"@);
                let fps_den = crate::json::spec_obj_u64(m, "fps_den"@);
                let width = crate::json::spec_obj_u64(m, "width"@);
                let height = crate::json::spec_obj_u64(m, "height"@);
                let frame_count = crate::json::spec_obj_u64(m, "frame_count"@);
                if fps_num is Some && fps_den is Some && width is Some && height is Some
                    && frame_count is Some {
                    Some(
                        R3dMetadataV {
                            timecode,
                            fps_num: fps_num->Some_0 as u32,
                            fps_den: fps_den->Some_0 as u32,
                            width: width->Some_0 as u32,
                            height: height->Some_0 as u32,
                            frame_count: frame_count->Some_0,
                        },
                    )
                } else {
                    None
                }
            } else {
                None
            }
        },
        None => None,
    }
}

/// Parses the bridge's metadata line.
pub fn parse_metadata_json(line: &str) -> (r: Option<R3dMetadata>)
    ensures
        ({
            let sp = spec_parse_r3d_metadata(line@);
            match r {
                Some(m) => sp == Some(m@),
                None => sp is None,
            }
        }),
{
    let cs = chars_of(line);
    let s = cs.as_slice();
    let (entries, j) = match parse_flat_object(s, 0) {
        Some(p) => p,
        None => {
            return None;
        },
    };
    if crate::json::skip_ws(s, j) != s.len() {
        return None;
    }
    let timecode: Vec<char> = match scalar_obj_get(&entries, "timecode") {
        Some(v) => match v {
            Scalar::Text(t) => copy_range(t.as_slice(), 0, t.len()),
            _ => chars_of("00:00:00:00"),
        },
        None => chars_of("00:00:00:00"),
    };
    let fps_num = crate::json::obj_u64(&entries, "fps_num");
    let fps_den = crate::json::obj_u64(&entries, "fps_den");
    let width = crate::json::obj_u64(&entries, "width");
    let height = crate::json::obj_u64(&entries, "height");
    let frame_count = crate::json::obj_u64(&entries, "frame_count");
    match (fps_num, fps_den, width, height, frame_count) {
        (Some(fps_num), Some(fps_den), Some(width), Some(height), Some(frame_count)) => {
            let m = R3dMetadata {
                timecode,
                fps_num: #[verifier::truncate] (fps_num as u32),
                fps_den: #[verifier::truncate] (fps_den as u32),
                width: #[verifier::truncate] (width as u32),
                height: #[verifier::truncate] (height as u32),
                frame_count,
            };
            proof {
                let sp = spec_parse_r3d_metadata(line@);
                assert(sp->Some_0 =~= m@);
            }
            Some(m)
        },
        _ => None,
    }
}

/// ASCII letters lowered; other characters stand as themselves.
pub open spec fn spec_ascii_lower(s: Seq<char>) -> Seq<char> {
    s.map_values(
        |c: char|
            if 65 <= (c as u32) && (c as u32) <= 90 {
                (((c as u32) + 32) as u8) as char
            } else {
                c
            },
    )
}

/// Lowers ASCII letters.
pub fn ascii_lower(s: &Vec<char>) -> (r: Vec<char>)
    ensures
        r@ == spec_ascii_lower(s@),
{
    let mut r: Vec<char> = Vec::new();
    let mut i: usize = 0;
    while i < s.len()
        invariant
            i <= s@.len(),
            r@ == spec_ascii_lower(s@.subrange(0, i as int)),
        decreases s@.len() - i,
    {
        let c = s[i];
        let cu = c as u32;
        if 65 <= cu && cu <= 90 {
            r.push(((cu + 32) as u8) as char);
        } else {
            r.push(c);
        }
        proof {
            assert(r@ =~= spec_ascii_lower(s@.subrange(0, i + 1)));
        }
        i += 1;
    }
    proof {
        assert(s@.subrange(0, s@.len() as int) =~= s@);
    }
    r
}

/// Output frame dimensions after debayering: the bridge emits smaller
/// frames for the `half`, `quarter` and `eighth` qualities; anything else
/// keeps the full resolution.
pub open spec fn spec_debayer_dims(w: u32, h: u32, quality_lower: Seq<char>) -> (u32, u32) {
    if quality_lower == "half"@ {
        ((w / 2) as u32, (h / 2) as u32)
    } else if quality_lower == "quarter"@ {
        ((w / 4) as u32, (h / 4) as u32)
    } else if quality_lower == "eighth"@ {
        ((w / 8) as u32, (h / 8) as u32)
    } else {
        (w, h)
    }
}

/// Computes the bridge's output dimensions for a debayer quality, compared
/// case-insensitively.
pub fn debayer_dims(w: u32, h: u32, quality: &Vec<char>) -> (r: (u32, u32))
    ensures
        r == spec_debayer_dims(w, h, spec_ascii_lower(quality@)),
{
    let q = ascii_lower(quality);
    if crate::text::chars_eq_str(&q, "half") {
        (w / 2, h / 2)
    } else if crate::text::chars_eq_str(&q, "quarter") {
        (w / 4, h / 4)
    } else if crate::text::chars_eq_str(&q, "eighth") {
        (w / 8, h / 8)
    } else {
        (w, h)
    }
}

/// Name of the temporary WAV the bridge renders a clip's audio into.
pub open spec fn spec_audio_wav_name(job_id: Seq<char>) -> Seq<char> {
    "proxy-gen-r3d-audio-"@ + job_id + ".wav"@
}

/// Builds the temporary WAV file name for a job's extracted audio.
pub fn audio_wav_name(job_id: &Vec<char>) -> (r: Vec<char>)
    ensures
        r@ == spec_audio_wav_name(job_id@),
{
    let mut r = chars_of("proxy-gen-r3d-audio-");
    append_chars(&mut r, job_id.as_slice());
    append_str(&mut r, ".wav");
    r
}

/// Encoder arguments for a bridge-fed proxy with optional extracted audio.
/// The raw input dimensions are the debayered output dimensions; decode
/// acceleration stays off, while the encoder may still use the device.
pub open spec fn spec_build_r3d_ffmpeg_args(
    output: Seq<char>,
    o: JobOptionsV,
    meta: R3dMetadataV,
    audio: Option<Seq<char>>,
) -> Seq<Seq<char>> {
    let dims = spec_debayer_dims(meta.width, meta.height, spec_ascii_lower(
        o.r3d_debayer_quality,
    ));
    let res = match o.proxy_resolution {
        Some(r) => Some(spec_normalize_resolution(r)),
        None => None,
    };
    let hw_flags = if !spec_is_prores(o.proxy_codec) {
        spec_hw_init_flags(o.hw_accel, false)
    } else {
        Seq::empty()
    };
    let audio_input: Seq<Seq<char>> = match audio {
        Some(w) => seq!["-i"@, w, "-map"@, "0:v:0"@, "-map"@, "1:a"@],
        None => Seq::empty(),
    };
    let audio_codec: Seq<Seq<char>> = match audio {
        Some(w) => seq!["-c:a"@, "pcm_s32le"@],
        None => Seq::empty(),
    };
    seq!["-y"@, "-loglevel"@, "warning"@] + hw_flags + seq![
        "-f"@,
        "rawvideo"@,
        "-pix_fmt"@,
        "rgb24"@,
        "-s"@,
        spec_dimensions_arg(dims.0 as nat, dims.1 as nat),
        "-r"@,
        spec_rate_arg(meta.fps_num as nat, meta.fps_den as nat),
        "-i"@,
        "pipe:0"@,
    ] + audio_input + spec_proxy_codec_args(o.proxy_codec, o.hw_accel, res, false) + audio_codec
        + spec_timecode_args(meta.timecode) + seq![output]
}

/// Builds the encoder arguments for a bridge-fed proxy job with optional
/// extracted audio.
#[verifier::rlimit(100)]
pub fn build_r3d_ffmpeg_args(
    output_path: &Vec<char>,
    options: &JobOptions,
    meta: &R3dMetadata,
    audio_path: Option<&Vec<char>>,
) -> (args: Vec<Vec<char>>)
    ensures
        arg_views(args@) == spec_build_r3d_ffmpeg_args(
            output_path@,
            options@,
            meta@,
            match audio_path {
                Some(w) => Some(w@),
                None => None,
            },
        ),
{
    let mut args: Vec<Vec<char>> = Vec::new();
    push_arg_str(&mut args, "-y");
    push_arg_str(&mut args, "-loglevel");
    push_arg_str(&mut args, "warning");

    // Device init flags before the input; ProRes is always CPU.
    if !is_prores(&options.proxy_codec) {
        crate::ffmpeg::push_hw_init_flags(&mut args, &options.hw_accel, false);
    }

    // The raw RGB input at the bridge's output dimensions.
    let dims = debayer_dims(meta.width, meta.height, &options.r3d_debayer_quality);
    push_arg_str(&mut args, "-f");
    push_arg_str(&mut args, "rawvideo");
    push_arg_str(&mut args, "-pix_fmt");
    push_arg_str(&mut args, "rgb24");
    push_arg_str(&mut args, "-s");
    push_arg(&mut args, dimensions_arg(dims.0, dims.1));
    push_arg_str(&mut args, "-r");
    push_arg(&mut args, rate_arg(meta.fps_num, meta.fps_den));
    push_arg_str(&mut args, "-i");
    push_arg_str(&mut args, "pipe:0");

    // The extracted audio as a second input, mapped beside the video.
    if let Some(wav) = audio_path {
        push_arg_str(&mut args, "-i");
        push_arg(&mut args, copy_range(wav.as_slice(), 0, wav.len()));
        push_arg_str(&mut args, "-map");
        push_arg_str(&mut args, "0:v:0");
        push_arg_str(&mut args, "-map");
        push_arg_str(&mut args, "1:a");
    }

    let res: Option<Vec<char>> = match &options.proxy_resolution {
        Some(r) => Some(normalize_resolution(r)),
        None => None,
    };
    push_proxy_codec_args(&mut args, &options.proxy_codec, &options.hw_accel, res.as_ref(), false);

    if audio_path.is_some() {
        push_arg_str(&mut args, "-c:a");
        push_arg_str(&mut args, "pcm_s32le");
    }

    if meta.timecode.len() > 0 {
        push_arg_str(&mut args, "-metadata");
        let mut tc = chars_of("timecode=");
        append_chars(&mut tc, meta.timecode.as_slice());
        push_arg(&mut args, tc);
    }
    push_arg(&mut args, copy_range(output_path.as_slice(), 0, output_path.len()));
    proof {
        assert(output_path@.subrange(0, output_path@.len() as int) =~= output_path@);
        if audio_path is Some {
            let w = audio_path->Some_0;
            assert(w@.subrange(0, w@.len() as int) =~= w@);
        }
        assert(arg_views(args@) =~~= spec_build_r3d_ffmpeg_args(
            output_path@,
            options@,
            meta@,
            match audio_path {
                Some(w) => Some(w@),
                None => None,
            },
        ));
    }
    args
}

/// The deterministic core of one bridge-fed run with audio: it folds the
/// bridge's progress lines into events and decides the terminal event from
/// the two exit statuses, the bridge's taking precedence.  Process
/// management and the temporary WAV's cleanup are the caller's.
pub struct R3dRun {
    job_id: Vec<char>,
    total_frames: u64,
}

impl R3dRun {
    pub closed spec fn id(&self) -> Seq<char> {
        self.job_id@
    }

    pub closed spec fn total(&self) -> u64 {
        self.total_frames
    }

    /// A fresh run for one job.
    pub fn new(job_id: Vec<char>, total_frames: u64) -> (r: Self)
        ensures
            r.id() == job_id@,
            r.total() == total_frames,
    {
        R3dRun { job_id, total_frames }
    }

    /// Folds one line of the bridge's progress channel.
    pub fn on_stderr_line(&self, line: &str) -> (r: Option<FfmpegEvent>)
        ensures
            ({
                let sp = spec_bridge_line_event(self.id(), self.total(), line@);
                match r {
                    Some(e) => sp == Some(e@),
                    None => sp is None,
                }
            }),
    {
        let cs = chars_of(line);
        let s = cs.as_slice();
        let (entries, j) = match parse_flat_object(s, 0) {
            Some(p) => p,
            None => {
                return None;
            },
        };
        if crate::json::skip_ws(s, j) != s.len() {
            return None;
        }
        let is_progress = match scalar_obj_get(&entries, "type") {
            Some(v) => match v {
                Scalar::Text(t) => crate::text::chars_eq_str(t, "progress"),
                _ => false,
            },
            None => false,
        };
        if !is_progress {
            return None;
        }
        let frame = match crate::json::obj_u64(&entries, "frame") {
            Some(f) => f,
            None => 0,
        };
        let percent_milli = frame_percent_milli(frame, self.total_frames);
        proof {
            assert(self.job_id@.subrange(0, self.job_id@.len() as int) =~= self.job_id@);
        }
        Some(
            FfmpegEvent::Progress {
                id: copy_range(self.job_id.as_slice(), 0, self.job_id.len()),
                percent_milli,
                fps_milli: 0,
                speed_milli: 0,
                frame,
            },
        )
    }

    /// The terminal event once both children have exited: the bridge's
    /// failure takes precedence over the encoder's.
    pub fn on_finished(
        &self,
        bridge_success: bool,
        bridge_code: i32,
        ffmpeg_success: bool,
        ffmpeg_code: i32,
    ) -> (r: FfmpegEvent)
        ensures
            !bridge_success ==> (r@ matches FfmpegEventV::Error { id, message } && id == self.id()
                && message == "r3d-bridge exited with code: "@ + crate::text::spec_i64_dec(
                bridge_code as int,
            )),
            bridge_success && !ffmpeg_success ==> (r@ matches FfmpegEventV::Error { id, message }
                && id == self.id() && message == "FFmpeg exited with code: "@
                + crate::text::spec_i64_dec(ffmpeg_code as int)),
            bridge_success && ffmpeg_success ==> (r@ matches FfmpegEventV::Done { id } && id
                == self.id()),
    {
        let id = copy_range(self.job_id.as_slice(), 0, self.job_id.len());
        if !bridge_success {
            let mut message = chars_of("r3d-bridge exited with code: ");
            let digits = crate::text::i64_to_dec(bridge_code as i64);
            append_chars(&mut message, digits.as_slice());
            FfmpegEvent::Error { id, message }
        } else if !ffmpeg_success {
            let mut message = chars_of("FFmpeg exited with code: ");
            let digits = crate::text::i64_to_dec(ffmpeg_code as i64);
            append_chars(&mut message, digits.as_slice());
            FfmpegEvent::Error { id, message }
        } else {
            FfmpegEvent::Done { id }
        }
    }

    /// The terminal event when reading the bridge's progress channel
    /// failed; the caller kills and reaps both children.
    pub fn on_read_error(&self, error_text: &Vec<char>) -> (r: FfmpegEvent)
        ensures
            (r@ matches FfmpegEventV::Error { id, message } && id == self.id() && message
                == "Error reading r3d-bridge stderr: "@ + error_text@),
    {
        let mut message = chars_of("Error reading r3d-bridge stderr: ");
        append_chars(&mut message, error_text.as_slice());
        FfmpegEvent::Error {
            id: copy_range(self.job_id.as_slice(), 0, self.job_id.len()),
            message,
        }
    }

    /// The terminal event after a cancellation: the caller has stopped the
    /// bridge and awaited both children.
    pub fn on_cancelled(&self) -> (r: FfmpegEvent)
        ensures
            (r@ matches FfmpegEventV::Cancelled { id } && id == self.id()),
    {
        FfmpegEvent::Cancelled { id: copy_range(self.job_id.as_slice(), 0, self.job_id.len()) }
    }

    /// The terminal event when the bridge wrote no metadata line at all.
    pub fn on_missing_metadata(&self) -> (r: FfmpegEvent)
        ensures
            (r@ matches FfmpegEventV::Error { id, message } && id == self.id() && message
                == "r3d-bridge wrote no metadata line"@),
    {
        FfmpegEvent::Error {
            id: copy_range(self.job_id.as_slice(), 0, self.job_id.len()),
            message: chars_of("r3d-bridge wrote no metadata line"),
        }
    }
}

} // verus!
