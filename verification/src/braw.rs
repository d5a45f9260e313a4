//! The first camera-RAW bridge pipeline: metadata probing, encoder
//! argument construction for the raw RGB stream the bridge writes, and the
//! folding of the bridge's progress lines into events.
//!
//! The bridge binary itself is spawned by the process layer around the
//! library; this module holds every decision that run makes.

use vstd::prelude::*;

use crate::ffmpeg::{
    arg_views, spec_proxy_codec_args, spec_normalize_resolution, push_proxy_codec_args,
    normalize_resolution, FfmpegEvent, FfmpegEventV,
};
use crate::json::{
    parse_flat_object, scalar_obj_get, scalar_obj_map, spec_parse_flat_object, spec_skip_ws,
    Scalar, ScalarV,
};
use crate::protocol::JobOptions;
use crate::text::{append_chars, chars_of, copy_range, spec_u64_dec, u64_to_dec};

verus! {

/// Metadata of a RAW clip, delivered by the bridge's first line.
#[derive(Debug, Clone)]
pub struct BrawMetadata {
    pub timecode: Vec<char>,
    pub fps_num: u32,
    pub fps_den: u32,
    pub width: u32,
    pub height: u32,
    pub frame_count: u64,
}

/// Mathematical view of [`BrawMetadata`].
#[verifier::ext_equal]
pub struct BrawMetadataV {
    pub timecode: Seq<char>,
    pub fps_num: u32,
    pub fps_den: u32,
    pub width: u32,
    pub height: u32,
    pub frame_count: u64,
}

impl View for BrawMetadata {
    type V = BrawMetadataV;

    open spec fn view(&self) -> BrawMetadataV {
        BrawMetadataV {
            timecode: self.timecode@,
            fps_num: self.fps_num,
            fps_den: self.fps_den,
            width: self.width,
            height: self.height,
            frame_count: self.frame_count,
        }
    }
}

/// The metadata described by one JSON line: the numeric fields are
/// required, the timecode defaults when missing or of another type.
/// Oversized dimension values are truncated to the field width.
pub open spec fn spec_parse_braw_metadata(line: Seq<char>) -> Option<BrawMetadataV> {
    match spec_parse_flat_object(line, 0) {
        Some((entries, j)) => {
            if spec_skip_ws(line, j) == line.len() {
                let m = scalar_obj_map(entries);
                let timecode = if m.contains_key("timecode"@) && m["timecode"@] is Text {
                    m["timecode"@]->Text_0
                } else {
                    "00:00:00:00"@
                };
                let fps_num = crate::json::spec_obj_u64(m, "fps_num"@);
                let fps_den = crate::json::spec_obj_u64(m, "fps_den"@);
                let width = crate::json::spec_obj_u64(m, "width"@);
                let height = crate::json::spec_obj_u64(m, "height"@);
                let frame_count = crate::json::spec_obj_u64(m, "frame_count"@);
                if fps_num is Some && fps_den is Some && width is Some && height is Some
                    && frame_count is Some {
                    Some(
                        BrawMetadataV {
                            timecode,
                            fps_num: fps_num->Some_0 as u32,
                            fps_den: fps_den->Some_0 as u32,
                            width: width->Some_0 as u32,
                            height: height->Some_0 as u32,
                            frame_count: frame_count->Some_0,
                        },
                    )
                } else {
                    None
                }
            } else {
                None
            }
        },
        None => None,
    }
}

/// Parses the bridge's metadata line.
pub fn parse_metadata_json(line: &str) -> (r: Option<BrawMetadata>)
    ensures
        ({
            let sp = spec_parse_braw_metadata(line@);
            match r {
                Some(m) => sp == Some(m@),
                None => sp is None,
            }
        }),
{
    let cs = chars_of(line);
    let s = cs.as_slice();
    let (entries, j) = match parse_flat_object(s, 0) {
        Some(p) => p,
        None => {
            return None;
        },
    };
    if crate::json::skip_ws(s, j) != s.len() {
        return None;
    }
    let timecode: Vec<char> = match scalar_obj_get(&entries, "timecode") {
        Some(v) => match v {
            Scalar::Text(t) => copy_range(t.as_slice(), 0, t.len()),
            _ => chars_of("00:00:00:00"),
        },
        None => chars_of("00:00:00:00"),
    };
    let fps_num = crate::json::obj_u64(&entries, "fps_num");
    let fps_den = crate::json::obj_u64(&entries, "fps_den");
    let width = crate::json::obj_u64(&entries, "width");
    let height = crate::json::obj_u64(&entries, "height");
    let frame_count = crate::json::obj_u64(&entries, "frame_count");
    match (fps_num, fps_den, width, height, frame_count) {
        (Some(fps_num), Some(fps_den), Some(width), Some(height), Some(frame_count)) => {
            let m = BrawMetadata {
                timecode,
                fps_num: #[verifier::truncate] (fps_num as u32),
                fps_den: #[verifier::truncate] (fps_den as u32),
                width: #[verifier::truncate] (width as u32),
                height: #[verifier::truncate] (height as u32),
                frame_count,
            };
            proof {
                let sp = spec_parse_braw_metadata(line@);
                assert(sp->Some_0 =~= m@);
            }
            Some(m)
        },
        _ => None,
    }
}

/// `W` and `H` joined with an `x`, as the encoder's size argument expects.
pub open spec fn spec_dimensions_arg(w: nat, h: nat) -> Seq<char> {
    spec_u64_dec(w) + seq!['x'] + spec_u64_dec(h)
}

/// `N` and `D` joined with a slash, as the encoder's rate argument expects.
pub open spec fn spec_rate_arg(num: nat, den: nat) -> Seq<char> {
    spec_u64_dec(num) + seq!['/'] + spec_u64_dec(den)
}

/// Builds a `WxH` size argument.
pub fn dimensions_arg(w: u32, h: u32) -> (r: Vec<char>)
    ensures
        r@ == spec_dimensions_arg(w as nat, h as nat),
{
    let mut r = u64_to_dec(w as u64);
    r.push('x');
    let hd = u64_to_dec(h as u64);
    append_chars(&mut r, hd.as_slice());
    proof {
        assert(r@ =~= spec_dimensions_arg(w as nat, h as nat));
    }
    r
}

/// Builds an `N/D` rate argument.
pub fn rate_arg(num: u32, den: u32) -> (r: Vec<char>)
    ensures
        r@ == spec_rate_arg(num as nat, den as nat),
{
    let mut r = u64_to_dec(num as u64);
    r.push('/');
    let dd = u64_to_dec(den as u64);
    append_chars(&mut r, dd.as_slice());
    proof {
        assert(r@ =~= spec_rate_arg(num as nat, den as nat));
    }
    r
}

/// The timecode metadata block, present when the timecode is non-empty.
pub open spec fn spec_timecode_args(tc: Seq<char>) -> Seq<Seq<char>> {
    if tc.len() == 0 {
        Seq::empty()
    } else {
        seq!["-metadata"@, "timecode="@ + tc]
    }
}

/// Encoder arguments for a proxy fed by the bridge's raw RGB stream on its
/// standard input.  Hardware-accelerated decode stays off: the input is
/// already decoded pixels.
pub open spec fn spec_build_braw_ffmpeg_args(
    output: Seq<char>,
    o: crate::protocol::JobOptionsV,
    meta: BrawMetadataV,
) -> Seq<Seq<char>> {
    let res = match o.proxy_resolution {
        Some(r) => Some(spec_normalize_resolution(r)),
        None => None,
    };
    seq![
        "-y"@,
        "-loglevel"@,
        "warning"@,
        "-f"@,
        "rawvideo"@,
        "-pix_fmt"@,
        "rgb24"@,
        "-s"@,
        spec_dimensions_arg(meta.width as nat, meta.height as nat),
        "-r"@,
        spec_rate_arg(meta.fps_num as nat, meta.fps_den as nat),
        "-i"@,
        "pipe:0"@,
    ] + spec_proxy_codec_args(o.proxy_codec, "none"@, res, false) + spec_timecode_args(
        meta.timecode,
    ) + seq![output]
}

/// Builds the encoder arguments for a bridge-fed proxy job.
pub fn build_braw_ffmpeg_args(
    output_path: &Vec<char>,
    options: &JobOptions,
    meta: &BrawMetadata,
) -> (args: Vec<Vec<char>>)
    ensures
        arg_views(args@) == spec_build_braw_ffmpeg_args(output_path@, options@, meta@),
{
    let mut args: Vec<Vec<char>> = Vec::new();
    // Overwrite, quiet log, and the raw RGB input the bridge streams.
    crate::ffmpeg::push_arg(&mut args, chars_of("-y"));
    crate::ffmpeg::push_arg(&mut args, chars_of("-loglevel"));
    crate::ffmpeg::push_arg(&mut args, chars_of("warning"));
    crate::ffmpeg::push_arg(&mut args, chars_of("-f"));
    crate::ffmpeg::push_arg(&mut args, chars_of("rawvideo"));
    crate::ffmpeg::push_arg(&mut args, chars_of("-pix_fmt"));
    crate::ffmpeg::push_arg(&mut args, chars_of("rgb24"));
    crate::ffmpeg::push_arg(&mut args, chars_of("-s"));
    crate::ffmpeg::push_arg(&mut args, dimensions_arg(meta.width, meta.height));
    crate::ffmpeg::push_arg(&mut args, chars_of("-r"));
    crate::ffmpeg::push_arg(&mut args, rate_arg(meta.fps_num, meta.fps_den));
    crate::ffmpeg::push_arg(&mut args, chars_of("-i"));
    crate::ffmpeg::push_arg(&mut args, chars_of("pipe:0"));
    // The shared codec block, with hardware-accelerated decode off.
    let res: Option<Vec<char>> = match &options.proxy_resolution {
        Some(r) => Some(normalize_resolution(r)),
        None => None,
    };
    let none_accel = chars_of("none");
    push_proxy_codec_args(&mut args, &options.proxy_codec, &none_accel, res.as_ref(), false);
    // Container-level timecode.
    if meta.timecode.len() > 0 {
        crate::ffmpeg::push_arg(&mut args, chars_of("-metadata"));
        let mut tc = chars_of("timecode=");
        append_chars(&mut tc, meta.timecode.as_slice());
        crate::ffmpeg::push_arg(&mut args, tc);
    }
    crate::ffmpeg::push_arg(&mut args, copy_range(output_path.as_slice(), 0, output_path.len()));
    proof {
        assert(output_path@.subrange(0, output_path@.len() as int) =~= output_path@);
        assert(arg_views(args@) =~~= spec_build_braw_ffmpeg_args(output_path@, options@, meta@));
    }
    args
}

/// Frame progress as thousandths of a percent of the total frame count,
/// clamped to one hundred percent; zero when the count is unknown.
pub open spec fn spec_frame_percent_milli(frame: u64, total: u64) -> int {
    if total == 0 {
        0
    } else if frame * 100_000 / (total as int) > 100_000 {
        100_000
    } else {
        frame * 100_000 / (total as int)
    }
}

/// Computes the clamped frame percentage in thousandths of a percent.
pub fn frame_percent_milli(frame: u64, total: u64) -> (r: u32)
    ensures
        r == spec_frame_percent_milli(frame, total),
        r <= 100_000,
{
    if total == 0 {
        return 0;
    }
    let q: u128 = (frame as u128) * 100_000 / (total as u128);
    proof {
        vstd::arithmetic::div_mod::lemma_div_pos_is_pos(frame as int * 100_000, total as int);
    }
    if q > 100_000 {
        100_000
    } else {
        q as u32
    }
}

/// The event a line of the bridge's progress channel yields: a progress
/// event for a flat `progress` object, nothing for anything else.
pub open spec fn spec_bridge_line_event(
    id: Seq<char>,
    total_frames: u64,
    line: Seq<char>,
) -> Option<FfmpegEventV> {
    match spec_parse_flat_object(line, 0) {
        Some((entries, j)) => {
            if spec_skip_ws(line, j) == line.len() {
                let m = scalar_obj_map(entries);
                if m.contains_key("type"@) && m["type"@] == ScalarV::Text("progress"@) {
                    let frame = match crate::json::spec_obj_u64(m, "frame"@) {
                        Some(f) => f,
                        None => 0,
                    };
                    Some(
                        FfmpegEventV::Progress {
                            id: id,
                            percent_milli: spec_frame_percent_milli(frame, total_frames) as u32,
                            fps_milli: 0,
                            speed_milli: 0,
                            frame: frame,
                        },
                    )
                } else {
                    None
                }
            } else {
                None
            }
        },
        None => None,
    }
}

/// The deterministic core of one bridge-fed run: it folds the bridge's
/// progress lines into events and decides the terminal event from the two
/// exit statuses, the bridge's taking precedence.  Process management is
/// the caller's.
pub struct BrawRun {
    job_id: Vec<char>,
    total_frames: u64,
}

impl BrawRun {
    pub closed spec fn id(&self) -> Seq<char> {
        self.job_id@
    }

    pub closed spec fn total(&self) -> u64 {
        self.total_frames
    }

    /// A fresh run for one job.
    pub fn new(job_id: Vec<char>, total_frames: u64) -> (r: Self)
        ensures
            r.id() == job_id@,
            r.total() == total_frames,
    {
        BrawRun { job_id, total_frames }
    }

    /// Folds one line of the bridge's progress channel.
    pub fn on_stderr_line(&self, line: &str) -> (r: Option<FfmpegEvent>)
        ensures
            ({
                let sp = spec_bridge_line_event(self.id(), self.total(), line@);
                match r {
                    Some(e) => sp == Some(e@),
                    None => sp is None,
                }
            }),
    {
        let cs = chars_of(line);
        let s = cs.as_slice();
        let (entries, j) = match parse_flat_object(s, 0) {
            Some(p) => p,
            None => {
                return None;
            },
        };
        if crate::json::skip_ws(s, j) != s.len() {
            return None;
        }
        let is_progress = match scalar_obj_get(&entries, "type") {
            Some(v) => match v {
                Scalar::Text(t) => crate::text::chars_eq_str(t, "progress"),
                _ => false,
            },
            None => false,
        };
        if !is_progress {
            return None;
        }
        let frame = match crate::json::obj_u64(&entries, "frame") {
            Some(f) => f,
            None => 0,
        };
        let percent_milli = frame_percent_milli(frame, self.total_frames);
        proof {
            assert(self.job_id@.subrange(0, self.job_id@.len() as int) =~= self.job_id@);
        }
        Some(
            FfmpegEvent::Progress {
                id: copy_range(self.job_id.as_slice(), 0, self.job_id.len()),
                percent_milli,
                fps_milli: 0,
                speed_milli: 0,
                frame,
            },
        )
    }

    /// The terminal event once both children have exited: the bridge's
    /// failure takes precedence over the encoder's.
    pub fn on_finished(
        &self,
        bridge_success: bool,
        bridge_code: i32,
        ffmpeg_success: bool,
        ffmpeg_code: i32,
    ) -> (r: FfmpegEvent)
        ensures
            !bridge_success ==> (r@ matches FfmpegEventV::Error { id, message } && id == self.id()
                && message == "braw-bridge exited with code: "@ + crate::text::spec_i64_dec(
                bridge_code as int,
            )),
            bridge_success && !ffmpeg_success ==> (r@ matches FfmpegEventV::Error { id, message }
                && id == self.id() && message == "FFmpeg exited with code: "@
                + crate::text::spec_i64_dec(ffmpeg_code as int)),
            bridge_success && ffmpeg_success ==> (r@ matches FfmpegEventV::Done { id } && id
                == self.id()),
    {
        let id = copy_range(self.job_id.as_slice(), 0, self.job_id.len());
        if !bridge_success {
            let mut message = chars_of("braw-bridge exited with code: ");
            let digits = crate::text::i64_to_dec(bridge_code as i64);
            append_chars(&mut message, digits.as_slice());
            FfmpegEvent::Error { id, message }
        } else if !ffmpeg_success {
            let mut message = chars_of("FFmpeg exited with code: ");
            let digits = crate::text::i64_to_dec(ffmpeg_code as i64);
            append_chars(&mut message, digits.as_slice());
            FfmpegEvent::Error { id, message }
        } else {
            FfmpegEvent::Done { id }
        }
    }

    /// The terminal event when reading the bridge's progress channel
    /// failed; the caller kills and reaps both children.
    pub fn on_read_error(&self, error_text: &Vec<char>) -> (r: FfmpegEvent)
        ensures
            (r@ matches FfmpegEventV::Error { id, message } && id == self.id() && message
                == "Error reading braw-bridge stderr: "@ + error_text@),
    {
        let mut message = chars_of("Error reading braw-bridge stderr: ");
        append_chars(&mut message, error_text.as_slice());
        FfmpegEvent::Error {
            id: copy_range(self.job_id.as_slice(), 0, self.job_id.len()),
            message,
        }
    }

    /// The terminal event after a cancellation: the caller has stopped the
    /// bridge and awaited both children.
    pub fn on_cancelled(&self) -> (r: FfmpegEvent)
        ensures
            (r@ matches FfmpegEventV::Cancelled { id } && id == self.id()),
    {
        FfmpegEvent::Cancelled { id: copy_range(self.job_id.as_slice(), 0, self.job_id.len()) }
    }

    /// The terminal event when the bridge wrote no metadata line at all.
    pub fn on_missing_metadata(&self) -> (r: FfmpegEvent)
        ensures
            (r@ matches FfmpegEventV::Error { id, message } && id == self.id() && message
                == "braw-bridge wrote no metadata line"@),
    {
        FfmpegEvent::Error {
            id: copy_range(self.job_id.as_slice(), 0, self.job_id.len()),
            message: chars_of("braw-bridge wrote no metadata line"),
        }
    }
}

} // verus!
