//! Encoder argument construction.
//!
//! The argument order is load-bearing: overwrite flag first; for proxy mode
//! the hardware-acceleration init flags before the input; then log level,
//! input, stream mapping, the mode-specific codec block, progress reporting,
//! and the output path last.

use vstd::prelude::*;

use crate::progress::{
    calculate_progress, spec_calculate_progress, spec_feed_line, FfmpegProgress, ProgressParser,
};
use crate::protocol::{JobMode, JobOptions, JobOptionsV};
use crate::text::{
    append_chars, append_str, chars_eq_str, chars_of, copy_range, i64_to_dec, spec_i64_dec,
};

verus! {

/// The four ProRes codec identifiers accepted on the wire.
pub open spec fn spec_is_prores(codec: Seq<char>) -> bool {
    codec == "prores_proxy"@ || codec == "prores_lt"@ || codec == "prores_422"@
        || codec == "prores_hq"@
}

/// True when the codec identifier names one of the ProRes quality tiers.
pub fn is_prores(codec: &Vec<char>) -> (r: bool)
    ensures
        r == spec_is_prores(codec@),
{
    chars_eq_str(codec, "prores_proxy") || chars_eq_str(codec, "prores_lt")
        || chars_eq_str(codec, "prores_422") || chars_eq_str(codec, "prores_hq")
}

/// `WxH` written with the separator the encoder's scale filters expect:
/// every `x` becomes `:`.
pub open spec fn spec_normalize_resolution(s: Seq<char>) -> Seq<char> {
    s.map_values(|c: char| if c == 'x' { ':' } else { c })
}

/// Normalizes a resolution for the encoder: `1920x1080` becomes `1920:1080`.
pub fn normalize_resolution(res: &Vec<char>) -> (r: Vec<char>)
    ensures
        r@ == spec_normalize_resolution(res@),
{
    let mut r: Vec<char> = Vec::new();
    let mut i: usize = 0;
    while i < res.len()
        invariant
            i <= res@.len(),
            r@ == spec_normalize_resolution(res@.subrange(0, i as int)),
        decreases res@.len() - i,
    {
        let c = res[i];
        if c == 'x' {
            r.push(':');
        } else {
            r.push(c);
        }
        proof {
            assert(r@ =~= spec_normalize_resolution(res@.subrange(0, i + 1)));
        }
        i += 1;
    }
    proof {
        assert(res@.subrange(0, res@.len() as int) =~= res@);
    }
    r
}

/// Views of an argument vector.
pub open spec fn arg_views(a: Seq<Vec<char>>) -> Seq<Seq<char>> {
    a.map_values(|v: Vec<char>| v@)
}

/// Appends one literal argument.
pub fn push_arg_str(args: &mut Vec<Vec<char>>, s: &str)
    ensures
        arg_views(final(args)@) == arg_views(old(args)@).push(s@),
{
    args.push(chars_of(s));
    proof {
        assert(arg_views(args@) =~= arg_views(old(args)@).push(s@));
    }
}

/// Appends one built argument.
pub fn push_arg(args: &mut Vec<Vec<char>>, a: Vec<char>)
    ensures
        arg_views(final(args)@) == arg_views(old(args)@).push(a@),
{
    let ghost av = a@;
    args.push(a);
    proof {
        assert(arg_views(args@) =~= arg_views(old(args)@).push(av));
    }
}

/// The video-filter argument of the VAAPI encoders.
pub open spec fn spec_vaapi_filter(res: Option<Seq<char>>) -> Seq<char> {
    match res {
        Some(r) => "format=nv12,hwupload,scale_vaapi="@ + r,
        None => "format=nv12,hwupload"@,
    }
}

/// Arguments of the VAAPI encoders: constant-quality mode and an upload
/// filter, with optional scaling.
pub open spec fn spec_vaapi_args(codec: Seq<char>, res: Option<Seq<char>>) -> Seq<Seq<char>> {
    seq!["-c:v"@, codec, "-rc_mode"@, "CQP"@, "-qp"@, "23"@, "-vf"@, spec_vaapi_filter(res)]
}

/// VAAPI encoder block; the filter uploads frames and optionally scales
/// on the device.
fn push_vaapi(args: &mut Vec<Vec<char>>, codec: &str, resolution: Option<&Vec<char>>)
    ensures
        arg_views(final(args)@) == arg_views(old(args)@) + spec_vaapi_args(
            codec@,
            match resolution {
                Some(r) => Some(r@),
                None => None,
            },
        ),
{
    push_arg_str(args, "-c:v");
    push_arg_str(args, codec);
    push_arg_str(args, "-rc_mode");
    push_arg_str(args, "CQP");
    push_arg_str(args, "-qp");
    push_arg_str(args, "23");
    push_arg_str(args, "-vf");
    match resolution {
        Some(res) => {
            let mut f = chars_of("format=nv12,hwupload,scale_vaapi=");
            append_chars(&mut f, res.as_slice());
            push_arg(args, f);
        },
        None => {
            push_arg_str(args, "format=nv12,hwupload");
        },
    }
    proof {
        assert(arg_views(args@) =~~= arg_views(old(args)@) + spec_vaapi_args(
            codec@,
            match resolution {
                Some(r) => Some(r@),
                None => None,
            },
        ));
    }
}

/// Video-filter argument of the hybrid NVENC path: CPU decode, pixel-format
/// conversion, upload, and device-side scaling.
pub open spec fn spec_nvenc_hybrid_filter(res: Option<Seq<char>>) -> Seq<char> {
    match res {
        Some(r) => "format=nv12,hwupload,scale_cuda="@ + r,
        None => "format=nv12,hwupload"@,
    }
}

/// Arguments of the H.264/H.265 NVENC encoders.  On the full-GPU path the
/// decoder hands device frames straight to the encoder, with a device-side
/// scale when a resolution is requested; the hybrid path always uploads.
pub open spec fn spec_nvenc_args(
    codec: Seq<char>,
    qp: Seq<char>,
    res: Option<Seq<char>>,
    full_gpu: bool,
) -> Seq<Seq<char>> {
    let base = seq!["-c:v"@, codec, "-preset"@, "p4"@, "-rc"@, "constqp"@, "-qp"@, qp];
    if full_gpu {
        match res {
            Some(r) => base + seq!["-vf"@, "scale_cuda="@ + r],
            None => base,
        }
    } else {
        base + seq!["-vf"@, spec_nvenc_hybrid_filter(res)]
    }
}

/// NVENC encoder block for H.264/H.265.
fn push_nvenc(
    args: &mut Vec<Vec<char>>,
    codec: &str,
    qp: &str,
    resolution: Option<&Vec<char>>,
    full_gpu: bool,
)
    ensures
        arg_views(final(args)@) == arg_views(old(args)@) + spec_nvenc_args(
            codec@,
            qp@,
            match resolution {
                Some(r) => Some(r@),
                None => None,
            },
            full_gpu,
        ),
{
    push_arg_str(args, "-c:v");
    push_arg_str(args, codec);
    push_arg_str(args, "-preset");
    push_arg_str(args, "p4");
    push_arg_str(args, "-rc");
    push_arg_str(args, "constqp");
    push_arg_str(args, "-qp");
    push_arg_str(args, qp);
    if full_gpu {
        if let Some(res) = resolution {
            push_arg_str(args, "-vf");
            let mut f = chars_of("scale_cuda=");
            append_chars(&mut f, res.as_slice());
            push_arg(args, f);
        }
    } else {
        push_arg_str(args, "-vf");
        match resolution {
            Some(res) => {
                let mut f = chars_of("format=nv12,hwupload,scale_cuda=");
                append_chars(&mut f, res.as_slice());
                push_arg(args, f);
            },
            None => {
                push_arg_str(args, "format=nv12,hwupload");
            },
        }
    }
    proof {
        assert(arg_views(args@) =~~= arg_views(old(args)@) + spec_nvenc_args(
            codec@,
            qp@,
            match resolution {
                Some(r) => Some(r@),
                None => None,
            },
            full_gpu,
        ));
    }
}

/// Arguments of the AV1 NVENC encoder, which takes system-memory frames in
/// 8-bit 4:2:0 and scales in software.
pub open spec fn spec_nvenc_av1_args(res: Option<Seq<char>>) -> Seq<Seq<char>> {
    let base = seq![
        "-c:v"@,
        "av1_nvenc"@,
        "-preset"@,
        "p4"@,
        "-rc"@,
        "constqp"@,
        "-qp"@,
        "63"@,
        "-pix_fmt"@,
        "yuv420p"@,
    ];
    match res {
        Some(r) => base + seq!["-vf"@, "scale="@ + r],
        None => base,
    }
}

/// AV1 NVENC encoder block.
fn push_nvenc_av1(args: &mut Vec<Vec<char>>, resolution: Option<&Vec<char>>)
    ensures
        arg_views(final(args)@) == arg_views(old(args)@) + spec_nvenc_av1_args(
            match resolution {
                Some(r) => Some(r@),
                None => None,
            },
        ),
{
    push_arg_str(args, "-c:v");
    push_arg_str(args, "av1_nvenc");
    push_arg_str(args, "-preset");
    push_arg_str(args, "p4");
    push_arg_str(args, "-rc");
    push_arg_str(args, "constqp");
    push_arg_str(args, "-qp");
    push_arg_str(args, "63");
    push_arg_str(args, "-pix_fmt");
    push_arg_str(args, "yuv420p");
    if let Some(res) = resolution {
        push_arg_str(args, "-vf");
        let mut f = chars_of("scale=");
        append_chars(&mut f, res.as_slice());
        push_arg(args, f);
    }
    proof {
        assert(arg_views(args@) =~~= arg_views(old(args)@) + spec_nvenc_av1_args(
            match resolution {
                Some(r) => Some(r@),
                None => None,
            },
        ));
    }
}

/// Arguments of a software encoder: codec, quality, preset, pixel format,
/// and optional software scaling.
pub open spec fn spec_sw_args(
    codec: Seq<char>,
    crf: Seq<char>,
    preset: Seq<char>,
    res: Option<Seq<char>>,
) -> Seq<Seq<char>> {
    let base = seq![
        "-c:v"@,
        codec,
        "-crf"@,
        crf,
        "-preset"@,
        preset,
        "-pix_fmt"@,
        "yuv420p"@,
    ];
    match res {
        Some(r) => base + seq!["-vf"@, "scale="@ + r],
        None => base,
    }
}

fn push_sw(
    args: &mut Vec<Vec<char>>,
    codec: &str,
    crf: &str,
    preset: &str,
    resolution: Option<&Vec<char>>,
)
    ensures
        arg_views(final(args)@) == arg_views(old(args)@) + spec_sw_args(
            codec@,
            crf@,
            preset@,
            match resolution {
                Some(r) => Some(r@),
                None => None,
            },
        ),
{
    push_arg_str(args, "-c:v");
    push_arg_str(args, codec);
    push_arg_str(args, "-crf");
    push_arg_str(args, crf);
    push_arg_str(args, "-preset");
    push_arg_str(args, preset);
    push_arg_str(args, "-pix_fmt");
    push_arg_str(args, "yuv420p");
    if let Some(res) = resolution {
        push_arg_str(args, "-vf");
        let mut f = chars_of("scale=");
        append_chars(&mut f, res.as_slice());
        push_arg(args, f);
    }
    proof {
        assert(arg_views(args@) =~~= arg_views(old(args)@) + spec_sw_args(
            codec@,
            crf@,
            preset@,
            match resolution {
                Some(r) => Some(r@),
                None => None,
            },
        ));
    }
}

/// Software H.264 arguments.
pub open spec fn spec_sw_x264_args(res: Option<Seq<char>>) -> Seq<Seq<char>> {
    spec_sw_args("libx264"@, "23"@, "fast"@, res)
}

/// Software H.264 encoder block.
fn push_sw_x264(args: &mut Vec<Vec<char>>, resolution: Option<&Vec<char>>)
    ensures
        arg_views(final(args)@) == arg_views(old(args)@) + spec_sw_x264_args(
            match resolution {
                Some(r) => Some(r@),
                None => None,
            },
        ),
{
    push_sw(args, "libx264", "23", "fast", resolution);
}

/// Software H.265 arguments.
pub open spec fn spec_sw_x265_args(res: Option<Seq<char>>) -> Seq<Seq<char>> {
    spec_sw_args("libx265"@, "23"@, "fast"@, res)
}

/// Software H.265 encoder block.
fn push_sw_x265(args: &mut Vec<Vec<char>>, resolution: Option<&Vec<char>>)
    ensures
        arg_views(final(args)@) == arg_views(old(args)@) + spec_sw_x265_args(
            match resolution {
                Some(r) => Some(r@),
                None => None,
            },
        ),
{
    push_sw(args, "libx265", "23", "fast", resolution);
}

/// Software AV1 arguments.
pub open spec fn spec_sw_av1_args(res: Option<Seq<char>>) -> Seq<Seq<char>> {
    spec_sw_args("libsvtav1"@, "30"@, "8"@, res)
}

/// Software AV1 encoder block.
fn push_sw_av1(args: &mut Vec<Vec<char>>, resolution: Option<&Vec<char>>)
    ensures
        arg_views(final(args)@) == arg_views(old(args)@) + spec_sw_av1_args(
            match resolution {
                Some(r) => Some(r@),
                None => None,
            },
        ),
{
    push_sw(args, "libsvtav1", "30", "8", resolution);
}

/// Profile number of a ProRes codec identifier; the plain 422 profile when
/// the identifier names no tier.
pub open spec fn spec_prores_profile(codec: Seq<char>) -> Seq<char> {
    if codec == "prores_proxy"@ {
        "0"@
    } else if codec == "prores_lt"@ {
        "1"@
    } else if codec == "prores_422"@ {
        "2"@
    } else if codec == "prores_hq"@ {
        "3"@
    } else {
        "2"@
    }
}

/// Arguments of the ProRes encoder: always CPU, profile by quality tier,
/// 10-bit 4:2:2 pixel format.
pub open spec fn spec_prores_args(codec: Seq<char>, res: Option<Seq<char>>) -> Seq<Seq<char>> {
    let base = seq![
        "-c:v"@,
        "prores_ks"@,
        "-profile:v"@,
        spec_prores_profile(codec),
        "-pix_fmt"@,
        "yuv422p10le"@,
    ];
    match res {
        Some(r) => base + seq!["-vf"@, "scale="@ + r],
        None => base,
    }
}

/// ProRes encoder block.
fn push_prores(args: &mut Vec<Vec<char>>, codec: &Vec<char>, resolution: Option<&Vec<char>>)
    ensures
        arg_views(final(args)@) == arg_views(old(args)@) + spec_prores_args(
            codec@,
            match resolution {
                Some(r) => Some(r@),
                None => None,
            },
        ),
{
    let profile: &str = if chars_eq_str(codec, "prores_proxy") {
        "0"
    } else if chars_eq_str(codec, "prores_lt") {
        "1"
    } else if chars_eq_str(codec, "prores_422") {
        "2"
    } else if chars_eq_str(codec, "prores_hq") {
        "3"
    } else {
        "2"
    };
    push_arg_str(args, "-c:v");
    push_arg_str(args, "prores_ks");
    push_arg_str(args, "-profile:v");
    push_arg_str(args, profile);
    push_arg_str(args, "-pix_fmt");
    push_arg_str(args, "yuv422p10le");
    if let Some(res) = resolution {
        push_arg_str(args, "-vf");
        let mut f = chars_of("scale=");
        append_chars(&mut f, res.as_slice());
        push_arg(args, f);
    }
    proof {
        assert(arg_views(args@) =~~= arg_views(old(args)@) + spec_prores_args(
            codec@,
            match resolution {
                Some(r) => Some(r@),
                None => None,
            },
        ));
    }
}

/// The encoder block selected by proxy codec and hardware acceleration.
/// Unknown codec identifiers fall back to software H.264.
pub open spec fn spec_proxy_codec_args(
    codec: Seq<char>,
    hw: Seq<char>,
    res: Option<Seq<char>>,
    full_gpu: bool,
) -> Seq<Seq<char>> {
    if codec == "h264"@ {
        if hw == "vaapi"@ {
            spec_vaapi_args("h264_vaapi"@, res)
        } else if hw == "nvenc"@ {
            spec_nvenc_args("h264_nvenc"@, "23"@, res, full_gpu)
        } else {
            spec_sw_x264_args(res)
        }
    } else if codec == "h265"@ {
        if hw == "vaapi"@ {
            spec_vaapi_args("hevc_vaapi"@, res)
        } else if hw == "nvenc"@ {
            spec_nvenc_args("hevc_nvenc"@, "23"@, res, full_gpu)
        } else {
            spec_sw_x265_args(res)
        }
    } else if codec == "av1"@ {
        if hw == "vaapi"@ {
            spec_vaapi_args("av1_vaapi"@, res)
        } else if hw == "nvenc"@ {
            spec_nvenc_av1_args(res)
        } else {
            spec_sw_av1_args(res)
        }
    } else if spec_is_prores(codec) {
        spec_prores_args(codec, res)
    } else {
        spec_sw_x264_args(res)
    }
}

/// Appends the video-encoder block for the given proxy codec and
/// hardware-acceleration selector.
pub fn push_proxy_codec_args(
    args: &mut Vec<Vec<char>>,
    proxy_codec: &Vec<char>,
    hw_accel: &Vec<char>,
    resolution: Option<&Vec<char>>,
    nvenc_full_gpu: bool,
)
    ensures
        arg_views(final(args)@) == arg_views(old(args)@) + spec_proxy_codec_args(
            proxy_codec@,
            hw_accel@,
            match resolution {
                Some(r) => Some(r@),
                None => None,
            },
            nvenc_full_gpu,
        ),
{
    if chars_eq_str(proxy_codec, "h264") {
        if chars_eq_str(hw_accel, "vaapi") {
            push_vaapi(args, "h264_vaapi", resolution);
        } else if chars_eq_str(hw_accel, "nvenc") {
            push_nvenc(args, "h264_nvenc", "23", resolution, nvenc_full_gpu);
        } else {
            push_sw_x264(args, resolution);
        }
    } else if chars_eq_str(proxy_codec, "h265") {
        if chars_eq_str(hw_accel, "vaapi") {
            push_vaapi(args, "hevc_vaapi", resolution);
        } else if chars_eq_str(hw_accel, "nvenc") {
            push_nvenc(args, "hevc_nvenc", "23", resolution, nvenc_full_gpu);
        } else {
            push_sw_x265(args, resolution);
        }
    } else if chars_eq_str(proxy_codec, "av1") {
        if chars_eq_str(hw_accel, "vaapi") {
            push_vaapi(args, "av1_vaapi", resolution);
        } else if chars_eq_str(hw_accel, "nvenc") {
            push_nvenc_av1(args, resolution);
        } else {
            push_sw_av1(args, resolution);
        }
    } else if is_prores(proxy_codec) {
        push_prores(args, proxy_codec, resolution);
    } else {
        push_sw_x264(args, resolution);
    }
}

/// Hardware-acceleration init flags placed before the input: the VAAPI
/// device, or the CUDA device with full-GPU decode flags when the source
/// format allows on-device decoding.
pub open spec fn spec_hw_init_flags(hw: Seq<char>, full_gpu: bool) -> Seq<Seq<char>> {
    if hw == "vaapi"@ {
        seq!["-vaapi_device"@, "/dev/dri/renderD128"@]
    } else if hw == "nvenc"@ {
        seq!["-init_hw_device"@, "cuda=cuda:0"@, "-filter_hw_device"@, "cuda"@] + (if full_gpu {
            seq![
                "-hwaccel"@,
                "cuda"@,
                "-hwaccel_device"@,
                "cuda"@,
                "-hwaccel_output_format"@,
                "cuda"@,
            ]
        } else {
            Seq::empty()
        })
    } else {
        Seq::empty()
    }
}

pub fn push_hw_init_flags(args: &mut Vec<Vec<char>>, hw_accel: &Vec<char>, full_gpu: bool)
    ensures
        arg_views(final(args)@) == arg_views(old(args)@) + spec_hw_init_flags(
            hw_accel@,
            full_gpu,
        ),
{
    if chars_eq_str(hw_accel, "vaapi") {
        push_arg_str(args, "-vaapi_device");
        push_arg_str(args, "/dev/dri/renderD128");
    } else if chars_eq_str(hw_accel, "nvenc") {
        push_arg_str(args, "-init_hw_device");
        push_arg_str(args, "cuda=cuda:0");
        push_arg_str(args, "-filter_hw_device");
        push_arg_str(args, "cuda");
        if full_gpu {
            push_arg_str(args, "-hwaccel");
            push_arg_str(args, "cuda");
            push_arg_str(args, "-hwaccel_device");
            push_arg_str(args, "cuda");
            push_arg_str(args, "-hwaccel_output_format");
            push_arg_str(args, "cuda");
        }
    }
    proof {
        assert(arg_views(args@) =~~= arg_views(old(args)@) + spec_hw_init_flags(
            hw_accel@,
            full_gpu,
        ));
    }
}

/// The normalized resolution option.
pub open spec fn spec_resolution_of(o: JobOptionsV) -> Option<Seq<char>> {
    match o.proxy_resolution {
        Some(r) => Some(spec_normalize_resolution(r)),
        None => None,
    }
}

/// The full encoder argument vector for a rewrap or proxy job, in the
/// documented order.
pub open spec fn spec_build_ffmpeg_args(
    input: Seq<char>,
    output: Seq<char>,
    mode: JobMode,
    o: JobOptionsV,
    full_gpu: bool,
) -> Seq<Seq<char>>
    recommends
        mode == JobMode::ReWrap || mode == JobMode::Proxy,
{
    let hw_flags = if mode == JobMode::Proxy && !spec_is_prores(o.proxy_codec) {
        spec_hw_init_flags(o.hw_accel, full_gpu)
    } else {
        Seq::empty()
    };
    let codec_block = if mode == JobMode::ReWrap {
        seq!["-c:v"@, "copy"@, "-c:a"@, o.audio_codec]
    } else {
        spec_proxy_codec_args(o.proxy_codec, o.hw_accel, spec_resolution_of(o), full_gpu)
            + seq!["-c:a"@, "pcm_s16le"@]
    };
    seq!["-y"@] + hw_flags + seq![
        "-loglevel"@,
        "warning"@,
        "-i"@,
        input,
        "-map"@,
        "0:v:0"@,
        "-map"@,
        "0:a"@,
        "-map_metadata"@,
        "0"@,
    ] + codec_block + seq!["-progress"@, "pipe:2"@, output]
}

/// Builds the encoder arguments for a rewrap or proxy job.
///
/// RAW-bridge jobs build their arguments in their own runners and are not
/// accepted here.
pub fn build_ffmpeg_args(
    input_path: &Vec<char>,
    output_path: &Vec<char>,
    mode: &JobMode,
    options: &JobOptions,
    nvenc_full_gpu: bool,
) -> (args: Vec<Vec<char>>)
    requires
        *mode == JobMode::ReWrap || *mode == JobMode::Proxy,
    ensures
        arg_views(args@) == spec_build_ffmpeg_args(
            input_path@,
            output_path@,
            *mode,
            options@,
            nvenc_full_gpu,
        ),
{
    let mut args: Vec<Vec<char>> = Vec::new();

    // Overwrite without asking.
    push_arg_str(&mut args, "-y");

    // Hardware-acceleration flags before the input; ProRes is always CPU.
    if *mode == JobMode::Proxy && !is_prores(&options.proxy_codec) {
        push_hw_init_flags(&mut args, &options.hw_accel, nvenc_full_gpu);
    }

    // Keep the progress channel free of noise.
    push_arg_str(&mut args, "-loglevel");
    push_arg_str(&mut args, "warning");

    push_arg_str(&mut args, "-i");
    push_arg(&mut args, crate::text::copy_range(input_path.as_slice(), 0, input_path.len()));

    // First video stream, all audio streams, container-level metadata.
    push_arg_str(&mut args, "-map");
    push_arg_str(&mut args, "0:v:0");
    push_arg_str(&mut args, "-map");
    push_arg_str(&mut args, "0:a");
    push_arg_str(&mut args, "-map_metadata");
    push_arg_str(&mut args, "0");

    if *mode == JobMode::ReWrap {
        push_arg_str(&mut args, "-c:v");
        push_arg_str(&mut args, "copy");
        push_arg_str(&mut args, "-c:a");
        push_arg(
            &mut args,
            crate::text::copy_range(options.audio_codec.as_slice(), 0, options.audio_codec.len()),
        );
    } else {
        let res: Option<Vec<char>> = match &options.proxy_resolution {
            Some(r) => Some(normalize_resolution(r)),
            None => None,
        };
        push_proxy_codec_args(
            &mut args,
            &options.proxy_codec,
            &options.hw_accel,
            res.as_ref(),
            nvenc_full_gpu,
        );
        push_arg_str(&mut args, "-c:a");
        push_arg_str(&mut args, "pcm_s16le");
    }

    // Structured progress reporting on the progress channel.
    push_arg_str(&mut args, "-progress");
    push_arg_str(&mut args, "pipe:2");

    push_arg(&mut args, crate::text::copy_range(output_path.as_slice(), 0, output_path.len()));

    proof {
        assert(input_path@.subrange(0, input_path@.len() as int) =~= input_path@);
        assert(output_path@.subrange(0, output_path@.len() as int) =~= output_path@);
        assert(options.audio_codec@.subrange(0, options.audio_codec@.len() as int)
            =~= options.audio_codec@);
        assert(arg_views(args@) =~~= spec_build_ffmpeg_args(
            input_path@,
            output_path@,
            *mode,
            options@,
            nvenc_full_gpu,
        ));
    }
    args
}

/// Events the encoder runner sends to the job manager.  Fixed-point fields
/// as in the response protocol: `percent_milli` in thousandths of a
/// percent, `fps_milli` and `speed_milli` in thousandths.
#[derive(Debug, Clone)]
pub enum FfmpegEvent {
    Progress { id: Vec<char>, percent_milli: u32, fps_milli: i64, speed_milli: i64, frame: u64 },
    Done { id: Vec<char> },
    Error { id: Vec<char>, message: Vec<char> },
    Cancelled { id: Vec<char> },
}

/// Mathematical view of [`FfmpegEvent`].
pub enum FfmpegEventV {
    Progress { id: Seq<char>, percent_milli: u32, fps_milli: i64, speed_milli: i64, frame: u64 },
    Done { id: Seq<char> },
    Error { id: Seq<char>, message: Seq<char> },
    Cancelled { id: Seq<char> },
}

impl View for FfmpegEvent {
    type V = FfmpegEventV;

    open spec fn view(&self) -> FfmpegEventV {
        match self {
            FfmpegEvent::Progress { id, percent_milli, fps_milli, speed_milli, frame } =>
                FfmpegEventV::Progress {
                    id: id@,
                    percent_milli: *percent_milli,
                    fps_milli: *fps_milli,
                    speed_milli: *speed_milli,
                    frame: *frame,
                },
            FfmpegEvent::Done { id } => FfmpegEventV::Done { id: id@ },
            FfmpegEvent::Error { id, message } => FfmpegEventV::Error {
                id: id@,
                message: message@,
            },
            FfmpegEvent::Cancelled { id } => FfmpegEventV::Cancelled { id: id@ },
        }
    }
}

/// Log lines joined by newlines.
pub open spec fn spec_join_newlines(parts: Seq<Seq<char>>) -> Seq<char>
    decreases parts.len(),
{
    if parts.len() == 0 {
        Seq::empty()
    } else if parts.len() == 1 {
        parts[0]
    } else {
        spec_join_newlines(parts.drop_last()) + seq!['\n'] + parts.last()
    }
}

/// The error message for a failed encoder run: the exit code, and the
/// buffered log tail when one exists.
pub open spec fn spec_error_message(exit_code: int, tail: Seq<Seq<char>>) -> Seq<char> {
    if tail.len() == 0 {
        "FFmpeg exited with code: "@ + spec_i64_dec(exit_code)
    } else {
        "FFmpeg exited with code: "@ + spec_i64_dec(exit_code) + "\n\n"@ + spec_join_newlines(
            tail,
        )
    }
}

/// Builds a readable error message carrying the encoder's exit code and its
/// last log lines.
pub fn build_error_message(exit_code: i32, log_tail: &Vec<Vec<char>>) -> (r: Vec<char>)
    ensures
        r@ == spec_error_message(exit_code as int, arg_views(log_tail@)),
{
    let mut r = chars_of("FFmpeg exited with code: ");
    let digits = i64_to_dec(exit_code as i64);
    append_chars(&mut r, digits.as_slice());
    if log_tail.len() == 0 {
        proof {
            assert(arg_views(log_tail@).len() == 0);
        }
        return r;
    }
    append_str(&mut r, "\n\n");
    let ghost tail = arg_views(log_tail@);
    let mut i: usize = 0;
    while i < log_tail.len()
        invariant
            i <= log_tail@.len(),
            tail == arg_views(log_tail@),
            i > 0 ==> r@ == "FFmpeg exited with code: "@ + spec_i64_dec(exit_code as int)
                + "\n\n"@ + spec_join_newlines(tail.take(i as int)),
            i == 0 ==> r@ == "FFmpeg exited with code: "@ + spec_i64_dec(exit_code as int)
                + "\n\n"@,
        decreases log_tail@.len() - i,
    {
        if i > 0 {
            let mut nl: Vec<char> = Vec::new();
            nl.push('\n');
            append_chars(&mut r, nl.as_slice());
            proof {
                assert(nl@ =~= seq!['\n']);
            }
        }
        append_chars(&mut r, log_tail[i].as_slice());
        proof {
            let t1 = tail.take(i + 1);
            assert(t1.drop_last() =~= tail.take(i as int));
            assert(t1.last() == tail[i as int]);
            assert(tail[i as int] == log_tail@[i as int]@);
            if i == 0 {
                assert(spec_join_newlines(t1) == t1[0]);
                assert(t1[0] == tail[0]);
            }
        }
        i += 1;
    }
    proof {
        assert(tail.take(tail.len() as int) =~= tail);
    }
    r
}

/// What the runner should do after one line of the encoder's progress
/// channel.
pub enum LineStep {
    /// Nothing to send; the line was accumulated or buffered.
    Quiet,
    /// Send this progress event.
    Emit(FfmpegEvent),
    /// The final block arrived: await the encoder's exit, then fold the
    /// exit status with [`FfmpegRun::on_exit`].
    AwaitExit,
}

/// The deterministic core of one encoder run: it folds the stderr lines of
/// the encoder into progress events, keeps the bounded tail of log lines
/// for error reporting, and decides the terminal event from the exit
/// status.  The process handling around it (spawning, signalling,
/// reaping, file cleanup) is the caller's.
pub struct FfmpegRun {
    job_id: Vec<char>,
    total_duration_us: i64,
    parser: ProgressParser,
    log_tail: Vec<Vec<char>>,
}

/// Bound on the buffered log tail.
pub open spec fn spec_log_tail_cap() -> int {
    20
}

/// The log tail after buffering one more line: the oldest line leaves when
/// the ring is full.
pub open spec fn spec_tail_push(tail: Seq<Seq<char>>, line: Seq<char>) -> Seq<Seq<char>> {
    if tail.len() == spec_log_tail_cap() {
        tail.skip(1).push(line)
    } else {
        tail.push(line)
    }
}

/// The progress event for a finished block.
pub open spec fn spec_progress_event(
    id: Seq<char>,
    rec: FfmpegProgress,
    total_duration_us: int,
) -> FfmpegEventV {
    FfmpegEventV::Progress {
        id: id,
        percent_milli: (spec_calculate_progress(rec.out_time_us as int, total_duration_us)
            / 10) as u32,
        fps_milli: rec.fps_milli,
        speed_milli: rec.speed_milli,
        frame: rec.frame,
    }
}

impl FfmpegRun {
    pub closed spec fn id(&self) -> Seq<char> {
        self.job_id@
    }

    pub closed spec fn total_us(&self) -> int {
        self.total_duration_us as int
    }

    pub closed spec fn pending(&self) -> Map<Seq<char>, Seq<char>> {
        self.parser@
    }

    pub closed spec fn tail(&self) -> Seq<Seq<char>> {
        arg_views(self.log_tail@)
    }

    /// The ring never outgrows its bound.
    pub closed spec fn wf(&self) -> bool {
        self.tail().len() <= spec_log_tail_cap()
    }

    /// A fresh run for one job.
    pub fn new(job_id: Vec<char>, total_duration_us: i64) -> (r: Self)
        ensures
            r.id() == job_id@,
            r.total_us() == total_duration_us as int,
            r.pending() == Map::<Seq<char>, Seq<char>>::empty(),
            r.tail() == Seq::<Seq<char>>::empty(),
            r.wf(),
    {
        let r = FfmpegRun {
            job_id,
            total_duration_us,
            parser: ProgressParser::new(),
            log_tail: Vec::new(),
        };
        proof {
            assert(arg_views(r.log_tail@) =~= Seq::<Seq<char>>::empty());
        }
        r
    }

    /// Folds one line of the encoder's progress channel.  A terminator
    /// block with the terminal flag asks the caller to await the exit; any
    /// other terminator yields the progress event; all other lines are
    /// accumulated, and lines that complete no block are buffered in the
    /// bounded log tail.
    pub fn on_stderr_line(&mut self, line: &str) -> (r: LineStep)
        requires
            old(self).wf(),
        ensures
            final(self).wf(),
            final(self).id() == old(self).id(),
            final(self).total_us() == old(self).total_us(),
            ({
                let (m2, rec) = spec_feed_line(old(self).pending(), line@);
                match rec {
                    Some(p) => {
                        &&& final(self).pending() == m2
                        &&& final(self).tail() == old(self).tail()
                        &&& if p.is_done {
                            r is AwaitExit
                        } else {
                            r matches LineStep::Emit(e) && e@ == spec_progress_event(
                                old(self).id(),
                                p,
                                old(self).total_us(),
                            )
                        }
                    },
                    None => {
                        &&& final(self).pending() == m2
                        &&& final(self).tail() == spec_tail_push(old(self).tail(), line@)
                        &&& r is Quiet
                    },
                }
            }),
    {
        match self.parser.feed_line(line) {
            Some(p) => {
                if p.is_done {
                    LineStep::AwaitExit
                } else {
                    let percent_milli = calculate_progress(p.out_time_us, self.total_duration_us)
                        / 10;
                    proof {
                        assert(self.job_id@.subrange(0, self.job_id@.len() as int)
                            =~= self.job_id@);
                    }
                    LineStep::Emit(
                        FfmpegEvent::Progress {
                            id: copy_range(self.job_id.as_slice(), 0, self.job_id.len()),
                            percent_milli,
                            fps_milli: p.fps_milli,
                            speed_milli: p.speed_milli,
                            frame: p.frame,
                        },
                    )
                }
            },
            None => {
                let lv = chars_of(line);
                if self.log_tail.len() == 20 {
                    self.log_tail.remove(0);
                }
                self.log_tail.push(lv);
                proof {
                    let old_tail = arg_views(old(self).log_tail@);
                    if old_tail.len() == 20 {
                        assert(arg_views(self.log_tail@) =~= old_tail.skip(1).push(line@));
                    } else {
                        assert(arg_views(self.log_tail@) =~= old_tail.push(line@));
                    }
                    assert(self.job_id@.subrange(0, self.job_id@.len() as int) =~= self.job_id@);
                }
                LineStep::Quiet
            },
        }
    }

    /// The terminal event once the encoder has exited: completion on
    /// success, otherwise an error carrying the exit code and the log tail.
    /// On failure the partial output file is the caller's to delete.
    pub fn on_exit(&self, success: bool, exit_code: i32) -> (r: FfmpegEvent)
        ensures
            success ==> (r@ matches FfmpegEventV::Done { id } && id == self.id()),
            !success ==> (r@ matches FfmpegEventV::Error { id, message } && id == self.id()
                && message == spec_error_message(exit_code as int, self.tail())),
    {
        if success {
            FfmpegEvent::Done { id: copy_range(self.job_id.as_slice(), 0, self.job_id.len()) }
        } else {
            FfmpegEvent::Error {
                id: copy_range(self.job_id.as_slice(), 0, self.job_id.len()),
                message: build_error_message(exit_code, &self.log_tail),
            }
        }
    }

    /// The terminal event when reading the progress channel failed; the
    /// caller kills and reaps the encoder and deletes the partial output.
    pub fn on_read_error(&self, error_text: &Vec<char>) -> (r: FfmpegEvent)
        ensures
            (r@ matches FfmpegEventV::Error { id, message } && id == self.id() && message
                == "Error reading the encoder's progress channel: "@ + error_text@),
    {
        let mut message = chars_of("Error reading the encoder's progress channel: ");
        append_chars(&mut message, error_text.as_slice());
        FfmpegEvent::Error {
            id: copy_range(self.job_id.as_slice(), 0, self.job_id.len()),
            message,
        }
    }

    /// The terminal event after a graceful stop: the caller has asked the
    /// encoder to finalize and has awaited it.
    pub fn on_cancelled(&self) -> (r: FfmpegEvent)
        ensures
            (r@ matches FfmpegEventV::Cancelled { id } && id == self.id()),
    {
        FfmpegEvent::Cancelled { id: copy_range(self.job_id.as_slice(), 0, self.job_id.len()) }
    }
}

} // verus!
