//! The job scheduler's state machine: the job table, bounded parallelism
//! with live reconfiguration, global pause and resume, cancellation, and
//! the folding of runner events into job state and responses.
//!
//! The machine is purely deterministic; the task layer around the library
//! drives it, performs the process work it decides, and delivers the
//! outcomes back as events.

use vstd::prelude::*;

use crate::ffmpeg::{FfmpegEvent, FfmpegEventV};
use crate::protocol::{
    spec_is_terminal, JobMode, JobOptions, JobOptionsV, JobState, JobStatus, JobStatusV,
    Response, ResponseV,
};
use crate::text::{append_chars, append_str, chars_eq, chars_of, copy_range, spec_find_char};

verus! {

/// One transcoding job as the scheduler tracks it.  `percent_milli` holds
/// thousandths of a percent.
#[derive(Debug, Clone)]
pub struct Job {
    pub id: Vec<char>,
    pub input_path: Vec<char>,
    pub output_dir: Vec<char>,
    pub mode: JobMode,
    pub options: JobOptions,
    pub status: JobState,
    pub percent_milli: u32,
}

/// Mathematical view of [`Job`].
#[verifier::ext_equal]
pub struct JobV {
    pub id: Seq<char>,
    pub input_path: Seq<char>,
    pub output_dir: Seq<char>,
    pub mode: JobMode,
    pub options: JobOptionsV,
    pub status: JobState,
    pub percent_milli: u32,
}

impl View for Job {
    type V = JobV;

    open spec fn view(&self) -> JobV {
        JobV {
            id: self.id@,
            input_path: self.input_path@,
            output_dir: self.output_dir@,
            mode: self.mode,
            options: self.options@,
            status: self.status,
            percent_milli: self.percent_milli,
        }
    }
}

impl Job {
    /// A new job in the queued state.
    pub fn new(
        id: Vec<char>,
        input_path: Vec<char>,
        output_dir: Vec<char>,
        mode: JobMode,
        options: JobOptions,
    ) -> (r: Self)
        ensures
            r@ == (JobV {
                id: id@,
                input_path: input_path@,
                output_dir: output_dir@,
                mode,
                options: options@,
                status: JobState::Queued,
                percent_milli: 0,
            }),
    {
        let r = Job {
            id,
            input_path,
            output_dir,
            mode,
            options,
            status: JobState::Queued,
            percent_milli: 0,
        };
        proof {
            assert(r@ =~= (JobV {
                id: r.id@,
                input_path: r.input_path@,
                output_dir: r.output_dir@,
                mode: r.mode,
                options: r.options@,
                status: JobState::Queued,
                percent_milli: 0,
            }));
        }
        r
    }

    /// The status snapshot of this job.
    pub fn to_status(&self) -> (r: JobStatus)
        ensures
            r@ == spec_to_status(self@),
    {
        proof {
            assert(self.id@.subrange(0, self.id@.len() as int) =~= self.id@);
            assert(self.input_path@.subrange(0, self.input_path@.len() as int)
                =~= self.input_path@);
        }
        let r = JobStatus {
            id: copy_range(self.id.as_slice(), 0, self.id.len()),
            input_path: copy_range(self.input_path.as_slice(), 0, self.input_path.len()),
            mode: self.mode,
            status: self.status,
            percent_milli: self.percent_milli,
        };
        proof {
            assert(r@ =~= spec_to_status(self@));
        }
        r
    }

    /// The output file's full path: the input's stem, the configured
    /// suffix, and the container extension, below the output directory and
    /// its optional sub-folder.
    pub fn output_path(&self) -> (r: Vec<char>)
        ensures
            r@ == spec_output_path(self@),
    {
        let stem = file_stem(&self.input_path);
        let ext: &str = match self.mode {
            JobMode::ReWrap => "mov",
            _ => {
                if crate::text::chars_eq_str(&self.options.proxy_codec, "av1") {
                    "mp4"
                } else {
                    "mov"
                }
            },
        };
        let mut r = copy_range(self.output_dir.as_slice(), 0, self.output_dir.len());
        if self.options.output_subfolder.len() > 0 {
            r.push('/');
            append_chars(&mut r, self.options.output_subfolder.as_slice());
        }
        r.push('/');
        append_chars(&mut r, stem.as_slice());
        append_chars(&mut r, self.options.output_suffix.as_slice());
        r.push('.');
        append_str(&mut r, ext);
        proof {
            assert(self.output_dir@.subrange(0, self.output_dir@.len() as int)
                =~= self.output_dir@);
            assert(r@ =~= spec_output_path(self@));
        }
        r
    }
}

/// The container extension of a job's output: `mp4` for AV1 proxies,
/// otherwise `mov`.
pub open spec fn spec_output_ext(j: JobV) -> Seq<char> {
    match j.mode {
        JobMode::ReWrap => "mov"@,
        _ => if j.options.proxy_codec == "av1"@ {
            "mp4"@
        } else {
            "mov"@
        },
    }
}

/// The output file's full path: `dir[/sub]/stem+suffix.ext`.
pub open spec fn spec_output_path(j: JobV) -> Seq<char> {
    let dir = if j.options.output_subfolder.len() == 0 {
        j.output_dir
    } else {
        j.output_dir + seq!['/'] + j.options.output_subfolder
    };
    dir + seq!['/'] + spec_file_stem(j.input_path) + j.options.output_suffix + seq!['.']
        + spec_output_ext(j)
}

/// The status snapshot of a job.
pub open spec fn spec_to_status(j: JobV) -> JobStatusV {
    JobStatusV {
        id: j.id,
        input_path: j.input_path,
        mode: j.mode,
        status: j.status,
        percent_milli: j.percent_milli,
    }
}

/// Index of the last occurrence of a character, or -1 when absent.
pub open spec fn spec_rfind_char(s: Seq<char>, c: char) -> int
    decreases s.len(),
{
    if s.len() == 0 {
        -1
    } else if s.last() == c {
        s.len() - 1
    } else {
        spec_rfind_char(s.drop_last(), c)
    }
}

proof fn lemma_rfind_char_props(s: Seq<char>, c: char)
    ensures
        ({
            let r = spec_rfind_char(s, c);
            &&& (r == -1 ==> forall|i: int| 0 <= i < s.len() ==> s[i] != c)
            &&& (r != -1 ==> 0 <= r < s.len() && s[r] == c && (forall|i: int|
                r < i < s.len() ==> s[i] != c))
        }),
    decreases s.len(),
{
    if s.len() > 0 && s.last() != c {
        lemma_rfind_char_props(s.drop_last(), c);
        let t = s.drop_last();
        assert(forall|i: int| 0 <= i < t.len() ==> t[i] == s[i]);
    }
}

/// Last occurrence of a character in the slice.
fn rfind_char(s: &[char], c: char) -> (r: Option<usize>)
    ensures
        ({
            let f = spec_rfind_char(s@, c);
            match r {
                Some(i) => i == f && i < s@.len() && s@[i as int] == c,
                None => f == -1,
            }
        }),
{
    proof {
        lemma_rfind_char_props(s@, c);
    }
    let mut j: usize = s.len();
    while j > 0
        invariant
            j <= s@.len(),
            forall|i: int| j <= i < s@.len() ==> s@[i] != c,
        decreases j,
    {
        j -= 1;
        if s[j] == c {
            proof {
                lemma_rfind_char_props(s@, c);
                let f = spec_rfind_char(s@, c);
                if f == -1 {
                    assert(s@[j as int] != c);
                }
                if f < j {
                    assert(s@[j as int] != c);
                }
                if f > j {
                    assert(s@[f] != c);
                }
            }
            return Some(j);
        }
    }
    proof {
        lemma_rfind_char_props(s@, c);
        let f = spec_rfind_char(s@, c);
        if f != -1 {
            assert(s@[f] != c);
        }
    }
    None
}

/// The file name of a path: everything after the last separator.
pub open spec fn spec_file_name(path: Seq<char>) -> Seq<char> {
    let p = spec_rfind_char(path, '/');
    if p == -1 {
        path
    } else {
        path.skip(p + 1)
    }
}

/// The stem of a path's file name: the name without the extension after
/// its last dot; a name whose only dot leads keeps it all.
pub open spec fn spec_file_stem(path: Seq<char>) -> Seq<char> {
    let name = spec_file_name(path);
    let d = spec_rfind_char(name, '.');
    if d <= 0 {
        name
    } else {
        name.take(d)
    }
}

/// Extracts the stem of a path's file name.
pub fn file_stem(path: &Vec<char>) -> (r: Vec<char>)
    ensures
        r@ == spec_file_stem(path@),
{
    let s = path.as_slice();
    let n = s.len();
    let sep = rfind_char(s, '/');
    let name_start: usize = match sep {
        Some(p) => {
            assert(p < n);
            p + 1
        },
        None => 0,
    };
    let ghost name = spec_file_name(path@);
    proof {
        assert(name =~= s@.subrange(name_start as int, s@.len() as int));
    }
    let name_vec = copy_range(s, name_start, s.len());
    let d = rfind_char(name_vec.as_slice(), '.');
    match d {
        Some(p) if p > 0 => {
            let r = copy_range(name_vec.as_slice(), 0, p);
            proof {
                assert(r@ =~= name.take(p as int));
            }
            r
        },
        _ => name_vec,
    }
}

/// Total clip duration in microseconds from a bridge probe:
/// `frame_count * fps_den * 1e6 / fps_num`, zero when the rate is unknown,
/// and saturated at the type's maximum.
pub open spec fn spec_bridge_total_duration_us(
    frame_count: u64,
    fps_num: u32,
    fps_den: u32,
) -> int {
    if fps_num == 0 {
        0
    } else {
        let d = frame_count * fps_den * 1_000_000 / (fps_num as int);
        if d > i64::MAX {
            i64::MAX as int
        } else {
            d
        }
    }
}

/// Computes a probed clip's total duration in microseconds.
pub fn bridge_total_duration_us(frame_count: u64, fps_num: u32, fps_den: u32) -> (r: i64)
    ensures
        r == spec_bridge_total_duration_us(frame_count, fps_num, fps_den),
        r >= 0,
{
    if fps_num == 0 {
        return 0;
    }
    proof {
        let a = frame_count as int;
        let b = fps_den as int;
        assert(a * b * 1_000_000 < 0x1_0000_0000_0000_0000_0000_0000_0000_0000)
            by (nonlinear_arith)
            requires
                0 <= a < 0x1_0000_0000_0000_0000,
                0 <= b < 0x1_0000_0000,
        ;
        assert(a * b >= 0 && a * b * 1_000_000 >= 0) by (nonlinear_arith)
            requires
                a >= 0,
                b >= 0,
        ;
    }
    let wide: u128 = (frame_count as u128) * (fps_den as u128) * 1_000_000u128;
    let q: u128 = wide / (fps_num as u128);
    proof {
        vstd::arithmetic::div_mod::lemma_div_pos_is_pos(
            frame_count * fps_den * 1_000_000,
            fps_num as int,
        );
    }
    if q > i64::MAX as u128 {
        i64::MAX
    } else {
        q as i64
    }
}

/// The pixel formats the device decoder handles on the full-GPU path: the
/// 4:2:0 family, including the 10- and 12-bit variants.
pub open spec fn spec_nvenc_full_gpu_supported(pix_fmt: Seq<char>) -> bool {
    ||| pix_fmt == "yuv420p"@
    ||| pix_fmt == "nv12"@
    ||| pix_fmt == "yuvj420p"@
    ||| pix_fmt == "yuv420p10le"@
    ||| pix_fmt == "yuv420p10be"@
    ||| pix_fmt == "p010le"@
    ||| pix_fmt == "p010be"@
    ||| pix_fmt == "p016le"@
    ||| pix_fmt == "yuv420p12le"@
    ||| pix_fmt == "p012le"@
}

/// True when the device decoder and scaler handle the pixel format, so the
/// full-GPU pipeline is safe; anything else takes the hybrid pipeline.
pub fn nvenc_full_gpu_supported(pix_fmt: &Vec<char>) -> (r: bool)
    ensures
        r == spec_nvenc_full_gpu_supported(pix_fmt@),
{
    crate::text::chars_eq_str(pix_fmt, "yuv420p") || crate::text::chars_eq_str(pix_fmt, "nv12")
        || crate::text::chars_eq_str(pix_fmt, "yuvj420p") || crate::text::chars_eq_str(
        pix_fmt,
        "yuv420p10le",
    ) || crate::text::chars_eq_str(pix_fmt, "yuv420p10be") || crate::text::chars_eq_str(
        pix_fmt,
        "p010le",
    ) || crate::text::chars_eq_str(pix_fmt, "p010be") || crate::text::chars_eq_str(
        pix_fmt,
        "p016le",
    ) || crate::text::chars_eq_str(pix_fmt, "yuv420p12le") || crate::text::chars_eq_str(
        pix_fmt,
        "p012le",
    )
}

/// True when admission must probe the pixel format: only the proxy mode
/// with the NVENC selector decides between the full-GPU and hybrid paths.
pub open spec fn spec_needs_pix_fmt_probe(mode: JobMode, o: JobOptionsV) -> bool {
    mode == JobMode::Proxy && o.hw_accel == "nvenc"@
}

/// Decides whether admission probes the input's pixel format.
pub fn needs_pix_fmt_probe(mode: &JobMode, options: &JobOptions) -> (r: bool)
    ensures
        r == spec_needs_pix_fmt_probe(*mode, options@),
{
    *mode == JobMode::Proxy && crate::text::chars_eq_str(&options.hw_accel, "nvenc")
}

/// Six fractional digits, zero-padded: the microsecond value of the
/// fractional part of a seconds figure.
pub open spec fn spec_pad6(fp: Seq<char>) -> Seq<char> {
    if fp.len() >= 6 {
        fp.take(6)
    } else {
        fp + Seq::new((6 - fp.len()) as nat, |i: int| '0')
    }
}

/// A probe's duration figure — seconds with an optional fractional part —
/// read as microseconds, truncating precision beyond microseconds.
/// Figures that are not plain decimal numbers, or whose seconds exceed the
/// representable range, yield nothing.
pub open spec fn spec_parse_duration_us(s: Seq<char>) -> Option<i64> {
    let t = crate::text::spec_trim(s);
    let dot = spec_find_char(t, '.');
    let ip = if dot == -1 {
        t
    } else {
        t.take(dot)
    };
    let fp = if dot == -1 {
        Seq::<char>::empty()
    } else {
        t.skip(dot + 1)
    };
    if (ip.len() > 0 || fp.len() > 0) && crate::text::spec_all_digits(ip)
        && crate::text::spec_all_digits(fp) && crate::text::spec_dec_val(ip)
        <= 9_223_372_036_853 {
        Some((crate::text::spec_dec_val(ip) * 1_000_000 + crate::text::spec_dec_val(
            spec_pad6(fp),
        )) as i64)
    } else {
        None
    }
}

proof fn lemma_dec_val_bound6(s: Seq<char>)
    requires
        crate::text::spec_all_digits(s),
        s.len() <= 6,
    ensures
        0 <= crate::text::spec_dec_val(s),
        s.len() <= 1 ==> crate::text::spec_dec_val(s) <= 9,
        s.len() <= 2 ==> crate::text::spec_dec_val(s) <= 99,
        s.len() <= 3 ==> crate::text::spec_dec_val(s) <= 999,
        s.len() <= 4 ==> crate::text::spec_dec_val(s) <= 9_999,
        s.len() <= 5 ==> crate::text::spec_dec_val(s) <= 99_999,
        crate::text::spec_dec_val(s) <= 999_999,
    decreases s.len(),
{
    if s.len() > 0 {
        assert(crate::text::spec_all_digits(s.drop_last()));
        lemma_dec_val_bound6(s.drop_last());
    }
}

/// Parses a probe's duration figure into microseconds.
#[verifier::rlimit(60)]
pub fn parse_duration_us(s: &str) -> (r: Option<i64>)
    ensures
        r == spec_parse_duration_us(s@),
        (r matches Some(v) ==> v >= 0),
{
    let cs = chars_of(s);
    let sl = cs.as_slice();
    let (a, b) = crate::text::trim_range_in(sl, 0, cs.len());
    let ghost t = crate::text::spec_trim(s@);
    proof {
        assert(sl@.subrange(0, sl@.len() as int) =~= sl@);
    }
    // Find the dot of the trimmed figure; whitespace cannot hold one.
    let dot = crate::text::find_char_from(sl, a, '.');
    let (ip_end, fp_start): (usize, usize) = match dot {
        Some(d) => {
            if d >= b {
                proof {
                    assert(crate::text::spec_is_ws(sl@[d as int]));
                    assert(false);
                }
                return None;
            }
            proof {
                let u = sl@.skip(a as int);
                crate::text::lemma_find_char_props(u, '.');
                assert(t[d - a] == sl@[d as int]);
                assert forall|j: int| 0 <= j < d - a implies t[j] != '.' by {
                    assert(t[j] == sl@[a + j]);
                    assert(u[j] == sl@[a + j]);
                    assert(u[j] != '.');
                }
                crate::text::lemma_find_char_unique(t, '.', d - a);
            }
            (d, d + 1)
        },
        None => {
            proof {
                let u = sl@.skip(a as int);
                crate::text::lemma_find_char_props(u, '.');
                assert forall|j: int| 0 <= j < t.len() implies t[j] != '.' by {
                    assert(t[j] == sl@[a + j]);
                    assert(u[j] == sl@[a + j]);
                }
                crate::text::lemma_find_char_absent(t, '.');
            }
            (b, b)
        },
    };
    let ghost p = spec_find_char(t, '.');
    let ghost ip = if p == -1 {
        t
    } else {
        t.take(p)
    };
    let ghost fp = if p == -1 {
        Seq::<char>::empty()
    } else {
        t.skip(p + 1)
    };
    proof {
        assert(ip =~= sl@.subrange(a as int, ip_end as int));
        assert(fp =~= sl@.subrange(fp_start as int, b as int));
    }
    let int_val: u64 = if ip_end == a {
        0
    } else {
        match crate::text::parse_digits_bounded(sl, a, ip_end, 9_223_372_036_853u64) {
            Some(v) => v,
            None => {
                return None;
            },
        }
    };
    proof {
        assert(crate::text::spec_all_digits(ip) && crate::text::spec_dec_val(ip) == int_val);
    }
    if !crate::text::all_digits_range(sl, fp_start, b) {
        return None;
    }
    if ip_end == a && fp_start >= b {
        return None;
    }
    // The microsecond value of the fractional digits, zero-padded to six.
    let take_n: usize = if b - fp_start > 6 {
        6
    } else {
        b - fp_start
    };
    let mut padded = copy_range(sl, fp_start, fp_start + take_n);
    while padded.len() < 6
        invariant
            padded@.len() <= 6,
            take_n <= 6,
            padded@.subrange(0, take_n as int) == sl@.subrange(
                fp_start as int,
                fp_start + take_n,
            ),
            padded@.len() >= take_n,
            forall|j: int| take_n <= j < padded@.len() ==> padded@[j] == '0',
        decreases 6 - padded.len(),
    {
        padded.push('0');
    }
    proof {
        if fp.len() >= 6 {
            assert(padded@ =~= spec_pad6(fp));
        } else {
            assert(padded@ =~= fp + Seq::new((6 - fp.len()) as nat, |i: int| '0'));
        }
        assert(crate::text::spec_all_digits(spec_pad6(fp)));
        lemma_dec_val_bound6(spec_pad6(fp));
    }
    let frac: u64 = match crate::text::parse_digits_bounded(padded.as_slice(), 0, padded.len(),
        999_999u64) {
        Some(v) => v,
        None => {
            proof {
                assert(padded@.subrange(0, padded@.len() as int) =~= padded@);
                assert(false);
            }
            return None;
        },
    };
    proof {
        assert(padded@.subrange(0, padded@.len() as int) =~= padded@);
    }
    Some((int_val * 1_000_000 + frac) as i64)
}

/// Mathematical state of the scheduler: the job table, the parallelism
/// limit, the count of workers holding slots, and the paused flag.
#[verifier::ext_equal]
pub struct QueueV {
    pub jobs: Seq<JobV>,
    pub limit: int,
    pub running: int,
    pub paused: bool,
}

/// Index of the job with the given identifier, or -1.
pub open spec fn spec_find_job(jobs: Seq<JobV>, id: Seq<char>) -> int
    decreases jobs.len(),
{
    if jobs.len() == 0 {
        -1
    } else if jobs[0].id == id {
        0
    } else {
        let r = spec_find_job(jobs.skip(1), id);
        if r == -1 {
            -1
        } else {
            r + 1
        }
    }
}

pub proof fn lemma_find_job_props(jobs: Seq<JobV>, id: Seq<char>)
    ensures
        ({
            let r = spec_find_job(jobs, id);
            &&& (r == -1 ==> forall|i: int| 0 <= i < jobs.len() ==> jobs[i].id != id)
            &&& (r != -1 ==> 0 <= r < jobs.len() && jobs[r].id == id && (forall|i: int|
                0 <= i < r ==> jobs[i].id != id))
        }),
    decreases jobs.len(),
{
    if jobs.len() > 0 && jobs[0].id != id {
        let t = jobs.skip(1);
        lemma_find_job_props(t, id);
        let r1 = spec_find_job(t, id);
        if r1 == -1 {
            assert forall|i: int| 0 <= i < jobs.len() implies jobs[i].id != id by {
                if i > 0 {
                    assert(t[i - 1] == jobs[i]);
                    assert(t[i - 1].id != id);
                }
            }
        } else {
            assert(jobs[r1 + 1] == t[r1]);
            assert forall|i: int| 0 <= i < r1 + 1 implies jobs[i].id != id by {
                if i > 0 {
                    assert(t[i - 1] == jobs[i]);
                    assert(t[i - 1].id != id);
                }
            }
        }
    }
}

/// Number of jobs in the running state.
pub open spec fn spec_count_running(jobs: Seq<JobV>) -> int
    decreases jobs.len(),
{
    if jobs.len() == 0 {
        0
    } else {
        spec_count_running(jobs.drop_last()) + (if jobs.last().status == JobState::Running {
            1int
        } else {
            0int
        })
    }
}

/// Admitting a job: it joins the table in the queued state and the queued
/// event is announced, unless its identifier is already taken.
pub open spec fn spec_add_job(s: QueueV, j: JobV) -> (QueueV, Option<ResponseV>) {
    if spec_find_job(s.jobs, j.id) != -1 {
        (s, None)
    } else {
        (QueueV { jobs: s.jobs.push(j), ..s }, Some(ResponseV::JobQueued { id: j.id }))
    }
}

/// A worker asking to start: it passes only when the scheduler is not
/// paused, a slot is free under the current limit, and its job is still
/// queued; passing marks the job running and takes the slot.
pub open spec fn spec_try_start(s: QueueV, id: Seq<char>) -> (QueueV, bool) {
    if s.paused || s.running >= s.limit {
        (s, false)
    } else {
        let i = spec_find_job(s.jobs, id);
        if i != -1 && s.jobs[i].status == JobState::Queued {
            (
                QueueV {
                    jobs: s.jobs.update(i, JobV { status: JobState::Running, ..s.jobs[i] }),
                    running: s.running + 1,
                    ..s
                },
                true,
            )
        } else {
            (s, false)
        }
    }
}

/// A queued job leaving on cancellation: it is removed before ever
/// running, and the cancelled event is announced.
pub open spec fn spec_cancel_queued(s: QueueV, id: Seq<char>) -> (QueueV, Option<ResponseV>) {
    let i = spec_find_job(s.jobs, id);
    if i != -1 && s.jobs[i].status == JobState::Queued {
        (QueueV { jobs: s.jobs.remove(i), ..s }, Some(ResponseV::JobCancelled { id: id }))
    } else {
        (s, None)
    }
}

/// A runner event folded into the table: progress updates the percent,
/// each terminal event moves the job to its terminal state; the completed
/// job reaches one hundred percent.  Events for jobs that are not running
/// change nothing.
pub open spec fn spec_apply_event(s: QueueV, ev: FfmpegEventV) -> (QueueV, Option<ResponseV>) {
    let id = spec_event_id(ev);
    let i = spec_find_job(s.jobs, id);
    if i == -1 || s.jobs[i].status != JobState::Running {
        (s, None)
    } else {
        match ev {
            FfmpegEventV::Progress { id, percent_milli, fps_milli, speed_milli, frame } => (
                QueueV {
                    jobs: s.jobs.update(i, JobV { percent_milli, ..s.jobs[i] }),
                    ..s
                },
                Some(
                    ResponseV::JobProgress {
                        id,
                        percent_milli,
                        fps_milli,
                        speed_milli,
                        frame,
                    },
                ),
            ),
            FfmpegEventV::Done { id } => (
                QueueV {
                    jobs: s.jobs.update(
                        i,
                        JobV { status: JobState::Done, percent_milli: 100_000, ..s.jobs[i] },
                    ),
                    ..s
                },
                Some(ResponseV::JobDone { id }),
            ),
            FfmpegEventV::Error { id, message } => (
                QueueV {
                    jobs: s.jobs.update(i, JobV { status: JobState::Error, ..s.jobs[i] }),
                    ..s
                },
                Some(ResponseV::JobError { id, message }),
            ),
            FfmpegEventV::Cancelled { id } => (
                QueueV {
                    jobs: s.jobs.update(i, JobV { status: JobState::Cancelled, ..s.jobs[i] }),
                    ..s
                },
                Some(ResponseV::JobCancelled { id }),
            ),
        }
    }
}

/// The job a runner event speaks of.
pub open spec fn spec_event_id(ev: FfmpegEventV) -> Seq<char> {
    match ev {
        FfmpegEventV::Progress { id, .. } => id,
        FfmpegEventV::Done { id } => id,
        FfmpegEventV::Error { id, .. } => id,
        FfmpegEventV::Cancelled { id } => id,
    }
}

/// A worker giving its slot back.
pub open spec fn spec_release_slot(s: QueueV) -> QueueV {
    if s.running > 0 {
        QueueV { running: s.running - 1, ..s }
    } else {
        s
    }
}

/// A finished worker's table entry leaving.
pub open spec fn spec_remove_job(s: QueueV, id: Seq<char>) -> QueueV {
    let i = spec_find_job(s.jobs, id);
    if i == -1 {
        s
    } else {
        QueueV { jobs: s.jobs.remove(i), ..s }
    }
}

/// A new parallelism limit, at least one, taking effect immediately;
/// workers already started continue.
pub open spec fn spec_set_max_parallel(s: QueueV, n: int) -> QueueV {
    QueueV { limit: if n < 1 { 1 } else { n }, ..s }
}

/// Pausing stops further starts; the table is untouched.
pub open spec fn spec_pause_all(s: QueueV) -> QueueV {
    QueueV { paused: true, ..s }
}

/// Resuming clears the flag; the table is untouched.
pub open spec fn spec_resume_all(s: QueueV) -> QueueV {
    QueueV { paused: false, ..s }
}

/// The non-terminal entries, in order.
pub open spec fn spec_prune(jobs: Seq<JobV>) -> Seq<JobV>
    decreases jobs.len(),
{
    if jobs.len() == 0 {
        Seq::empty()
    } else {
        (if spec_is_terminal(jobs[0].status) {
            Seq::empty()
        } else {
            seq![jobs[0]]
        }) + spec_prune(jobs.skip(1))
    }
}

/// A status request: terminal entries are pruned, and the report lists the
/// remaining jobs in table order.
pub open spec fn spec_get_status(s: QueueV) -> (QueueV, ResponseV) {
    let kept = spec_prune(s.jobs);
    (
        QueueV { jobs: kept, ..s },
        ResponseV::StatusReport { jobs: kept.map_values(|j: JobV| spec_to_status(j)) },
    )
}

/// The scheduler's state machine.  The task layer drives it, one call at
/// a time, and performs the process work around it.
pub struct JobQueue {
    jobs: Vec<Job>,
    limit: usize,
    running: usize,
    paused: bool,
}

impl View for JobQueue {
    type V = QueueV;

    closed spec fn view(&self) -> QueueV {
        QueueV {
            jobs: self.jobs@.map_values(|j: Job| j@),
            limit: self.limit as int,
            running: self.running as int,
            paused: self.paused,
        }
    }
}

impl JobQueue {
    /// A fresh scheduler with an empty table and a limit of at least one.
    pub fn new(max_parallel: usize) -> (r: Self)
        ensures
            r@ == (QueueV {
                jobs: Seq::empty(),
                limit: if max_parallel < 1 {
                    1int
                } else {
                    max_parallel as int
                },
                running: 0,
                paused: false,
            }),
    {
        let r = JobQueue {
            jobs: Vec::new(),
            limit: if max_parallel < 1 {
                1
            } else {
                max_parallel
            },
            running: 0,
            paused: false,
        };
        proof {
            assert(r.jobs@.map_values(|j: Job| j@) =~= Seq::<JobV>::empty());
            assert(r@ =~= (QueueV {
                jobs: Seq::<JobV>::empty(),
                limit: if max_parallel < 1 {
                    1int
                } else {
                    max_parallel as int
                },
                running: 0,
                paused: false,
            }));
        }
        r
    }

    /// Index of the job with the given identifier.
    fn find_job(&self, id: &Vec<char>) -> (r: Option<usize>)
        ensures
            ({
                let f = spec_find_job(self@.jobs, id@);
                match r {
                    Some(i) => i == f && i < self@.jobs.len() && self@.jobs[i as int].id == id@,
                    None => f == -1,
                }
            }),
    {
        let ghost jv = self@.jobs;
        proof {
            lemma_find_job_props(jv, id@);
        }
        let mut i: usize = 0;
        while i < self.jobs.len()
            invariant
                i <= self.jobs@.len(),
                jv == self@.jobs,
                jv.len() == self.jobs@.len(),
                forall|j: int| 0 <= j < i ==> jv[j].id != id@,
            decreases self.jobs@.len() - i,
        {
            if chars_eq(&self.jobs[i].id, id) {
                proof {
                    lemma_find_job_props(jv, id@);
                    let f = spec_find_job(jv, id@);
                    if f == -1 {
                        assert(jv[i as int].id != id@);
                    }
                    if f < i {
                        assert(jv[f].id != id@);
                    }
                    if f > i {
                        assert(jv[i as int].id != id@);
                    }
                }
                return Some(i);
            }
            i += 1;
        }
        proof {
            lemma_find_job_props(jv, id@);
            let f = spec_find_job(jv, id@);
            if f != -1 {
                assert(jv[f].id != id@);
            }
        }
        None
    }

    /// True when a job with the identifier stands in the table; a cancel
    /// command targeting it is then worth delivering.
    pub fn cancel_job(&self, id: &Vec<char>) -> (r: bool)
        ensures
            r == (spec_find_job(self@.jobs, id@) != -1),
    {
        self.find_job(id).is_some()
    }

    /// Admits a job into the table, queued, announcing it; an identifier
    /// already present admits nothing.
    pub fn add_job(&mut self, job: Job) -> (r: Option<Response>)
        requires
            job@.status == JobState::Queued,
        ensures
            final(self)@ == spec_add_job(old(self)@, job@).0,
            ({
                let sp = spec_add_job(old(self)@, job@).1;
                match r {
                    Some(resp) => sp == Some(resp@),
                    None => sp is None,
                }
            }),
    {
        if self.find_job(&job.id).is_some() {
            return None;
        }
        let id = copy_range(job.id.as_slice(), 0, job.id.len());
        let ghost jv = job@;
        self.jobs.push(job);
        proof {
            assert(id@ =~= jv.id);
            assert(self.jobs@.map_values(|j: Job| j@) =~= old(self)@.jobs.push(jv));
            assert(self@ =~= spec_add_job(old(self)@, jv).0);
        }
        Some(Response::JobQueued { id })
    }

    /// A worker asking to start.
    pub fn try_start(&mut self, id: &Vec<char>) -> (r: bool)
        ensures
            final(self)@ == spec_try_start(old(self)@, id@).0,
            r == spec_try_start(old(self)@, id@).1,
    {
        if self.paused || self.running >= self.limit {
            return false;
        }
        let i = match self.find_job(id) {
            Some(i) => i,
            None => {
                return false;
            },
        };
        if !matches!(self.jobs[i].status, JobState::Queued) {
            return false;
        }
        let job = &mut self.jobs[i];
        job.status = JobState::Running;
        self.running = self.running + 1;
        proof {
            assert(self.jobs@.map_values(|j: Job| j@) =~= old(self)@.jobs.update(
                i as int,
                JobV { status: JobState::Running, ..old(self)@.jobs[i as int] },
            ));
            assert(self@ =~= spec_try_start(old(self)@, id@).0);
        }
        true
    }

    /// A queued job leaving on cancellation, announcing it.
    pub fn cancel_queued(&mut self, id: &Vec<char>) -> (r: Option<Response>)
        ensures
            final(self)@ == spec_cancel_queued(old(self)@, id@).0,
            ({
                let sp = spec_cancel_queued(old(self)@, id@).1;
                match r {
                    Some(resp) => sp == Some(resp@),
                    None => sp is None,
                }
            }),
    {
        let i = match self.find_job(id) {
            Some(i) => i,
            None => {
                return None;
            },
        };
        if !matches!(self.jobs[i].status, JobState::Queued) {
            return None;
        }
        self.jobs.remove(i);
        let out = copy_range(id.as_slice(), 0, id.len());
        proof {
            assert(out@ =~= id@);
            assert(self.jobs@.map_values(|j: Job| j@) =~= old(self)@.jobs.remove(i as int));
            assert(self@ =~= spec_cancel_queued(old(self)@, id@).0);
        }
        Some(Response::JobCancelled { id: out })
    }

    /// Folds a runner event into the table, yielding the response to send.
    pub fn apply_event(&mut self, ev: &FfmpegEvent) -> (r: Option<Response>)
        ensures
            final(self)@ == spec_apply_event(old(self)@, ev@).0,
            ({
                let sp = spec_apply_event(old(self)@, ev@).1;
                match r {
                    Some(resp) => sp == Some(resp@),
                    None => sp is None,
                }
            }),
    {
        let ev_id: &Vec<char> = match ev {
            FfmpegEvent::Progress { id, .. } => id,
            FfmpegEvent::Done { id } => id,
            FfmpegEvent::Error { id, .. } => id,
            FfmpegEvent::Cancelled { id } => id,
        };
        let i = match self.find_job(ev_id) {
            Some(i) => i,
            None => {
                return None;
            },
        };
        if !matches!(self.jobs[i].status, JobState::Running) {
            return None;
        }
        match ev {
            FfmpegEvent::Progress { id, percent_milli, fps_milli, speed_milli, frame } => {
                let job = &mut self.jobs[i];
                job.percent_milli = *percent_milli;
                let out = copy_range(id.as_slice(), 0, id.len());
                proof {
                    assert(out@ =~= id@);
                    assert(self.jobs@.map_values(|j: Job| j@) =~= old(self)@.jobs.update(
                        i as int,
                        JobV { percent_milli: *percent_milli, ..old(self)@.jobs[i as int] },
                    ));
                    assert(self@ =~= spec_apply_event(old(self)@, ev@).0);
                }
                Some(
                    Response::JobProgress {
                        id: out,
                        percent_milli: *percent_milli,
                        fps_milli: *fps_milli,
                        speed_milli: *speed_milli,
                        frame: *frame,
                    },
                )
            },
            FfmpegEvent::Done { id } => {
                let job = &mut self.jobs[i];
                job.status = JobState::Done;
                job.percent_milli = 100_000;
                let out = copy_range(id.as_slice(), 0, id.len());
                proof {
                    assert(out@ =~= id@);
                    assert(self.jobs@.map_values(|j: Job| j@) =~= old(self)@.jobs.update(
                        i as int,
                        JobV {
                            status: JobState::Done,
                            percent_milli: 100_000,
                            ..old(self)@.jobs[i as int]
                        },
                    ));
                    assert(self@ =~= spec_apply_event(old(self)@, ev@).0);
                }
                Some(Response::JobDone { id: out })
            },
            FfmpegEvent::Error { id, message } => {
                let job = &mut self.jobs[i];
                job.status = JobState::Error;
                let out = copy_range(id.as_slice(), 0, id.len());
                let msg = copy_range(message.as_slice(), 0, message.len());
                proof {
                    assert(out@ =~= id@);
                    assert(msg@ =~= message@);
                    assert(self.jobs@.map_values(|j: Job| j@) =~= old(self)@.jobs.update(
                        i as int,
                        JobV { status: JobState::Error, ..old(self)@.jobs[i as int] },
                    ));
                    assert(self@ =~= spec_apply_event(old(self)@, ev@).0);
                }
                Some(Response::JobError { id: out, message: msg })
            },
            FfmpegEvent::Cancelled { id } => {
                let job = &mut self.jobs[i];
                job.status = JobState::Cancelled;
                let out = copy_range(id.as_slice(), 0, id.len());
                proof {
                    assert(out@ =~= id@);
                    assert(self.jobs@.map_values(|j: Job| j@) =~= old(self)@.jobs.update(
                        i as int,
                        JobV { status: JobState::Cancelled, ..old(self)@.jobs[i as int] },
                    ));
                    assert(self@ =~= spec_apply_event(old(self)@, ev@).0);
                }
                Some(Response::JobCancelled { id: out })
            },
        }
    }

    /// A worker giving its slot back on exit.
    pub fn release_slot(&mut self)
        ensures
            final(self)@ == spec_release_slot(old(self)@),
    {
        if self.running > 0 {
            self.running = self.running - 1;
        }
        proof {
            assert(self@ =~= spec_release_slot(old(self)@));
        }
    }

    /// A finished worker's entry leaving the table.
    pub fn remove_job(&mut self, id: &Vec<char>)
        ensures
            final(self)@ == spec_remove_job(old(self)@, id@),
    {
        match self.find_job(id) {
            Some(i) => {
                self.jobs.remove(i);
                proof {
                    assert(self.jobs@.map_values(|j: Job| j@) =~= old(self)@.jobs.remove(
                        i as int,
                    ));
                    assert(self@ =~= spec_remove_job(old(self)@, id@));
                }
            },
            None => {
                proof {
                    assert(self@ =~= spec_remove_job(old(self)@, id@));
                }
            },
        }
    }

    /// Stores a new parallelism limit of at least one; it takes effect for
    /// every later start decision.
    pub fn set_max_parallel(&mut self, n: usize)
        ensures
            final(self)@ == spec_set_max_parallel(old(self)@, n as int),
    {
        self.limit = if n < 1 {
            1
        } else {
            n
        };
        proof {
            assert(self@ =~= spec_set_max_parallel(old(self)@, n as int));
        }
    }

    /// Sets the paused flag; the signalling of live processes is the
    /// caller's.
    pub fn pause_all(&mut self)
        ensures
            final(self)@ == spec_pause_all(old(self)@),
    {
        self.paused = true;
        proof {
            assert(self@ =~= spec_pause_all(old(self)@));
        }
    }

    /// Clears the paused flag; the signalling and the slot wake-up are the
    /// caller's.
    pub fn resume_all(&mut self)
        ensures
            final(self)@ == spec_resume_all(old(self)@),
    {
        self.paused = false;
        proof {
            assert(self@ =~= spec_resume_all(old(self)@));
        }
    }

    /// Prunes terminal entries and reports the remaining jobs.
    pub fn get_status(&mut self) -> (r: Response)
        ensures
            final(self)@ == spec_get_status(old(self)@).0,
            r@ == spec_get_status(old(self)@).1,
    {
        let ghost orig = self@.jobs;
        let mut i: usize = self.jobs.len();
        proof {
            assert(orig.skip(i as int) =~= Seq::<JobV>::empty());
            assert(orig.take(i as int) =~= orig);
        }
        while i > 0
            invariant
                i <= orig.len(),
                self.jobs@.map_values(|j: Job| j@) =~= orig.take(i as int) + spec_prune(
                    orig.skip(i as int),
                ),
                self.jobs@.len() == i + spec_prune(orig.skip(i as int)).len(),
                self.limit == old(self).limit,
                self.running == old(self).running,
                self.paused == old(self).paused,
            decreases i,
        {
            i -= 1;
            let terminal = matches!(
                self.jobs[i].status,
                JobState::Done | JobState::Error | JobState::Cancelled
            );
            proof {
                assert(self.jobs@.map_values(|j: Job| j@)[i as int] == orig[i as int]);
                assert(self.jobs@[i as int]@ == orig[i as int]);
                assert(orig.skip(i as int)[0] == orig[i as int]);
                assert(orig.skip(i as int).skip(1) =~= orig.skip(i + 1));
            }
            if terminal {
                let ghost before = self.jobs@;
                self.jobs.remove(i);
                proof {
                    let ghost mid = orig.take(i + 1) + spec_prune(orig.skip(i + 1));
                    let ghost target = orig.take(i as int) + spec_prune(orig.skip(i as int));
                    assert(spec_prune(orig.skip(i as int)) == spec_prune(orig.skip(i + 1)));
                    before.remove_ensures(i as int);
                    assert(self.jobs@ == before.remove(i as int));
                    assert forall|t: int| 0 <= t < self.jobs@.len() implies self.jobs@.map_values(
                        |j: Job| j@,
                    )[t] == target[t] by {
                        if t < i {
                            assert(self.jobs@[t] == before[t]);
                            assert(before.map_values(|j: Job| j@)[t] == mid[t]);
                        } else {
                            assert(self.jobs@[t] == before[t + 1]);
                            assert(before.map_values(|j: Job| j@)[t + 1] == mid[t + 1]);
                        }
                    }
                    assert(self.jobs@.map_values(|j: Job| j@) =~= target);
                }
            } else {
                proof {
                    assert(orig.take(i + 1) =~= orig.take(i as int) + seq![orig[i as int]]);
                    assert(self.jobs@.map_values(|j: Job| j@) =~= orig.take(i as int)
                        + spec_prune(orig.skip(i as int)));
                }
            }
        }
        proof {
            assert(orig.take(0) =~= Seq::<JobV>::empty());
            assert(self.jobs@.map_values(|j: Job| j@) =~= spec_prune(orig));
        }
        // The report lists the kept jobs in table order.
        let mut statuses: Vec<JobStatus> = Vec::new();
        let ghost kept = spec_prune(orig);
        let mut k: usize = 0;
        while k < self.jobs.len()
            invariant
                k <= self.jobs@.len(),
                self.jobs@.map_values(|j: Job| j@) =~= kept,
                statuses@.len() == k,
                forall|t: int| 0 <= t < k ==> statuses@[t]@ == spec_to_status(kept[t]),
                self.limit == old(self).limit,
                self.running == old(self).running,
                self.paused == old(self).paused,
            decreases self.jobs@.len() - k,
        {
            proof {
                assert(self.jobs@.map_values(|j: Job| j@)[k as int] == kept[k as int]);
                assert(self.jobs@[k as int]@ == kept[k as int]);
            }
            let st = self.jobs[k].to_status();
            statuses.push(st);
            k += 1;
        }
        proof {
            assert(self@ =~= spec_get_status(old(self)@).0);
            assert(statuses@.map_values(|st2: JobStatus| st2@) =~= kept.map_values(
                |j: JobV| spec_to_status(j),
            ));
        }
        Response::StatusReport { jobs: statuses }
    }
}

/// One interaction with the scheduler's state machine.
pub enum QueueOp {
    AddJob(JobV),
    TryStart(Seq<char>),
    CancelQueued(Seq<char>),
    ApplyEvent(FfmpegEventV),
    ReleaseSlot,
    RemoveJob(Seq<char>),
    SetMaxParallel(int),
    PauseAll,
    ResumeAll,
    GetStatus,
}

/// The machine's transition for one interaction: the next state and the
/// responses announced.
pub open spec fn spec_queue_step(s: QueueV, op: QueueOp) -> (QueueV, Seq<ResponseV>) {
    match op {
        QueueOp::AddJob(j) => {
            let (s2, r) = spec_add_job(s, j);
            (s2, spec_opt_resp(r))
        },
        QueueOp::TryStart(id) => (spec_try_start(s, id).0, Seq::empty()),
        QueueOp::CancelQueued(id) => {
            let (s2, r) = spec_cancel_queued(s, id);
            (s2, spec_opt_resp(r))
        },
        QueueOp::ApplyEvent(ev) => {
            let (s2, r) = spec_apply_event(s, ev);
            (s2, spec_opt_resp(r))
        },
        QueueOp::ReleaseSlot => (spec_release_slot(s), Seq::empty()),
        QueueOp::RemoveJob(id) => (spec_remove_job(s, id), Seq::empty()),
        QueueOp::SetMaxParallel(n) => (spec_set_max_parallel(s, n), Seq::empty()),
        QueueOp::PauseAll => (spec_pause_all(s), Seq::empty()),
        QueueOp::ResumeAll => (spec_resume_all(s), Seq::empty()),
        QueueOp::GetStatus => {
            let (s2, r) = spec_get_status(s);
            (s2, seq![r])
        },
    }
}

/// An optional response as a (possibly empty) announcement.
pub open spec fn spec_opt_resp(r: Option<ResponseV>) -> Seq<ResponseV> {
    match r {
        Some(resp) => seq![resp],
        None => Seq::empty(),
    }
}

/// The machine run over a whole sequence of interactions: the final state
/// and every response announced, in order.
pub open spec fn spec_run_ops(s: QueueV, ops: Seq<QueueOp>) -> (QueueV, Seq<ResponseV>)
    decreases ops.len(),
{
    if ops.len() == 0 {
        (s, Seq::empty())
    } else {
        let (s1, r1) = spec_queue_step(s, ops[0]);
        let (s2, r2) = spec_run_ops(s1, ops.skip(1));
        (s2, r1 + r2)
    }
}

/// Jobs enter the machine queued, at zero percent.
pub open spec fn spec_ops_wf(ops: Seq<QueueOp>) -> bool {
    forall|k: int|
        0 <= k < ops.len() ==> (#[trigger] ops[k] matches QueueOp::AddJob(j) ==> j.status
            == JobState::Queued)
}

/// Two limit commands with the same bound are indistinguishable from one:
/// storing the same limit twice is storing it once.
pub proof fn lemma_set_max_parallel_idempotent(s: QueueV, n: int)
    ensures
        spec_set_max_parallel(spec_set_max_parallel(s, n), n) == spec_set_max_parallel(s, n),
{
    assert(spec_set_max_parallel(spec_set_max_parallel(s, n), n) =~= spec_set_max_parallel(
        s,
        n,
    ));
}

/// Pausing and then resuming returns the machine to its prior state: the
/// job table — the set of running jobs and their percents included — the
/// limit and the slot count are untouched.
pub proof fn lemma_pause_resume_preserves_jobs(s: QueueV)
    requires
        !s.paused,
    ensures
        spec_resume_all(spec_pause_all(s)) == s,
        spec_pause_all(s).jobs == s.jobs,
{
    assert(spec_resume_all(spec_pause_all(s)) =~= s);
}

/// Distinct identifiers throughout the table.
pub open spec fn spec_unique_ids(jobs: Seq<JobV>) -> bool {
    forall|a: int, b: int|
        0 <= a < b < jobs.len() ==> (#[trigger] jobs[a].id) != (#[trigger] jobs[b].id)
}

/// Cancelling a queued job removes it with a cancelled announcement and
/// without it ever being observed running: the job leaves in the queued
/// state, and no entry for it remains.
pub proof fn lemma_cancel_queued_never_ran(s: QueueV, id: Seq<char>)
    requires
        spec_unique_ids(s.jobs),
        spec_find_job(s.jobs, id) != -1,
        s.jobs[spec_find_job(s.jobs, id)].status == JobState::Queued,
    ensures
        spec_cancel_queued(s, id).1 == Some(ResponseV::JobCancelled { id: id }),
        spec_find_job(spec_cancel_queued(s, id).0.jobs, id) == -1,
{
    let i = spec_find_job(s.jobs, id);
    lemma_find_job_props(s.jobs, id);
    let jobs2 = s.jobs.remove(i);
    s.jobs.remove_ensures(i);
    assert forall|t: int| 0 <= t < jobs2.len() implies jobs2[t].id != id by {
        if t < i {
            assert(jobs2[t] == s.jobs[t]);
        } else {
            assert(jobs2[t] == s.jobs[t + 1]);
        }
    }
    lemma_find_job_props(jobs2, id);
    if spec_find_job(jobs2, id) != -1 {
        assert(jobs2[spec_find_job(jobs2, id)].id != id);
    }
}

/// How an update at one index moves the running count.
proof fn lemma_count_running_update(jobs: Seq<JobV>, i: int, j2: JobV)
    requires
        0 <= i < jobs.len(),
    ensures
        spec_count_running(jobs.update(i, j2)) == spec_count_running(jobs) - (
        if jobs[i].status == JobState::Running {
            1int
        } else {
            0int
        }) + (if j2.status == JobState::Running {
            1int
        } else {
            0int
        }),
    decreases jobs.len(),
{
    let u = jobs.update(i, j2);
    if i == jobs.len() - 1 {
        assert(u.drop_last() =~= jobs.drop_last());
        assert(u.last() == j2);
    } else {
        assert(u.drop_last() =~= jobs.drop_last().update(i, j2));
        assert(u.last() == jobs.last());
        lemma_count_running_update(jobs.drop_last(), i, j2);
        assert(jobs.drop_last()[i] == jobs[i]);
    }
}

/// The running count of concatenated tables.
proof fn lemma_count_running_concat(a: Seq<JobV>, b: Seq<JobV>)
    ensures
        spec_count_running(a + b) == spec_count_running(a) + spec_count_running(b),
    decreases b.len(),
{
    if b.len() == 0 {
        assert(a + b =~= a);
    } else {
        assert((a + b).drop_last() =~= a + b.drop_last());
        assert((a + b).last() == b.last());
        lemma_count_running_concat(a, b.drop_last());
    }
}

/// The running count of a one-entry table.
proof fn lemma_count_running_singleton(j: JobV)
    ensures
        spec_count_running(seq![j]) == (if j.status == JobState::Running {
            1int
        } else {
            0int
        }),
{
    assert(seq![j].drop_last() =~= Seq::<JobV>::empty());
    assert(spec_count_running(Seq::<JobV>::empty()) == 0);
    assert(spec_count_running(seq![j].drop_last()) == 0);
    assert(seq![j].last() == j);
}

/// How removing one entry moves the running count.
proof fn lemma_count_running_remove(jobs: Seq<JobV>, i: int)
    requires
        0 <= i < jobs.len(),
    ensures
        spec_count_running(jobs.remove(i)) == spec_count_running(jobs) - (
        if jobs[i].status == JobState::Running {
            1int
        } else {
            0int
        }),
{
    let a = jobs.subrange(0, i);
    let b = jobs.subrange(i + 1, jobs.len() as int);
    lemma_count_running_concat(a, b);
    assert(jobs =~= a + (seq![jobs[i]] + b));
    lemma_count_running_concat(a, seq![jobs[i]] + b);
    lemma_count_running_concat(seq![jobs[i]], b);
    lemma_count_running_singleton(jobs[i]);
}

/// Pruning drops no running job: the running count is kept.
proof fn lemma_count_running_prune(jobs: Seq<JobV>)
    ensures
        spec_count_running(spec_prune(jobs)) == spec_count_running(jobs),
        spec_prune(jobs).len() <= jobs.len(),
    decreases jobs.len(),
{
    if jobs.len() > 0 {
        let h: Seq<JobV> = if spec_is_terminal(jobs[0].status) {
            Seq::empty()
        } else {
            seq![jobs[0]]
        };
        lemma_count_running_prune(jobs.skip(1));
        lemma_count_running_concat(h, spec_prune(jobs.skip(1)));
        lemma_count_running_concat(seq![jobs[0]], jobs.skip(1));
        assert(jobs =~= seq![jobs[0]] + jobs.skip(1));
        lemma_count_running_singleton(jobs[0]);
        if spec_is_terminal(jobs[0].status) {
            assert(spec_count_running(h) == 0);
        }
    }
}

/// The machine's usage discipline, along a run: a worker releases its slot
/// only once its job has left the running state, and a limit command never
/// sets the limit below the jobs then running.  (The protocol itself
/// permits lowering the limit below the running count; workers already
/// started then finish at the old width, and the bound below is stated
/// for runs that do not do so.)
pub open spec fn spec_run_discipline(s: QueueV, ops: Seq<QueueOp>) -> bool
    decreases ops.len(),
{
    if ops.len() == 0 {
        true
    } else {
        let cond = match ops[0] {
            QueueOp::ReleaseSlot => spec_count_running(s.jobs) < s.running,
            QueueOp::SetMaxParallel(n) => n >= spec_count_running(s.jobs),
            _ => true,
        };
        cond && spec_run_discipline(spec_queue_step(s, ops[0]).0, ops.skip(1))
    }
}

/// The count of running jobs never exceeds the parallelism limit: a
/// worker starts only while a free slot exists under the current
/// limit, and every other interaction keeps or lowers the count.
pub proof fn lemma_running_within_limit(s: QueueV, ops: Seq<QueueOp>)
    requires
        spec_ops_wf(ops),
        spec_run_discipline(s, ops),
        spec_count_running(s.jobs) <= s.running,
        spec_count_running(s.jobs) <= s.limit,
    ensures
        spec_count_running(spec_run_ops(s, ops).0.jobs) <= spec_run_ops(s, ops).0.limit,
        spec_count_running(spec_run_ops(s, ops).0.jobs) <= spec_run_ops(s, ops).0.running,
    decreases ops.len(),
{
    if ops.len() > 0 {
        let op = ops[0];
        let s1 = spec_queue_step(s, op).0;
        lemma_step_running_bounds(s, op);
        assert(spec_ops_wf(ops.skip(1))) by {
            assert(forall|k: int| 0 <= k < ops.skip(1).len() ==> ops.skip(1)[k] == ops[k + 1]);
        }
        lemma_running_within_limit(s1, ops.skip(1));
    }
}

/// One interaction keeps the running-count bounds, under the usage
/// discipline's conditions for that interaction.
proof fn lemma_step_running_bounds(s: QueueV, op: QueueOp)
    requires
        spec_count_running(s.jobs) <= s.running,
        spec_count_running(s.jobs) <= s.limit,
        op is AddJob ==> op->AddJob_0.status == JobState::Queued,
        op is ReleaseSlot ==> spec_count_running(s.jobs) < s.running,
        op is SetMaxParallel ==> op->SetMaxParallel_0 >= spec_count_running(s.jobs),
    ensures
        spec_count_running(spec_queue_step(s, op).0.jobs) <= spec_queue_step(s, op).0.running,
        spec_count_running(spec_queue_step(s, op).0.jobs) <= spec_queue_step(s, op).0.limit,
{
    let s1 = spec_queue_step(s, op).0;
    match op {
        QueueOp::AddJob(j) => {
            if spec_find_job(s.jobs, j.id) == -1 {
                assert(s1.jobs.drop_last() =~= s.jobs);
                assert(s1.jobs.last() == j);
            }
        },
        QueueOp::TryStart(id) => {
            if !(s.paused || s.running >= s.limit) {
                let i = spec_find_job(s.jobs, id);
                if i != -1 && s.jobs[i].status == JobState::Queued {
                    lemma_find_job_props(s.jobs, id);
                    lemma_count_running_update(
                        s.jobs,
                        i,
                        JobV { status: JobState::Running, ..s.jobs[i] },
                    );
                }
            }
        },
        QueueOp::CancelQueued(id) => {
            let i = spec_find_job(s.jobs, id);
            if i != -1 && s.jobs[i].status == JobState::Queued {
                lemma_find_job_props(s.jobs, id);
                lemma_count_running_remove(s.jobs, i);
            }
        },
        QueueOp::ApplyEvent(ev) => {
            let id = spec_event_id(ev);
            let i = spec_find_job(s.jobs, id);
            if i != -1 && s.jobs[i].status == JobState::Running {
                lemma_find_job_props(s.jobs, id);
                match ev {
                    FfmpegEventV::Progress { percent_milli, .. } => {
                        lemma_count_running_update(
                            s.jobs,
                            i,
                            JobV { percent_milli, ..s.jobs[i] },
                        );
                    },
                    FfmpegEventV::Done { .. } => {
                        lemma_count_running_update(
                            s.jobs,
                            i,
                            JobV {
                                status: JobState::Done,
                                percent_milli: 100_000,
                                ..s.jobs[i]
                            },
                        );
                    },
                    FfmpegEventV::Error { .. } => {
                        lemma_count_running_update(
                            s.jobs,
                            i,
                            JobV { status: JobState::Error, ..s.jobs[i] },
                        );
                    },
                    FfmpegEventV::Cancelled { .. } => {
                        lemma_count_running_update(
                            s.jobs,
                            i,
                            JobV { status: JobState::Cancelled, ..s.jobs[i] },
                        );
                    },
                }
            }
        },
        QueueOp::RemoveJob(id) => {
            let i = spec_find_job(s.jobs, id);
            if i != -1 {
                lemma_find_job_props(s.jobs, id);
                lemma_count_running_remove(s.jobs, i);
            }
        },
        QueueOp::GetStatus => {
            lemma_count_running_prune(s.jobs);
        },
        _ => {},
    }
}

/// True when the response speaks of the given job.
pub open spec fn spec_resp_mentions(r: ResponseV, id: Seq<char>) -> bool {
    match r {
        ResponseV::JobQueued { id: i } => i == id,
        ResponseV::JobProgress { id: i, .. } => i == id,
        ResponseV::JobDone { id: i } => i == id,
        ResponseV::JobError { id: i, .. } => i == id,
        ResponseV::JobCancelled { id: i } => i == id,
        ResponseV::StatusReport { .. } => false,
    }
}

/// True for the terminal announcements.
pub open spec fn spec_is_terminal_resp(r: ResponseV) -> bool {
    r is JobDone || r is JobError || r is JobCancelled
}

/// The responses speaking of one job, in order of announcement.
pub open spec fn spec_stream_of(rs: Seq<ResponseV>, id: Seq<char>) -> Seq<ResponseV>
    decreases rs.len(),
{
    if rs.len() == 0 {
        Seq::empty()
    } else {
        spec_stream_of(rs.drop_last(), id) + (if spec_resp_mentions(rs.last(), id) {
            seq![rs.last()]
        } else {
            Seq::empty()
        })
    }
}

/// The shape a job's event stream always has: it opens with the queued
/// announcement, continues with progress, and a terminal announcement can
/// stand only at its end — so at most one terminal event is ever
/// announced, and nothing follows it.
pub open spec fn spec_wf_stream(evs: Seq<ResponseV>) -> bool {
    forall|t: int|
        0 <= t < evs.len() ==> ((t == 0 ==> (#[trigger] evs[t]) is JobQueued) && (t > 0
            ==> evs[t] is JobProgress || (t == evs.len() - 1 && spec_is_terminal_resp(evs[t]))))
}

/// The per-job relation the machine maintains between its state and the
/// stream announced so far: while an add for the job is still to come the
/// stream is empty, and while the job's entry is not terminal the stream
/// opened with its queued announcement and holds no terminal one.
pub open spec fn spec_stream_inv(
    s: QueueV,
    e: Seq<ResponseV>,
    id: Seq<char>,
    more_adds: bool,
) -> bool {
    let i = spec_find_job(s.jobs, id);
    &&& spec_wf_stream(e)
    &&& spec_unique_ids(s.jobs)
    &&& (more_adds ==> i == -1 && e.len() == 0)
    &&& (i != -1 && !spec_is_terminal(s.jobs[i].status) ==> e.len() >= 1 && (forall|t: int|
        0 <= t < e.len() ==> !spec_is_terminal_resp(#[trigger] e[t])))
}

/// Tables whose entries carry the same identifiers place a job at the
/// same index.
proof fn lemma_find_job_same_ids(a: Seq<JobV>, b: Seq<JobV>, id: Seq<char>)
    requires
        a.len() == b.len(),
        forall|t: int| 0 <= t < a.len() ==> (#[trigger] a[t].id) == b[t].id,
    ensures
        spec_find_job(a, id) == spec_find_job(b, id),
    decreases a.len(),
{
    if a.len() > 0 && a[0].id != id {
        let ta = a.skip(1);
        let tb = b.skip(1);
        assert(forall|t: int| 0 <= t < ta.len() ==> (#[trigger] ta[t].id) == a[t + 1].id);
        assert(forall|t: int| 0 <= t < tb.len() ==> (#[trigger] tb[t].id) == b[t + 1].id);
        lemma_find_job_same_ids(ta, tb, id);
    }
}

/// An entry with the identifier, none before it, is where the job is
/// found.
proof fn lemma_find_job_at(jobs: Seq<JobV>, id: Seq<char>, p0: int)
    requires
        0 <= p0 < jobs.len(),
        jobs[p0].id == id,
        forall|t: int| 0 <= t < p0 ==> jobs[t].id != id,
    ensures
        spec_find_job(jobs, id) == p0,
{
    lemma_find_job_props(jobs, id);
    let f = spec_find_job(jobs, id);
    if f == -1 {
        assert(jobs[p0].id != id);
    }
    if f < p0 {
        assert(jobs[f].id != id);
    }
    if f > p0 {
        assert(jobs[p0].id != id);
    }
}

/// A table without the identifier finds nothing.
proof fn lemma_find_job_absent(jobs: Seq<JobV>, id: Seq<char>)
    requires
        forall|t: int| 0 <= t < jobs.len() ==> jobs[t].id != id,
    ensures
        spec_find_job(jobs, id) == -1,
{
    lemma_find_job_props(jobs, id);
    let f = spec_find_job(jobs, id);
    if f != -1 {
        assert(jobs[f].id != id);
    }
}

/// Where a job stands after another entry is pushed.
proof fn lemma_find_job_push(jobs: Seq<JobV>, j: JobV, id: Seq<char>)
    ensures
        j.id == id && spec_find_job(jobs, id) == -1 ==> spec_find_job(jobs.push(j), id)
            == jobs.len() && jobs.push(j)[jobs.len() as int] == j,
        j.id != id && spec_find_job(jobs, id) == -1 ==> spec_find_job(jobs.push(j), id) == -1,
        spec_find_job(jobs, id) != -1 ==> spec_find_job(jobs.push(j), id) == spec_find_job(
            jobs,
            id,
        ) && jobs.push(j)[spec_find_job(jobs, id)] == jobs[spec_find_job(jobs, id)],
{
    let p = jobs.push(j);
    lemma_find_job_props(jobs, id);
    let f = spec_find_job(jobs, id);
    if f == -1 {
        if j.id == id {
            assert(p[jobs.len() as int] == j);
            assert(forall|t: int| 0 <= t < jobs.len() ==> #[trigger] p[t] == jobs[t]);
            lemma_find_job_at(p, id, jobs.len() as int);
        } else {
            assert(forall|t: int| 0 <= t < jobs.len() ==> #[trigger] p[t] == jobs[t]);
            assert(forall|t: int| 0 <= t < p.len() ==> #[trigger] p[t].id != id);
            lemma_find_job_absent(p, id);
        }
    } else {
        assert(forall|t: int| 0 <= t < jobs.len() ==> #[trigger] p[t] == jobs[t]);
        lemma_find_job_at(p, id, f);
    }
}

/// Where a job stands after an update that keeps every identifier.
proof fn lemma_find_job_update(jobs: Seq<JobV>, i: int, j2: JobV, id: Seq<char>)
    requires
        0 <= i < jobs.len(),
        j2.id == jobs[i].id,
    ensures
        spec_find_job(jobs.update(i, j2), id) == spec_find_job(jobs, id),
        spec_find_job(jobs, id) != -1 && spec_find_job(jobs, id) != i ==> jobs.update(i, j2)[
            spec_find_job(jobs, id)] == jobs[spec_find_job(jobs, id)],
{
    let u = jobs.update(i, j2);
    lemma_find_job_props(jobs, id);
    assert(forall|t: int| 0 <= t < jobs.len() ==> (#[trigger] u[t].id) == jobs[t].id);
    let f = spec_find_job(jobs, id);
    if f == -1 {
        assert(forall|t: int| 0 <= t < u.len() ==> #[trigger] u[t].id != id);
        lemma_find_job_absent(u, id);
    } else {
        assert(u[f].id == id);
        lemma_find_job_at(u, id, f);
    }
}

/// Uniqueness survives removing an entry.
proof fn lemma_unique_remove(jobs: Seq<JobV>, k: int)
    requires
        spec_unique_ids(jobs),
        0 <= k < jobs.len(),
    ensures
        spec_unique_ids(jobs.remove(k)),
{
    let r = jobs.remove(k);
    jobs.remove_ensures(k);
    assert forall|a: int, b: int| 0 <= a < b < r.len() implies (#[trigger] r[a].id)
        != (#[trigger] r[b].id) by {
        let oa = if a < k {
            a
        } else {
            a + 1
        };
        let ob = if b < k {
            b
        } else {
            b + 1
        };
        assert(r[a] == jobs[oa]);
        assert(r[b] == jobs[ob]);
        assert(jobs[oa].id != jobs[ob].id);
    }
}

/// A job found in a table stands at some index; a job at some index is
/// found.
proof fn lemma_find_job_exists(jobs: Seq<JobV>, id: Seq<char>, t: int)
    requires
        0 <= t < jobs.len(),
        jobs[t].id == id,
    ensures
        spec_find_job(jobs, id) != -1,
{
    lemma_find_job_props(jobs, id);
    if spec_find_job(jobs, id) == -1 {
        assert(jobs[t].id != id);
    }
}

/// Where a job stands after the entry with its identifier is removed, and
/// after another entry is removed.
proof fn lemma_find_job_remove(jobs: Seq<JobV>, k: int, id: Seq<char>)
    requires
        spec_unique_ids(jobs),
        0 <= k < jobs.len(),
    ensures
        jobs[k].id == id ==> spec_find_job(jobs.remove(k), id) == -1,
        jobs[k].id != id && spec_find_job(jobs, id) == -1 ==> spec_find_job(
            jobs.remove(k),
            id,
        ) == -1,
        jobs[k].id != id && spec_find_job(jobs, id) != -1 ==> spec_find_job(jobs.remove(k), id)
            != -1 && jobs.remove(k)[spec_find_job(jobs.remove(k), id)] == jobs[spec_find_job(
            jobs,
            id,
        )],
{
    let r = jobs.remove(k);
    jobs.remove_ensures(k);
    lemma_find_job_props(jobs, id);
    lemma_find_job_props(r, id);
    if jobs[k].id == id {
        assert forall|t: int| 0 <= t < r.len() implies r[t].id != id by {
            let ot = if t < k {
                t
            } else {
                t + 1
            };
            assert(r[t] == jobs[ot]);
            assert(jobs[ot].id != jobs[k].id);
        }
        if spec_find_job(r, id) != -1 {
            assert(r[spec_find_job(r, id)].id != id);
        }
    } else {
        let i = spec_find_job(jobs, id);
        if i == -1 {
            assert forall|t: int| 0 <= t < r.len() implies r[t].id != id by {
                let ot = if t < k {
                    t
                } else {
                    t + 1
                };
                assert(r[t] == jobs[ot]);
                assert(jobs[ot].id != id);
            }
            if spec_find_job(r, id) != -1 {
                assert(r[spec_find_job(r, id)].id != id);
            }
        } else {
            let t0 = if i < k {
                i
            } else {
                i - 1
            };
            assert(r[t0] == jobs[i]);
            lemma_find_job_exists(r, id, t0);
            let f = spec_find_job(r, id);
            assert(r[f].id == id);
            let of = if f < k {
                f
            } else {
                f + 1
            };
            assert(r[f] == jobs[of]);
            // Identifiers are unique, so the found entry is the original.
            if of != i {
                assert(jobs[of].id != jobs[i].id);
            }
        }
    }
}

/// A job found in the pruned table was in the table.
proof fn lemma_prune_source(jobs: Seq<JobV>, id: Seq<char>)
    ensures
        spec_find_job(spec_prune(jobs), id) != -1 ==> spec_find_job(jobs, id) != -1,
    decreases jobs.len(),
{
    if jobs.len() > 0 {
        lemma_prune_source(jobs.skip(1), id);
        lemma_find_job_props(jobs, id);
        lemma_find_job_props(spec_prune(jobs), id);
        lemma_find_job_props(spec_prune(jobs.skip(1)), id);
        lemma_find_job_props(jobs.skip(1), id);
        let p = spec_prune(jobs);
        if spec_find_job(p, id) != -1 {
            let f = spec_find_job(p, id);
            assert(p[f].id == id);
            if spec_is_terminal(jobs[0].status) {
                assert(p =~= spec_prune(jobs.skip(1)));
                lemma_find_job_exists(spec_prune(jobs.skip(1)), id, f);
                if spec_find_job(jobs, id) == -1 {
                    let f1 = spec_find_job(jobs.skip(1), id);
                    assert(jobs.skip(1)[f1].id == id);
                    assert(jobs[f1 + 1].id == id);
                    assert(jobs[f1 + 1].id != id);
                }
            } else {
                assert(p =~= seq![jobs[0]] + spec_prune(jobs.skip(1)));
                if f == 0 {
                    assert(jobs[0].id == id);
                    lemma_find_job_exists(jobs, id, 0);
                } else {
                    assert(p[f] == spec_prune(jobs.skip(1))[f - 1]);
                    lemma_find_job_exists(spec_prune(jobs.skip(1)), id, f - 1);
                    if spec_find_job(jobs, id) == -1 {
                        let f1 = spec_find_job(jobs.skip(1), id);
                        assert(jobs.skip(1)[f1].id == id);
                        assert(jobs[f1 + 1].id != id);
                    }
                }
            }
        }
    }
}

/// Uniqueness survives pruning, a pruned entry is gone, and a kept entry
/// keeps its value.
proof fn lemma_find_job_prune(jobs: Seq<JobV>, id: Seq<char>)
    requires
        spec_unique_ids(jobs),
    ensures
        spec_unique_ids(spec_prune(jobs)),
        spec_find_job(jobs, id) == -1 ==> spec_find_job(spec_prune(jobs), id) == -1,
        spec_find_job(jobs, id) != -1 && spec_is_terminal(
            jobs[spec_find_job(jobs, id)].status,
        ) ==> spec_find_job(spec_prune(jobs), id) == -1,
        spec_find_job(jobs, id) != -1 && !spec_is_terminal(
            jobs[spec_find_job(jobs, id)].status,
        ) ==> spec_find_job(spec_prune(jobs), id) != -1 && spec_prune(jobs)[spec_find_job(
            spec_prune(jobs),
            id,
        )] == jobs[spec_find_job(jobs, id)],
    decreases jobs.len(),
{
    lemma_find_job_prune_unique(jobs);
    let p = spec_prune(jobs);
    lemma_find_job_props(jobs, id);
    lemma_find_job_props(p, id);
    let i = spec_find_job(jobs, id);
    if i == -1 {
        lemma_prune_source(jobs, id);
    } else {
        if spec_is_terminal(jobs[i].status) {
            if spec_find_job(p, id) != -1 {
                let f = spec_find_job(p, id);
                assert(p[f].id == id);
                lemma_prune_member(jobs, f);
                let ghost ot = choose|ot: int|
                    0 <= ot < jobs.len() && jobs[ot] == p[f] && !spec_is_terminal(
                        jobs[ot].status,
                    );
                if ot != i {
                    assert(jobs[ot].id != jobs[i].id);
                }
            }
        } else {
            lemma_prune_keeps(jobs, i);
            let ghost t0 = choose|t0: int|
                0 <= t0 < p.len() && p[t0] == jobs[i];
            lemma_find_job_exists(p, id, t0);
            let f = spec_find_job(p, id);
            assert(p[f].id == id);
            lemma_prune_member(jobs, f);
            let ghost of = choose|of: int|
                0 <= of < jobs.len() && jobs[of] == p[f] && !spec_is_terminal(jobs[of].status);
            if of != i {
                assert(jobs[of].id != jobs[i].id);
            }
        }
    }
}

/// Every pruned-table entry is a non-terminal entry of the table.
proof fn lemma_prune_member(jobs: Seq<JobV>, f: int)
    requires
        0 <= f < spec_prune(jobs).len(),
    ensures
        exists|ot: int|
            0 <= ot < jobs.len() && jobs[ot] == spec_prune(jobs)[f] && !spec_is_terminal(
                jobs[ot].status,
            ),
    decreases jobs.len(),
{
    let p = spec_prune(jobs);
    if spec_is_terminal(jobs[0].status) {
        assert(p =~= spec_prune(jobs.skip(1)));
        lemma_prune_member(jobs.skip(1), f);
        let ghost ot = choose|ot: int|
            0 <= ot < jobs.skip(1).len() && jobs.skip(1)[ot] == spec_prune(jobs.skip(1))[f]
                && !spec_is_terminal(jobs.skip(1)[ot].status);
        assert(jobs[ot + 1] == jobs.skip(1)[ot]);
    } else {
        assert(p =~= seq![jobs[0]] + spec_prune(jobs.skip(1)));
        if f == 0 {
            assert(jobs[0] == p[0]);
        } else {
            assert(p[f] == spec_prune(jobs.skip(1))[f - 1]);
            lemma_prune_member(jobs.skip(1), f - 1);
            let ghost ot = choose|ot: int|
                0 <= ot < jobs.skip(1).len() && jobs.skip(1)[ot] == spec_prune(jobs.skip(1))[f
                    - 1] && !spec_is_terminal(jobs.skip(1)[ot].status);
            assert(jobs[ot + 1] == jobs.skip(1)[ot]);
        }
    }
}

/// Every non-terminal entry survives pruning.
proof fn lemma_prune_keeps(jobs: Seq<JobV>, i: int)
    requires
        0 <= i < jobs.len(),
        !spec_is_terminal(jobs[i].status),
    ensures
        exists|t0: int| 0 <= t0 < spec_prune(jobs).len() && spec_prune(jobs)[t0] == jobs[i],
    decreases jobs.len(),
{
    let p = spec_prune(jobs);
    if i == 0 {
        assert(p =~= seq![jobs[0]] + spec_prune(jobs.skip(1)));
        assert(p[0] == jobs[0]);
    } else {
        assert(jobs.skip(1)[i - 1] == jobs[i]);
        lemma_prune_keeps(jobs.skip(1), i - 1);
        let ghost t0 = choose|t0: int|
            0 <= t0 < spec_prune(jobs.skip(1)).len() && spec_prune(jobs.skip(1))[t0] == jobs[i];
        if spec_is_terminal(jobs[0].status) {
            assert(p =~= spec_prune(jobs.skip(1)));
        } else {
            assert(p =~= seq![jobs[0]] + spec_prune(jobs.skip(1)));
            assert(p[t0 + 1] == spec_prune(jobs.skip(1))[t0]);
        }
    }
}

proof fn lemma_find_job_prune_unique(jobs: Seq<JobV>)
    requires
        spec_unique_ids(jobs),
    ensures
        spec_unique_ids(spec_prune(jobs)),
{
    let p = spec_prune(jobs);
    assert forall|a: int, b: int| 0 <= a < b < p.len() implies (#[trigger] p[a].id)
        != (#[trigger] p[b].id) by {
        lemma_prune_member(jobs, a);
        lemma_prune_member(jobs, b);
        let ghost oa = choose|oa: int|
            0 <= oa < jobs.len() && jobs[oa] == p[a] && !spec_is_terminal(jobs[oa].status);
        let ghost ob = choose|ob: int|
            0 <= ob < jobs.len() && jobs[ob] == p[b] && !spec_is_terminal(jobs[ob].status);
        if oa == ob {
            lemma_prune_distinct(jobs, a, b);
        } else {
            assert(jobs[oa].id != jobs[ob].id);
        }
    }
}

/// Distinct positions of the pruned table come from distinct positions.
proof fn lemma_prune_distinct(jobs: Seq<JobV>, a: int, b: int)
    requires
        0 <= a < b < spec_prune(jobs).len(),
        spec_unique_ids(jobs),
    ensures
        spec_prune(jobs)[a].id != spec_prune(jobs)[b].id,
    decreases jobs.len(),
{
    let p = spec_prune(jobs);
    if spec_is_terminal(jobs[0].status) {
        assert(p =~= spec_prune(jobs.skip(1)));
        assert(spec_unique_ids(jobs.skip(1))) by {
            assert(forall|x: int, y: int|
                0 <= x < y < jobs.skip(1).len() ==> jobs.skip(1)[x] == jobs[x + 1]
                    && jobs.skip(1)[y] == jobs[y + 1]);
        }
        lemma_prune_distinct(jobs.skip(1), a, b);
    } else {
        assert(p =~= seq![jobs[0]] + spec_prune(jobs.skip(1)));
        assert(spec_unique_ids(jobs.skip(1))) by {
            assert(forall|x: int, y: int|
                0 <= x < y < jobs.skip(1).len() ==> jobs.skip(1)[x] == jobs[x + 1]
                    && jobs.skip(1)[y] == jobs[y + 1]);
        }
        if a == 0 {
            assert(p[b] == spec_prune(jobs.skip(1))[b - 1]);
            lemma_prune_member(jobs.skip(1), b - 1);
            let ghost ob = choose|ob: int|
                0 <= ob < jobs.skip(1).len() && jobs.skip(1)[ob] == spec_prune(jobs.skip(1))[b
                    - 1] && !spec_is_terminal(jobs.skip(1)[ob].status);
            assert(jobs[ob + 1] == jobs.skip(1)[ob]);
            assert(jobs[0].id != jobs[ob + 1].id);
        } else {
            lemma_prune_distinct(jobs.skip(1), a - 1, b - 1);
            assert(p[a] == spec_prune(jobs.skip(1))[a - 1]);
            assert(p[b] == spec_prune(jobs.skip(1))[b - 1]);
        }
    }
}

/// The stream of a single announcement.
proof fn lemma_stream_of_single(r: ResponseV, id: Seq<char>)
    ensures
        spec_resp_mentions(r, id) ==> spec_stream_of(seq![r], id) == seq![r],
        !spec_resp_mentions(r, id) ==> spec_stream_of(seq![r], id) == Seq::<ResponseV>::empty(),
{
    assert(seq![r].drop_last() =~= Seq::<ResponseV>::empty());
    assert(spec_stream_of(Seq::<ResponseV>::empty(), id) == Seq::<ResponseV>::empty());
    assert(seq![r].last() == r);
    if spec_resp_mentions(r, id) {
        assert(spec_stream_of(seq![r], id) =~= seq![r]);
    } else {
        assert(spec_stream_of(seq![r], id) =~= Seq::<ResponseV>::empty());
    }
}

/// One interaction keeps the per-job stream relation: its announcements
/// for the job extend the stream without breaking its shape.
proof fn lemma_stream_step(s: QueueV, op: QueueOp, e: Seq<ResponseV>, id: Seq<char>)
    requires
        spec_stream_inv(s, e, id, false),
        op is AddJob ==> op->AddJob_0.status == JobState::Queued && (op->AddJob_0.id == id
            ==> e.len() == 0 && spec_find_job(s.jobs, id) == -1),
    ensures
        spec_stream_inv(
            spec_queue_step(s, op).0,
            e + spec_stream_of(spec_queue_step(s, op).1, id),
            id,
            false,
        ),
        spec_find_job(s.jobs, id) == -1 && !(op matches QueueOp::AddJob(j) && j.id == id)
            ==> spec_find_job(spec_queue_step(s, op).0.jobs, id) == -1 && spec_stream_of(
            spec_queue_step(s, op).1,
            id,
        ) == Seq::<ResponseV>::empty(),
{
    let (s1, rs) = spec_queue_step(s, op);
    assert(spec_stream_of(Seq::<ResponseV>::empty(), id) == Seq::<ResponseV>::empty());
    let e1 = e + spec_stream_of(rs, id);
    match op {
        QueueOp::AddJob(j) => {
            if spec_find_job(s.jobs, j.id) != -1 {
                assert(e1 =~= e);
            } else {
                lemma_find_job_push(s.jobs, j, id);
                let q = ResponseV::JobQueued { id: j.id };
                assert(rs =~= seq![q]);
                lemma_stream_of_single(q, id);
                if j.id == id {
                    assert(spec_stream_of(rs, id) =~= seq![q]);
                    assert(e1 =~= seq![q]);
                    assert(spec_unique_ids(s1.jobs)) by {
                        lemma_find_job_props(s.jobs, id);
                        assert forall|a: int, b: int| 0 <= a < b < s1.jobs.len() implies (
                        #[trigger] s1.jobs[a].id) != (#[trigger] s1.jobs[b].id) by {
                            if b == s.jobs.len() {
                                assert(s1.jobs[a] == s.jobs[a]);
                                assert(s.jobs[a].id != id);
                            } else {
                                assert(s1.jobs[a] == s.jobs[a]);
                                assert(s1.jobs[b] == s.jobs[b]);
                            }
                        }
                    }
                } else {
                    assert(spec_stream_of(rs, id) =~= Seq::<ResponseV>::empty());
                    assert(e1 =~= e);
                    assert(spec_unique_ids(s1.jobs)) by {
                        lemma_find_job_props(s.jobs, j.id);
                        assert forall|a: int, b: int| 0 <= a < b < s1.jobs.len() implies (
                        #[trigger] s1.jobs[a].id) != (#[trigger] s1.jobs[b].id) by {
                            if b == s.jobs.len() {
                                assert(s1.jobs[a] == s.jobs[a]);
                                assert(s.jobs[a].id != j.id);
                            } else {
                                assert(s1.jobs[a] == s.jobs[a]);
                                assert(s1.jobs[b] == s.jobs[b]);
                            }
                        }
                    }
                }
            }
        },
        QueueOp::TryStart(tid) => {
            assert(e1 =~= e);
            if !(s.paused || s.running >= s.limit) {
                let i = spec_find_job(s.jobs, tid);
                if i != -1 && s.jobs[i].status == JobState::Queued {
                    lemma_find_job_props(s.jobs, tid);
                    lemma_find_job_update(
                        s.jobs,
                        i,
                        JobV { status: JobState::Running, ..s.jobs[i] },
                        id,
                    );
                    assert(spec_unique_ids(s1.jobs)) by {
                        assert(forall|t: int|
                            0 <= t < s1.jobs.len() ==> (#[trigger] s1.jobs[t].id)
                                == s.jobs[t].id);
                    }
                }
            }
        },
        QueueOp::CancelQueued(cid) => {
            let i = spec_find_job(s.jobs, cid);
            if i != -1 && s.jobs[i].status == JobState::Queued {
                lemma_find_job_props(s.jobs, cid);
                let c = ResponseV::JobCancelled { id: cid };
                assert(rs =~= seq![c]);
                lemma_stream_of_single(c, id);
                lemma_unique_remove(s.jobs, i);
                lemma_find_job_remove(s.jobs, i, id);
                if cid == id {
                    assert(spec_stream_of(rs, id) =~= seq![c]);
                    assert(e1 =~= e.push(c));
                } else {
                    assert(spec_stream_of(rs, id) =~= Seq::<ResponseV>::empty());
                    assert(e1 =~= e);
                }
            } else {
                assert(e1 =~= e);
            }
        },
        QueueOp::ApplyEvent(ev) => {
            let eid = spec_event_id(ev);
            let i = spec_find_job(s.jobs, eid);
            if i != -1 && s.jobs[i].status == JobState::Running {
                lemma_find_job_props(s.jobs, eid);
                let resp = spec_apply_event(s, ev).1->Some_0;
                assert(rs =~= seq![resp]);
                lemma_stream_of_single(resp, id);
                let j2 = s1.jobs[i];
                lemma_find_job_update(s.jobs, i, j2, id);
                assert(spec_unique_ids(s1.jobs)) by {
                    assert(forall|t: int|
                        0 <= t < s1.jobs.len() ==> (#[trigger] s1.jobs[t].id) == s.jobs[t].id);
                }
                if eid == id {
                    assert(spec_resp_mentions(resp, id));
                    assert(spec_stream_of(rs, id) =~= seq![resp]);
                    assert(e1 =~= e.push(resp));
                } else {
                    assert(!spec_resp_mentions(resp, id));
                    assert(spec_stream_of(rs, id) =~= Seq::<ResponseV>::empty());
                    assert(e1 =~= e);
                }
            } else {
                assert(e1 =~= e);
            }
        },
        QueueOp::ReleaseSlot => {
            assert(e1 =~= e);
        },
        QueueOp::RemoveJob(rid) => {
            assert(e1 =~= e);
            let i = spec_find_job(s.jobs, rid);
            if i != -1 {
                lemma_find_job_props(s.jobs, rid);
                lemma_unique_remove(s.jobs, i);
                lemma_find_job_remove(s.jobs, i, id);
            }
        },
        QueueOp::SetMaxParallel(_) => {
            assert(e1 =~= e);
        },
        QueueOp::PauseAll => {
            assert(e1 =~= e);
        },
        QueueOp::ResumeAll => {
            assert(e1 =~= e);
        },
        QueueOp::GetStatus => {
            let rep = spec_get_status(s).1;
            assert(rs =~= seq![rep]);
            assert(!spec_resp_mentions(rep, id));
            lemma_stream_of_single(rep, id);
            assert(spec_stream_of(rs, id) =~= Seq::<ResponseV>::empty());
            assert(e1 =~= e);
            lemma_find_job_prune(s.jobs, id);
        },
    }
}

/// Number of add interactions for one job.
pub open spec fn spec_count_adds(ops: Seq<QueueOp>, id: Seq<char>) -> int
    decreases ops.len(),
{
    if ops.len() == 0 {
        0
    } else {
        (if ops[0] matches QueueOp::AddJob(j) && j.id == id {
            1int
        } else {
            0int
        }) + spec_count_adds(ops.skip(1), id)
    }
}

/// The add count is never negative.
proof fn lemma_count_adds_nonneg(ops: Seq<QueueOp>, id: Seq<char>)
    ensures
        spec_count_adds(ops, id) >= 0,
    decreases ops.len(),
{
    if ops.len() > 0 {
        lemma_count_adds_nonneg(ops.skip(1), id);
    }
}

/// The streams of consecutive announcements concatenate.
proof fn lemma_stream_of_concat(a: Seq<ResponseV>, b: Seq<ResponseV>, id: Seq<char>)
    ensures
        spec_stream_of(a + b, id) == spec_stream_of(a, id) + spec_stream_of(b, id),
    decreases b.len(),
{
    if b.len() == 0 {
        assert(a + b =~= a);
        assert(spec_stream_of(a, id) + spec_stream_of(b, id) =~= spec_stream_of(a, id));
    } else {
        assert((a + b).drop_last() =~= a + b.drop_last());
        assert((a + b).last() == b.last());
        lemma_stream_of_concat(a, b.drop_last(), id);
        assert(spec_stream_of(a + b, id) =~= spec_stream_of(a, id) + spec_stream_of(b, id));
    }
}

/// The per-job relation maintained over a whole run.
proof fn lemma_stream_run(
    s: QueueV,
    ops: Seq<QueueOp>,
    e: Seq<ResponseV>,
    id: Seq<char>,
)
    requires
        spec_ops_wf(ops),
        spec_stream_inv(s, e, id, spec_count_adds(ops, id) > 0),
        spec_count_adds(ops, id) <= 1,
    ensures
        spec_stream_inv(
            spec_run_ops(s, ops).0,
            e + spec_stream_of(spec_run_ops(s, ops).1, id),
            id,
            false,
        ),
    decreases ops.len(),
{
    if ops.len() == 0 {
        assert(spec_stream_of(spec_run_ops(s, ops).1, id) =~= Seq::<ResponseV>::empty());
        assert(e + spec_stream_of(spec_run_ops(s, ops).1, id) =~= e);
    } else {
        let op = ops[0];
        let (s1, r1) = spec_queue_step(s, op);
        let rest = ops.skip(1);
        assert(spec_ops_wf(rest)) by {
            assert(forall|k: int| 0 <= k < rest.len() ==> rest[k] == ops[k + 1]);
        }
        assert(spec_count_adds(ops, id) == (if ops[0] matches QueueOp::AddJob(j) && j.id == id {
            1int
        } else {
            0int
        }) + spec_count_adds(rest, id));
        if op matches QueueOp::AddJob(j) && j.id == id {
            assert(spec_count_adds(ops, id) > 0) by {
                lemma_count_adds_nonneg(rest, id);
            }
        }
        lemma_stream_step(s, op, e, id);
        let e1 = e + spec_stream_of(r1, id);
        assert(spec_stream_inv(s1, e1, id, false));
        // An add for this job, if any, consumes the single allowance.
        if spec_count_adds(rest, id) > 0 {
            assert(!(op matches QueueOp::AddJob(j) && j.id == id));
            assert(spec_find_job(s.jobs, id) == -1 && e.len() == 0);
            assert(spec_find_job(s1.jobs, id) == -1);
            assert(e1 =~= e);
        }
        lemma_stream_run(s1, rest, e1, id);
        lemma_stream_of_concat(r1, spec_run_ops(s1, rest).1, id);
        assert(e1 + spec_stream_of(spec_run_ops(s1, rest).1, id) =~= e + spec_stream_of(
            spec_run_ops(s, ops).1,
            id,
        ));
    }
}

/// For every accepted job, the stream of announcements is the queued
/// event, then progress events, then at most one terminal event, after
/// which nothing more is announced for the job: starting from an empty
/// scheduler, and with the job's identifier used by at most one add, the
/// projection of every run's announcements onto the job keeps this shape.
pub proof fn lemma_job_event_stream(max_parallel: int, ops: Seq<QueueOp>, id: Seq<char>)
    requires
        spec_ops_wf(ops),
        spec_count_adds(ops, id) <= 1,
    ensures
        spec_wf_stream(
            spec_stream_of(
                spec_run_ops(
                    QueueV {
                        jobs: Seq::empty(),
                        limit: if max_parallel < 1 {
                            1int
                        } else {
                            max_parallel
                        },
                        running: 0,
                        paused: false,
                    },
                    ops,
                ).1,
                id,
            ),
        ),
{
    let s0 = QueueV {
        jobs: Seq::<JobV>::empty(),
        limit: if max_parallel < 1 {
            1int
        } else {
            max_parallel
        },
        running: 0,
        paused: false,
    };
    let e0 = Seq::<ResponseV>::empty();
    assert(spec_stream_inv(s0, e0, id, spec_count_adds(ops, id) > 0));
    lemma_stream_run(s0, ops, e0, id);
    assert(e0 + spec_stream_of(spec_run_ops(s0, ops).1, id) =~= spec_stream_of(
        spec_run_ops(s0, ops).1,
        id,
    ));
}

} // verus!
