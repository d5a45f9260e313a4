//! Request/response protocol data model.  Textual fields are held as
//! character vectors; their views are character sequences.

use vstd::prelude::*;

use crate::json::{
    entry_scalar_views, entry_top_views, milli_to_dec, milli_u32_to_dec, scalar_obj_map,
    spec_escape, spec_milli_dec, spec_parse_top_object, spec_skip_ws, top_obj_map, ScalarV,
    Scalar, TopVal, TopValV, append_escaped, parse_top_object, scalar_obj_get, top_obj_get,
};
use crate::text::{append_chars, append_str, chars_of, copy_range, spec_u64_dec, u64_to_dec};

verus! {

/// Transcoding mode of a job.
#[derive(Debug, Clone, Copy, PartialEq, Eq, Structural)]
pub enum JobMode {
    /// Repackage streams into a different container without re-encoding.
    ReWrap,
    /// Lower-bitrate, possibly lower-resolution copy for editing.
    Proxy,
    /// Proxy built from camera-RAW footage through the first bridge binary.
    BrawProxy,
    /// Proxy built from camera-RAW footage through the second bridge binary.
    R3dProxy,
}

/// Lifecycle state of a job.
#[derive(Debug, Clone, Copy, PartialEq, Eq, Structural)]
pub enum JobState {
    Queued,
    Running,
    Done,
    Error,
    Cancelled,
}

/// True for the terminal states.
pub open spec fn spec_is_terminal(s: JobState) -> bool {
    s == JobState::Done || s == JobState::Error || s == JobState::Cancelled
}

/// Per-job options; every field has a default.
#[derive(Debug, Clone)]
pub struct JobOptions {
    /// Audio codec used by rewrap mode.
    pub audio_codec: Vec<char>,
    /// Optional proxy target resolution, written `WxH`.
    pub proxy_resolution: Option<Vec<char>>,
    /// Proxy codec identifier: `h264`, `h265`, `av1`, or a ProRes tier.
    pub proxy_codec: Vec<char>,
    /// Hardware-acceleration selector: `none`, `vaapi` or `nvenc`.
    pub hw_accel: Vec<char>,
    /// Suffix inserted before the output extension; empty for none.
    pub output_suffix: Vec<char>,
    /// Optional sub-folder below the output directory; empty for none.
    pub output_subfolder: Vec<char>,
    /// Debayer-quality selector handed to the first RAW bridge.
    pub debayer_quality: Vec<char>,
    /// Debayer-quality selector of the second RAW bridge:
    /// `premium`, `half`, `quarter` or `eighth`.
    pub r3d_debayer_quality: Vec<char>,
    /// Skip the job, reporting immediate completion, when the output file
    /// already exists.
    pub skip_if_exists: bool,
}

/// Mathematical view of [`JobOptions`].
#[verifier::ext_equal]
pub struct JobOptionsV {
    pub audio_codec: Seq<char>,
    pub proxy_resolution: Option<Seq<char>>,
    pub proxy_codec: Seq<char>,
    pub hw_accel: Seq<char>,
    pub output_suffix: Seq<char>,
    pub output_subfolder: Seq<char>,
    pub debayer_quality: Seq<char>,
    pub r3d_debayer_quality: Seq<char>,
    pub skip_if_exists: bool,
}

impl View for JobOptions {
    type V = JobOptionsV;

    open spec fn view(&self) -> JobOptionsV {
        JobOptionsV {
            audio_codec: self.audio_codec@,
            proxy_resolution: match self.proxy_resolution {
                Some(r) => Some(r@),
                None => None,
            },
            proxy_codec: self.proxy_codec@,
            hw_accel: self.hw_accel@,
            output_suffix: self.output_suffix@,
            output_subfolder: self.output_subfolder@,
            debayer_quality: self.debayer_quality@,
            r3d_debayer_quality: self.r3d_debayer_quality@,
            skip_if_exists: self.skip_if_exists,
        }
    }
}

/// Default audio codec for rewrap mode.
pub fn default_audio_codec() -> (r: Vec<char>)
    ensures
        r@ == "pcm_s24le"@,
{
    chars_of("pcm_s24le")
}

/// Default proxy codec.
pub fn default_proxy_codec() -> (r: Vec<char>)
    ensures
        r@ == "h264"@,
{
    chars_of("h264")
}

/// Default hardware-acceleration selector.
pub fn default_hw_accel() -> (r: Vec<char>)
    ensures
        r@ == "none"@,
{
    chars_of("none")
}

/// Default output-name suffix: none.
pub fn default_output_suffix() -> (r: Vec<char>)
    ensures
        r@ == ""@,
{
    let r: Vec<char> = Vec::new();
    proof {
        reveal_strlit("");
        assert(r@ =~= ""@);
    }
    r
}

/// Default debayer-quality selector: full resolution.
pub fn default_debayer_quality() -> (r: Vec<char>)
    ensures
        r@ == "premium"@,
{
    chars_of("premium")
}

/// The defaults of every option.
pub open spec fn spec_default_job_options(o: JobOptionsV) -> bool {
    &&& o.audio_codec == "pcm_s24le"@
    &&& o.proxy_resolution is None
    &&& o.proxy_codec == "h264"@
    &&& o.hw_accel == "none"@
    &&& o.output_suffix == ""@
    &&& o.output_subfolder == ""@
    &&& o.debayer_quality == "premium"@
    &&& o.r3d_debayer_quality == "premium"@
    &&& o.skip_if_exists == false
}

impl Default for JobOptions {
    /// Options with every field at its default.
    fn default() -> (r: Self)
        ensures
            spec_default_job_options(r@),
    {
        let r = JobOptions {
            audio_codec: default_audio_codec(),
            proxy_resolution: None,
            proxy_codec: default_proxy_codec(),
            hw_accel: default_hw_accel(),
            output_suffix: default_output_suffix(),
            output_subfolder: default_output_suffix(),
            debayer_quality: default_debayer_quality(),
            r3d_debayer_quality: default_debayer_quality(),
            skip_if_exists: false,
        };
        r
    }
}

/// A request read from the server's standard input.
#[derive(Debug, Clone)]
pub enum Request {
    AddJob {
        id: Vec<char>,
        input_path: Vec<char>,
        output_dir: Vec<char>,
        mode: JobMode,
        options: JobOptions,
    },
    CancelJob { id: Vec<char> },
    SetMaxParallel { n: u64 },
    PauseAll,
    ResumeAll,
    GetStatus,
    Shutdown,
}

/// Mathematical view of [`Request`].
pub enum RequestV {
    AddJob {
        id: Seq<char>,
        input_path: Seq<char>,
        output_dir: Seq<char>,
        mode: JobMode,
        options: JobOptionsV,
    },
    CancelJob { id: Seq<char> },
    SetMaxParallel { n: u64 },
    PauseAll,
    ResumeAll,
    GetStatus,
    Shutdown,
}

impl View for Request {
    type V = RequestV;

    open spec fn view(&self) -> RequestV {
        match self {
            Request::AddJob { id, input_path, output_dir, mode, options } => RequestV::AddJob {
                id: id@,
                input_path: input_path@,
                output_dir: output_dir@,
                mode: *mode,
                options: options@,
            },
            Request::CancelJob { id } => RequestV::CancelJob { id: id@ },
            Request::SetMaxParallel { n } => RequestV::SetMaxParallel { n: *n },
            Request::PauseAll => RequestV::PauseAll,
            Request::ResumeAll => RequestV::ResumeAll,
            Request::GetStatus => RequestV::GetStatus,
            Request::Shutdown => RequestV::Shutdown,
        }
    }
}

/// The job mode named by its wire spelling.
pub open spec fn spec_mode_of(s: Seq<char>) -> Option<JobMode> {
    if s == "re_wrap"@ {
        Some(JobMode::ReWrap)
    } else if s == "proxy"@ {
        Some(JobMode::Proxy)
    } else if s == "raw_a_proxy"@ {
        Some(JobMode::BrawProxy)
    } else if s == "raw_b_proxy"@ {
        Some(JobMode::R3dProxy)
    } else {
        None
    }
}

/// The wire spelling of a job mode.
pub open spec fn spec_mode_str(m: JobMode) -> Seq<char> {
    match m {
        JobMode::ReWrap => "re_wrap"@,
        JobMode::Proxy => "proxy"@,
        JobMode::BrawProxy => "raw_a_proxy"@,
        JobMode::R3dProxy => "raw_b_proxy"@,
    }
}

/// The wire spelling of a job state.
pub open spec fn spec_state_str(s: JobState) -> Seq<char> {
    match s {
        JobState::Queued => "queued"@,
        JobState::Running => "running"@,
        JobState::Done => "done"@,
        JobState::Error => "error"@,
        JobState::Cancelled => "cancelled"@,
    }
}

/// A required string field of an options block: its value, the default
/// when missing, or nothing when present with another type.
pub open spec fn spec_opt_text(
    m: Map<Seq<char>, ScalarV>,
    key: Seq<char>,
    default: Seq<char>,
) -> Option<Seq<char>> {
    if m.contains_key(key) {
        match m[key] {
            ScalarV::Text(t) => Some(t),
            _ => None,
        }
    } else {
        Some(default)
    }
}

/// The options block read from its object entries; a field of the wrong
/// type refuses the whole block.
pub open spec fn spec_options_of(m: Map<Seq<char>, ScalarV>) -> Option<JobOptionsV> {
    let audio = spec_opt_text(m, "audio_codec"@, "pcm_s24le"@);
    let codec = spec_opt_text(m, "proxy_codec"@, "h264"@);
    let hw = spec_opt_text(m, "hw_accel"@, "none"@);
    let suffix = spec_opt_text(m, "output_suffix"@, ""@);
    let sub = spec_opt_text(m, "output_subfolder"@, ""@);
    let debayer = spec_opt_text(m, "debayer_quality"@, "premium"@);
    let r3d_debayer = spec_opt_text(m, "r3d_debayer_quality"@, "premium"@);
    let resolution: Option<Option<Seq<char>>> = if m.contains_key("proxy_resolution"@) {
        match m["proxy_resolution"@] {
            ScalarV::Text(t) => Some(Some(t)),
            ScalarV::Null => Some(None),
            _ => None,
        }
    } else {
        Some(None)
    };
    let skip: Option<bool> = if m.contains_key("skip_if_exists"@) {
        match m["skip_if_exists"@] {
            ScalarV::Bool(b) => Some(b),
            _ => None,
        }
    } else {
        Some(false)
    };
    if audio is Some && codec is Some && hw is Some && suffix is Some && sub is Some && debayer
        is Some && r3d_debayer is Some && resolution is Some && skip is Some {
        Some(
            JobOptionsV {
                audio_codec: audio->Some_0,
                proxy_resolution: resolution->Some_0,
                proxy_codec: codec->Some_0,
                hw_accel: hw->Some_0,
                output_suffix: suffix->Some_0,
                output_subfolder: sub->Some_0,
                debayer_quality: debayer->Some_0,
                r3d_debayer_quality: r3d_debayer->Some_0,
                skip_if_exists: skip->Some_0,
            },
        )
    } else {
        None
    }
}

/// A required string field of the top-level object.
pub open spec fn spec_top_text(m: Map<Seq<char>, TopValV>, key: Seq<char>) -> Option<Seq<char>> {
    if m.contains_key(key) {
        match m[key] {
            TopValV::Sc(ScalarV::Text(t)) => Some(t),
            _ => None,
        }
    } else {
        None
    }
}

/// The request described by a parsed top-level object.
pub open spec fn spec_request_of(m: Map<Seq<char>, TopValV>) -> Option<RequestV> {
    match spec_top_text(m, "type"@) {
        None => None,
        Some(t) => {
            if t == "add_job"@ {
                let id = spec_top_text(m, "id"@);
                let input = spec_top_text(m, "input_path"@);
                let outdir = spec_top_text(m, "output_dir"@);
                let mode = match spec_top_text(m, "mode"@) {
                    Some(ms) => spec_mode_of(ms),
                    None => None,
                };
                let options: Option<JobOptionsV> = if m.contains_key("options"@) {
                    match m["options"@] {
                        TopValV::Ob(es) => spec_options_of(scalar_obj_map(es)),
                        _ => None,
                    }
                } else {
                    spec_options_of(Map::empty())
                };
                if id is Some && input is Some && outdir is Some && mode is Some && options
                    is Some {
                    Some(
                        RequestV::AddJob {
                            id: id->Some_0,
                            input_path: input->Some_0,
                            output_dir: outdir->Some_0,
                            mode: mode->Some_0,
                            options: options->Some_0,
                        },
                    )
                } else {
                    None
                }
            } else if t == "cancel_job"@ {
                match spec_top_text(m, "id"@) {
                    Some(id) => Some(RequestV::CancelJob { id }),
                    None => None,
                }
            } else if t == "set_max_parallel"@ {
                if m.contains_key("n"@) {
                    match m["n"@] {
                        TopValV::Sc(ScalarV::Int(v)) => if v >= 0 {
                            Some(RequestV::SetMaxParallel { n: v as u64 })
                        } else {
                            None
                        },
                        _ => None,
                    }
                } else {
                    None
                }
            } else if t == "pause_all"@ {
                Some(RequestV::PauseAll)
            } else if t == "resume_all"@ {
                Some(RequestV::ResumeAll)
            } else if t == "get_status"@ {
                Some(RequestV::GetStatus)
            } else if t == "shutdown"@ {
                Some(RequestV::Shutdown)
            } else {
                None
            }
        },
    }
}

/// The request described by one input line: a single JSON object with
/// nothing but whitespace after it.
pub open spec fn spec_parse_request(line: Seq<char>) -> Option<RequestV> {
    match spec_parse_top_object(line, 0) {
        Some((entries, j)) => {
            if spec_skip_ws(line, j) == line.len() {
                spec_request_of(top_obj_map(entries))
            } else {
                None
            }
        },
        None => None,
    }
}

/// One string option field: its value, the default when the key is
/// missing, nothing when it is present with another type.
fn opt_text(es: &Vec<(Vec<char>, Scalar)>, key: &str, default: &str) -> (r: Option<Vec<char>>)
    ensures
        ({
            let sp = spec_opt_text(scalar_obj_map(entry_scalar_views(es@)), key@, default@);
            match r {
                Some(v) => sp == Some(v@),
                None => sp is None,
            }
        }),
{
    match scalar_obj_get(es, key) {
        Some(v) => match v {
            Scalar::Text(t) => Some(copy_range(t.as_slice(), 0, t.len())),
            _ => None,
        },
        None => Some(chars_of(default)),
    }
}

/// The options block read from its object entries.
fn options_of(es: &Vec<(Vec<char>, Scalar)>) -> (r: Option<JobOptions>)
    ensures
        ({
            let sp = spec_options_of(scalar_obj_map(entry_scalar_views(es@)));
            match r {
                Some(o) => sp == Some(o@),
                None => sp is None,
            }
        }),
{
    let audio = opt_text(es, "audio_codec", "pcm_s24le");
    let codec = opt_text(es, "proxy_codec", "h264");
    let hw = opt_text(es, "hw_accel", "none");
    let suffix = opt_text(es, "output_suffix", "");
    let sub = opt_text(es, "output_subfolder", "");
    let debayer = opt_text(es, "debayer_quality", "premium");
    let r3d_debayer = opt_text(es, "r3d_debayer_quality", "premium");
    let resolution: Option<Option<Vec<char>>> = match scalar_obj_get(es, "proxy_resolution") {
        Some(v) => match v {
            Scalar::Text(t) => Some(Some(copy_range(t.as_slice(), 0, t.len()))),
            Scalar::Null => Some(None),
            _ => None,
        },
        None => Some(None),
    };
    let skip: Option<bool> = match scalar_obj_get(es, "skip_if_exists") {
        Some(v) => match v {
            Scalar::Bool(b) => Some(*b),
            _ => None,
        },
        None => Some(false),
    };
    match (audio, codec, hw, suffix, sub, debayer, r3d_debayer, resolution, skip) {
        (
            Some(audio_codec),
            Some(proxy_codec),
            Some(hw_accel),
            Some(output_suffix),
            Some(output_subfolder),
            Some(debayer_quality),
            Some(r3d_debayer_quality),
            Some(proxy_resolution),
            Some(skip_if_exists),
        ) => {
            let o = JobOptions {
                audio_codec,
                proxy_resolution,
                proxy_codec,
                hw_accel,
                output_suffix,
                output_subfolder,
                debayer_quality,
                r3d_debayer_quality,
                skip_if_exists,
            };
            proof {
                let sp = spec_options_of(scalar_obj_map(entry_scalar_views(es@)));
                assert(sp->Some_0 =~= o@);
            }
            Some(o)
        },
        _ => None,
    }
}

/// One required string field of the top-level object.
fn top_text(es: &Vec<(Vec<char>, TopVal)>, key: &str) -> (r: Option<Vec<char>>)
    ensures
        ({
            let sp = spec_top_text(top_obj_map(entry_top_views(es@)), key@);
            match r {
                Some(v) => sp == Some(v@),
                None => sp is None,
            }
        }),
{
    match top_obj_get(es, key) {
        Some(v) => match v {
            TopVal::Sc(Scalar::Text(t)) => Some(copy_range(t.as_slice(), 0, t.len())),
            _ => None,
        },
        None => None,
    }
}

/// Parses one request line: a single JSON object with nothing but
/// whitespace after it.  Malformed lines yield nothing and are the
/// caller's to ignore.
pub fn parse_request(line: &str) -> (r: Option<Request>)
    ensures
        ({
            let sp = spec_parse_request(line@);
            match r {
                Some(q) => sp == Some(q@),
                None => sp is None,
            }
        }),
{
    let cs = chars_of(line);
    let s = cs.as_slice();
    let (entries, j) = match parse_top_object(s, 0) {
        Some(p) => p,
        None => {
            return None;
        },
    };
    let rest = crate::json::skip_ws(s, j);
    if rest != s.len() {
        return None;
    }
    let es = &entries;
    let ty = match top_text(es, "type") {
        Some(t) => t,
        None => {
            return None;
        },
    };
    if crate::text::chars_eq_str(&ty, "add_job") {
        let id = top_text(es, "id");
        let input_path = top_text(es, "input_path");
        let output_dir = top_text(es, "output_dir");
        let mode: Option<JobMode> = match top_text(es, "mode") {
            Some(ms) => {
                if crate::text::chars_eq_str(&ms, "re_wrap") {
                    Some(JobMode::ReWrap)
                } else if crate::text::chars_eq_str(&ms, "proxy") {
                    Some(JobMode::Proxy)
                } else if crate::text::chars_eq_str(&ms, "raw_a_proxy") {
                    Some(JobMode::BrawProxy)
                } else if crate::text::chars_eq_str(&ms, "raw_b_proxy") {
                    Some(JobMode::R3dProxy)
                } else {
                    None
                }
            },
            None => None,
        };
        let empty_opts: Vec<(Vec<char>, Scalar)> = Vec::new();
        let options: Option<JobOptions> = match top_obj_get(es, "options") {
            Some(v) => match v {
                TopVal::Ob(oes) => options_of(oes),
                _ => None,
            },
            None => {
                proof {
                    assert(entry_scalar_views(empty_opts@)
                        =~= Seq::<(Seq<char>, ScalarV)>::empty());
                }
                options_of(&empty_opts)
            },
        };
        match (id, input_path, output_dir, mode, options) {
            (Some(id), Some(input_path), Some(output_dir), Some(mode), Some(options)) => Some(
                Request::AddJob { id, input_path, output_dir, mode, options },
            ),
            _ => None,
        }
    } else if crate::text::chars_eq_str(&ty, "cancel_job") {
        match top_text(es, "id") {
            Some(id) => Some(Request::CancelJob { id }),
            None => None,
        }
    } else if crate::text::chars_eq_str(&ty, "set_max_parallel") {
        match top_obj_get(es, "n") {
            Some(v) => match v {
                TopVal::Sc(Scalar::Int(n)) => {
                    if *n >= 0 {
                        Some(Request::SetMaxParallel { n: *n as u64 })
                    } else {
                        None
                    }
                },
                _ => None,
            },
            None => None,
        }
    } else if crate::text::chars_eq_str(&ty, "pause_all") {
        Some(Request::PauseAll)
    } else if crate::text::chars_eq_str(&ty, "resume_all") {
        Some(Request::ResumeAll)
    } else if crate::text::chars_eq_str(&ty, "get_status") {
        Some(Request::GetStatus)
    } else if crate::text::chars_eq_str(&ty, "shutdown") {
        Some(Request::Shutdown)
    } else {
        None
    }
}

/// Status snapshot of one job, as reported to the caller.
/// `percent_milli` holds thousandths of a percent.
#[derive(Debug, Clone)]
pub struct JobStatus {
    pub id: Vec<char>,
    pub input_path: Vec<char>,
    pub mode: JobMode,
    pub status: JobState,
    pub percent_milli: u32,
}

/// Mathematical view of [`JobStatus`].
pub struct JobStatusV {
    pub id: Seq<char>,
    pub input_path: Seq<char>,
    pub mode: JobMode,
    pub status: JobState,
    pub percent_milli: u32,
}

impl View for JobStatus {
    type V = JobStatusV;

    open spec fn view(&self) -> JobStatusV {
        JobStatusV {
            id: self.id@,
            input_path: self.input_path@,
            mode: self.mode,
            status: self.status,
            percent_milli: self.percent_milli,
        }
    }
}

/// A response written to the server's standard output.  Ratios are carried
/// as fixed-point values: `percent_milli` in thousandths of a percent,
/// `fps_milli` and `speed_milli` in thousandths.
#[derive(Debug, Clone)]
pub enum Response {
    JobQueued { id: Vec<char> },
    JobProgress { id: Vec<char>, percent_milli: u32, fps_milli: i64, speed_milli: i64, frame: u64 },
    JobDone { id: Vec<char> },
    JobError { id: Vec<char>, message: Vec<char> },
    JobCancelled { id: Vec<char> },
    StatusReport { jobs: Vec<JobStatus> },
}

/// Mathematical view of [`Response`].
pub enum ResponseV {
    JobQueued { id: Seq<char> },
    JobProgress { id: Seq<char>, percent_milli: u32, fps_milli: i64, speed_milli: i64, frame: u64 },
    JobDone { id: Seq<char> },
    JobError { id: Seq<char>, message: Seq<char> },
    JobCancelled { id: Seq<char> },
    StatusReport { jobs: Seq<JobStatusV> },
}

impl View for Response {
    type V = ResponseV;

    open spec fn view(&self) -> ResponseV {
        match self {
            Response::JobQueued { id } => ResponseV::JobQueued { id: id@ },
            Response::JobProgress { id, percent_milli, fps_milli, speed_milli, frame } =>
                ResponseV::JobProgress {
                    id: id@,
                    percent_milli: *percent_milli,
                    fps_milli: *fps_milli,
                    speed_milli: *speed_milli,
                    frame: *frame,
                },
            Response::JobDone { id } => ResponseV::JobDone { id: id@ },
            Response::JobError { id, message } => ResponseV::JobError {
                id: id@,
                message: message@,
            },
            Response::JobCancelled { id } => ResponseV::JobCancelled { id: id@ },
            Response::StatusReport { jobs } => ResponseV::StatusReport {
                jobs: jobs@.map_values(|j: JobStatus| j@),
            },
        }
    }
}

/// Serialized form of one job-status entry.
pub open spec fn spec_status_json(j: JobStatusV) -> Seq<char> {
    "{\"id\":\""@ + spec_escape(j.id) + "\",\"input_path\":\""@ + spec_escape(j.input_path)
        + "\",\"mode\":\""@ + spec_mode_str(j.mode) + "\",\"status\":\""@ + spec_state_str(
        j.status,
    ) + "\",\"percent\":"@ + spec_milli_dec(j.percent_milli as int) + "}"@
}

/// Serialized status entries joined by commas.
pub open spec fn spec_status_list(js: Seq<JobStatusV>) -> Seq<char>
    decreases js.len(),
{
    if js.len() == 0 {
        Seq::empty()
    } else if js.len() == 1 {
        spec_status_json(js[0])
    } else {
        spec_status_list(js.drop_last()) + seq![','] + spec_status_json(js.last())
    }
}

/// The line written for a response, without the trailing newline.
pub open spec fn spec_serialize_response(r: ResponseV) -> Seq<char> {
    match r {
        ResponseV::JobQueued { id } => "{\"type\":\"job_queued\",\"id\":\""@ + spec_escape(id)
            + "\"}"@,
        ResponseV::JobProgress { id, percent_milli, fps_milli, speed_milli, frame } =>
            "{\"type\":\"job_progress\",\"id\":\""@ + spec_escape(id) + "\",\"percent\":"@
                + spec_milli_dec(percent_milli as int) + ",\"fps\":"@ + spec_milli_dec(
                fps_milli as int,
            ) + ",\"speed\":"@ + spec_milli_dec(speed_milli as int) + ",\"frame\":"@
                + spec_u64_dec(frame as nat) + "}"@,
        ResponseV::JobDone { id } => "{\"type\":\"job_done\",\"id\":\""@ + spec_escape(id)
            + "\"}"@,
        ResponseV::JobError { id, message } => "{\"type\":\"job_error\",\"id\":\""@ + spec_escape(
            id,
        ) + "\",\"message\":\""@ + spec_escape(message) + "\"}"@,
        ResponseV::JobCancelled { id } => "{\"type\":\"job_cancelled\",\"id\":\""@ + spec_escape(
            id,
        ) + "\"}"@,
        ResponseV::StatusReport { jobs } => "{\"type\":\"status_report\",\"jobs\":["@
            + spec_status_list(jobs) + "]}"@,
    }
}

/// The wire spelling of a job mode.
pub fn mode_str(m: &JobMode) -> (r: &'static str)
    ensures
        r@ == spec_mode_str(*m),
{
    match m {
        JobMode::ReWrap => "re_wrap",
        JobMode::Proxy => "proxy",
        JobMode::BrawProxy => "raw_a_proxy",
        JobMode::R3dProxy => "raw_b_proxy",
    }
}

/// The wire spelling of a job state.
pub fn state_str(s: &JobState) -> (r: &'static str)
    ensures
        r@ == spec_state_str(*s),
{
    match s {
        JobState::Queued => "queued",
        JobState::Running => "running",
        JobState::Done => "done",
        JobState::Error => "error",
        JobState::Cancelled => "cancelled",
    }
}

fn append_status_json(out: &mut Vec<char>, j: &JobStatus)
    ensures
        final(out)@ == old(out)@ + spec_status_json(j@),
{
    append_str(out, "{\"id\":\"");
    append_escaped(out, j.id.as_slice());
    append_str(out, "\",\"input_path\":\"");
    append_escaped(out, j.input_path.as_slice());
    append_str(out, "\",\"mode\":\"");
    append_str(out, mode_str(&j.mode));
    append_str(out, "\",\"status\":\"");
    append_str(out, state_str(&j.status));
    append_str(out, "\",\"percent\":");
    let p = milli_u32_to_dec(j.percent_milli);
    append_chars(out, p.as_slice());
    append_str(out, "}");
}

/// Serializes a response as one JSON line, without the trailing newline.
pub fn serialize_response(r: &Response) -> (out: Vec<char>)
    ensures
        out@ == spec_serialize_response(r@),
{
    let mut out: Vec<char> = Vec::new();
    match r {
        Response::JobQueued { id } => {
            append_str(&mut out, "{\"type\":\"job_queued\",\"id\":\"");
            append_escaped(&mut out, id.as_slice());
            append_str(&mut out, "\"}");
        },
        Response::JobProgress { id, percent_milli, fps_milli, speed_milli, frame } => {
            append_str(&mut out, "{\"type\":\"job_progress\",\"id\":\"");
            append_escaped(&mut out, id.as_slice());
            append_str(&mut out, "\",\"percent\":");
            let p = milli_u32_to_dec(*percent_milli);
            append_chars(&mut out, p.as_slice());
            append_str(&mut out, ",\"fps\":");
            let f = milli_to_dec(*fps_milli);
            append_chars(&mut out, f.as_slice());
            append_str(&mut out, ",\"speed\":");
            let sdec = milli_to_dec(*speed_milli);
            append_chars(&mut out, sdec.as_slice());
            append_str(&mut out, ",\"frame\":");
            let fr = u64_to_dec(*frame);
            append_chars(&mut out, fr.as_slice());
            append_str(&mut out, "}");
        },
        Response::JobDone { id } => {
            append_str(&mut out, "{\"type\":\"job_done\",\"id\":\"");
            append_escaped(&mut out, id.as_slice());
            append_str(&mut out, "\"}");
        },
        Response::JobError { id, message } => {
            append_str(&mut out, "{\"type\":\"job_error\",\"id\":\"");
            append_escaped(&mut out, id.as_slice());
            append_str(&mut out, "\",\"message\":\"");
            append_escaped(&mut out, message.as_slice());
            append_str(&mut out, "\"}");
        },
        Response::JobCancelled { id } => {
            append_str(&mut out, "{\"type\":\"job_cancelled\",\"id\":\"");
            append_escaped(&mut out, id.as_slice());
            append_str(&mut out, "\"}");
        },
        Response::StatusReport { jobs } => {
            append_str(&mut out, "{\"type\":\"status_report\",\"jobs\":[");
            let ghost js = jobs@.map_values(|j: JobStatus| j@);
            let mut i: usize = 0;
            while i < jobs.len()
                invariant
                    i <= jobs@.len(),
                    js == jobs@.map_values(|j: JobStatus| j@),
                    out@ == "{\"type\":\"status_report\",\"jobs\":["@ + spec_status_list(
                        js.take(i as int),
                    ),
                decreases jobs@.len() - i,
            {
                if i > 0 {
                    let mut comma: Vec<char> = Vec::new();
                    comma.push(',');
                    append_chars(&mut out, comma.as_slice());
                    proof {
                        assert(comma@ =~= seq![',']);
                    }
                }
                append_status_json(&mut out, &jobs[i]);
                proof {
                    let t1 = js.take(i + 1);
                    assert(t1.drop_last() =~= js.take(i as int));
                    assert(t1.last() == js[i as int]);
                    assert(js[i as int] == jobs@[i as int]@);
                    if i == 0 {
                        assert(spec_status_list(t1) == spec_status_json(t1[0]));
                        assert(t1[0] == js[0]);
                    }
                }
                i += 1;
            }
            proof {
                assert(js.take(js.len() as int) =~= js);
            }
            append_str(&mut out, "]}");
        },
    }
    out
}

} // verus!
