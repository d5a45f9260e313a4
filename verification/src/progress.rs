//! Parses the encoder's progress channel: a repeating block of `key=value`
//! lines terminated by `progress=continue` or `progress=end`.  Each
//! terminator emits one structured record built from the keys accumulated
//! since the previous one.
//!
//! The encoder reports `fps` and `speed` as decimal numbers; the records
//! hold them as fixed-point values in thousandths.

use vstd::prelude::*;

use crate::text::{
    chars_of, copy_range, find_char_from, lemma_find_char_absent, lemma_find_char_unique,
    parse_fixed_milli, parse_i64_chars, parse_u64_chars, range_eq_str, spec_find_char,
    spec_is_ws, spec_parse_fixed_milli, spec_parse_i64, spec_parse_u64, spec_strip_trailing,
    spec_trim, strip_trailing_in, trim_range_in,
};

verus! {

/// Structured progress taken from one block of the encoder's progress
/// channel.  `fps_milli` and `speed_milli` carry thousandths.
#[derive(Debug, Clone, Copy, PartialEq, Eq, Structural)]
pub struct FfmpegProgress {
    pub frame: u64,
    pub fps_milli: i64,
    pub speed_milli: i64,
    pub out_time_us: i64,
    pub total_size: i64,
    pub is_done: bool,
}

/// Accumulates `key=value` lines and produces an [`FfmpegProgress`] when a
/// block is complete.  The pending keys are modelled as a map from key to
/// the most recently seen value.
pub struct ProgressParser {
    entries: Vec<(Vec<char>, Vec<char>)>,
}

/// Key/value views of the accumulated entries.
pub open spec fn entry_views(e: Seq<(Vec<char>, Vec<char>)>) -> Seq<(Seq<char>, Seq<char>)> {
    e.map_values(|p: (Vec<char>, Vec<char>)| (p.0@, p.1@))
}

/// The pending map described by a sequence of insertions, later entries
/// overriding earlier ones.
pub open spec fn pending_map(e: Seq<(Seq<char>, Seq<char>)>) -> Map<Seq<char>, Seq<char>>
    decreases e.len(),
{
    if e.len() == 0 {
        Map::empty()
    } else {
        pending_map(e.drop_last()).insert(e.last().0, e.last().1)
    }
}

impl View for ProgressParser {
    type V = Map<Seq<char>, Seq<char>>;

    closed spec fn view(&self) -> Map<Seq<char>, Seq<char>> {
        pending_map(entry_views(self.entries@))
    }
}

/// Value of `key` in the pending map parsed as `u64`; zero when the key is
/// missing or its value does not parse.
pub open spec fn spec_get_u64(m: Map<Seq<char>, Seq<char>>, key: Seq<char>) -> u64 {
    if m.contains_key(key) {
        match spec_parse_u64(m[key]) {
            Some(v) => v,
            None => 0,
        }
    } else {
        0
    }
}

/// Value of `key` parsed as `i64`; zero when missing or malformed.
pub open spec fn spec_get_i64(m: Map<Seq<char>, Seq<char>>, key: Seq<char>) -> i64 {
    if m.contains_key(key) {
        match spec_parse_i64(m[key]) {
            Some(v) => v,
            None => 0,
        }
    } else {
        0
    }
}

/// Value of `key` parsed as a fixed-point decimal in thousandths; zero when
/// missing or malformed.
pub open spec fn spec_get_milli(m: Map<Seq<char>, Seq<char>>, key: Seq<char>) -> i64 {
    if m.contains_key(key) {
        match spec_parse_fixed_milli(m[key]) {
            Some(v) => v,
            None => 0,
        }
    } else {
        0
    }
}

/// The `speed` value: any trailing `x` marks are dropped, the rest trimmed
/// and parsed as a fixed-point decimal; zero when missing or malformed.
pub open spec fn spec_get_speed(m: Map<Seq<char>, Seq<char>>) -> i64 {
    if m.contains_key("speed"@) {
        match spec_parse_fixed_milli(spec_trim(spec_strip_trailing(m["speed"@], 'x'))) {
            Some(v) => v,
            None => 0,
        }
    } else {
        0
    }
}

/// The record a terminator line emits, given the accumulated map.
/// Missing keys default to zero.
pub open spec fn spec_build_progress(m: Map<Seq<char>, Seq<char>>, done: bool) -> FfmpegProgress {
    FfmpegProgress {
        frame: spec_get_u64(m, "frame"@),
        fps_milli: spec_get_milli(m, "fps"@),
        speed_milli: spec_get_speed(m),
        out_time_us: spec_get_i64(m, "out_time_us"@),
        total_size: spec_get_i64(m, "total_size"@),
        is_done: done,
    }
}

/// One step of the parser: the map after the line, and the record emitted
/// by a terminator line.  Blank lines and lines without `=` change nothing.
pub open spec fn spec_feed_line(m: Map<Seq<char>, Seq<char>>, line: Seq<char>) -> (
    Map<Seq<char>, Seq<char>>,
    Option<FfmpegProgress>,
) {
    let t = spec_trim(line);
    if t.len() == 0 {
        (m, None)
    } else {
        let p = spec_find_char(t, '=');
        if p == -1 {
            (m, None)
        } else {
            let key = spec_trim(t.take(p));
            let val = spec_trim(t.skip(p + 1));
            if key == "progress"@ {
                (Map::empty(), Some(spec_build_progress(m, val == "end"@)))
            } else {
                (m.insert(key, val), None)
            }
        }
    }
}

impl ProgressParser {
    /// An empty parser with no pending keys.
    pub fn new() -> (r: Self)
        ensures
            r@ == Map::<Seq<char>, Seq<char>>::empty(),
    {
        Self { entries: Vec::new() }
    }

    /// Feeds a single line of the progress channel.  Returns the finished
    /// record when the line is a `progress=` terminator.
    pub fn feed_line(&mut self, line: &str) -> (r: Option<FfmpegProgress>)
        ensures
            final(self)@ == spec_feed_line(old(self)@, line@).0,
            r == spec_feed_line(old(self)@, line@).1,
    {
        let cs = chars_of(line);
        let s = cs.as_slice();
        let (a, b) = trim_range_in(s, 0, cs.len());
        let ghost t = spec_trim(line@);
        proof {
            assert(s@.subrange(0, s@.len() as int) =~= s@);
        }
        if a == b {
            return None;
        }
        // Find the first '=' of the trimmed text.  Whitespace outside it
        // cannot hold one.
        let eq = find_char_from(s, a, '=');
        let i = match eq {
            Some(i) => {
                if i >= b {
                    proof {
                        assert(spec_is_ws(s@[i as int]));
                        assert(false);
                    }
                    return None;
                }
                i
            },
            None => {
                proof {
                    let u = s@.skip(a as int);
                    crate::text::lemma_find_char_props(u, '=');
                    assert forall|j: int| 0 <= j < t.len() implies t[j] != '=' by {
                        assert(t[j] == s@[a + j]);
                        assert(u[j] == s@[a + j]);
                    }
                    lemma_find_char_absent(t, '=');
                }
                return None;
            },
        };
        proof {
            // The '=' at index i is also the first one of the trimmed text.
            let u = s@.skip(a as int);
            crate::text::lemma_find_char_props(u, '=');
            assert(t[i - a] == s@[i as int]);
            assert forall|j: int| 0 <= j < i - a implies t[j] != '=' by {
                assert(t[j] == s@[a + j]);
                assert(u[j] == s@[a + j]);
                assert(u[j] != '=');
            }
            lemma_find_char_unique(t, '=', i - a);
        }
        let ghost p = spec_find_char(t, '=');
        let (ka, kb) = trim_range_in(s, a, i);
        let (va, vb) = trim_range_in(s, i + 1, b);
        proof {
            assert(t.take(p) =~= s@.subrange(a as int, i as int));
            assert(t.skip(p + 1) =~= s@.subrange(i + 1, b as int));
        }
        if range_eq_str(s, ka, kb, "progress") {
            let done = range_eq_str(s, va, vb, "end");
            let rec = self.build_progress(done);
            self.entries.clear();
            proof {
                assert(entry_views(self.entries@) =~= Seq::<(Seq<char>, Seq<char>)>::empty());
            }
            Some(rec)
        } else {
            let key = copy_range(s, ka, kb);
            let val = copy_range(s, va, vb);
            let ghost kv = key@;
            let ghost vv = val@;
            self.entries.push((key, val));
            proof {
                let e2 = entry_views(self.entries@);
                let e1 = entry_views(old(self).entries@);
                assert(e2 =~= e1.push((kv, vv)));
                assert(e2.drop_last() =~= e1);
            }
            None
        }
    }

    /// Index of the entry that decides `key` in the pending map.
    fn find_key(&self, key: &str) -> (r: Option<usize>)
        ensures
            match r {
                Some(i) => i < self.entries@.len() && self.entries@[i as int].0@ == key@
                    && self@.contains_key(key@) && self@[key@] == self.entries@[i as int].1@,
                None => !self@.contains_key(key@),
            },
    {
        let ghost e = entry_views(self.entries@);
        let mut j: usize = self.entries.len();
        proof {
            assert(e.take(j as int) =~= e);
        }
        while j > 0
            invariant
                j <= self.entries@.len(),
                e == entry_views(self.entries@),
                // The suffix beyond j holds no entry for the key, so the
                // map built from the prefix decides it.
                pending_map(e).contains_key(key@) == pending_map(e.take(j as int)).contains_key(
                    key@,
                ),
                pending_map(e).contains_key(key@) ==> pending_map(e)[key@] == pending_map(
                    e.take(j as int),
                )[key@],
            decreases j,
        {
            j -= 1;
            let ghost pre = e.take(j + 1);
            proof {
                assert(pre.drop_last() =~= e.take(j as int));
                assert(pre.last() == e[j as int]);
            }
            if crate::text::chars_eq_str(&self.entries[j].0, key) {
                proof {
                    assert(pending_map(pre) == pending_map(e.take(j as int)).insert(
                        e[j as int].0,
                        e[j as int].1,
                    ));
                    assert(e[j as int].0 == key@);
                    assert(pending_map(pre).contains_key(key@));
                    assert(pending_map(pre)[key@] == e[j as int].1);
                }
                return Some(j);
            }
            proof {
                assert(e[j as int].0 != key@);
                assert(pending_map(pre) == pending_map(e.take(j as int)).insert(
                    e[j as int].0,
                    e[j as int].1,
                ));
            }
        }
        proof {
            assert(e.take(0) =~= Seq::<(Seq<char>, Seq<char>)>::empty());
            assert(!pending_map(e.take(0)).contains_key(key@));
        }
        None
    }

    /// Value of `key` in the pending block parsed as `u64`, zero when
    /// missing or malformed, as `str::parse` would accept it.
    fn parse_u64(&self, key: &str) -> (r: u64)
        ensures
            r == spec_get_u64(self@, key@),
    {
        match self.find_key(key) {
            Some(i) => {
                let v = &self.entries[i].1;
                match parse_u64_chars(v.as_slice()) {
                    Some(n) => n,
                    None => 0,
                }
            },
            None => 0,
        }
    }

    /// Value of `key` parsed as `i64`, zero when missing or malformed.
    fn parse_i64(&self, key: &str) -> (r: i64)
        ensures
            r == spec_get_i64(self@, key@),
    {
        match self.find_key(key) {
            Some(i) => {
                let v = &self.entries[i].1;
                match parse_i64_chars(v.as_slice()) {
                    Some(n) => n,
                    None => 0,
                }
            },
            None => 0,
        }
    }

    /// Value of `key` parsed as a fixed-point decimal in thousandths.
    fn parse_milli(&self, key: &str) -> (r: i64)
        ensures
            r == spec_get_milli(self@, key@),
    {
        match self.find_key(key) {
            Some(i) => {
                let v = &self.entries[i].1;
                match parse_fixed_milli(v.as_slice()) {
                    Some(n) => n,
                    None => 0,
                }
            },
            None => 0,
        }
    }

    /// The `speed` value, delivered as e.g. `1.23x`: the trailing mark is
    /// removed before parsing.
    fn parse_speed(&self) -> (r: i64)
        ensures
            r == spec_get_speed(self@),
    {
        match self.find_key("speed") {
            Some(i) => {
                let v = &self.entries[i].1;
                let s = v.as_slice();
                let stripped_end = strip_trailing_in(s, 0, v.len(), 'x');
                let ghost full = s@.subrange(0, s@.len() as int);
                proof {
                    assert(full =~= s@);
                }
                let (a2, b2) = trim_range_in(s, 0, stripped_end);
                let trimmed = copy_range(s, a2, b2);
                match parse_fixed_milli(trimmed.as_slice()) {
                    Some(n) => n,
                    None => 0,
                }
            },
            None => 0,
        }
    }

    /// The record for the accumulated block.
    fn build_progress(&self, is_done: bool) -> (r: FfmpegProgress)
        ensures
            r == spec_build_progress(self@, is_done),
    {
        FfmpegProgress {
            frame: self.parse_u64("frame"),
            fps_milli: self.parse_milli("fps"),
            speed_milli: self.parse_speed(),
            out_time_us: self.parse_i64("out_time_us"),
            total_size: self.parse_i64("total_size"),
            is_done,
        }
    }
}

/// Completion as parts per million of the total duration, clamped to the
/// unit interval; zero when the total is not positive.
pub open spec fn spec_calculate_progress(current_us: int, total_us: int) -> int {
    if total_us <= 0 {
        0
    } else if current_us <= 0 {
        0
    } else if current_us >= total_us {
        1_000_000
    } else {
        current_us * 1_000_000 / total_us
    }
}

/// Completion ratio of `current_time_us` against `total_duration_us` in
/// parts per million, clamped to `[0, 1_000_000]`; zero when the total is
/// not positive.
pub fn calculate_progress(current_time_us: i64, total_duration_us: i64) -> (r: u32)
    ensures
        r == spec_calculate_progress(current_time_us as int, total_duration_us as int),
        r <= 1_000_000,
{
    if total_duration_us <= 0 {
        return 0;
    }
    if current_time_us <= 0 {
        return 0;
    }
    if current_time_us >= total_duration_us {
        return 1_000_000;
    }
    let c = current_time_us as i128;
    let d = total_duration_us as i128;
    let wide: i128 = c * 1_000_000;
    proof {
        assert(c * 1_000_000 < d * 1_000_000) by (nonlinear_arith)
            requires
                0 < c < d,
        ;
        vstd::arithmetic::div_mod::lemma_multiply_divide_lt(
            c as int * 1_000_000,
            d as int,
            1_000_000,
        );
        vstd::arithmetic::div_mod::lemma_div_pos_is_pos(c as int * 1_000_000, d as int);
    }
    let q: i128 = wide / d;
    q as u32
}

/// The serialized lines of a progress record: one `key=value` line per
/// recognized key, then the `progress=continue` terminator.  The speed
/// carries its customary trailing mark.
pub open spec fn spec_serialize_progress_lines(p: FfmpegProgress) -> Seq<Seq<char>> {
    seq![
        "frame="@ + crate::text::spec_u64_dec(p.frame as nat),
        "fps="@ + crate::json::spec_milli_dec(p.fps_milli as int),
        "speed="@ + crate::json::spec_milli_dec(p.speed_milli as int) + seq!['x'],
        "out_time_us="@ + crate::text::spec_i64_dec(p.out_time_us as int),
        "total_size="@ + crate::text::spec_i64_dec(p.total_size as int),
        "progress=continue"@,
    ]
}

/// Builds the serialized lines of a progress record.
pub fn serialize_progress_lines(p: &FfmpegProgress) -> (r: Vec<Vec<char>>)
    ensures
        crate::ffmpeg::arg_views(r@) == spec_serialize_progress_lines(*p),
{
    let mut r: Vec<Vec<char>> = Vec::new();
    let mut l1 = chars_of("frame=");
    let d1 = crate::text::u64_to_dec(p.frame);
    crate::text::append_chars(&mut l1, d1.as_slice());
    crate::ffmpeg::push_arg(&mut r, l1);
    let mut l2 = chars_of("fps=");
    let d2 = crate::json::milli_to_dec(p.fps_milli);
    crate::text::append_chars(&mut l2, d2.as_slice());
    crate::ffmpeg::push_arg(&mut r, l2);
    let mut l3 = chars_of("speed=");
    let d3 = crate::json::milli_to_dec(p.speed_milli);
    crate::text::append_chars(&mut l3, d3.as_slice());
    l3.push('x');
    crate::ffmpeg::push_arg(&mut r, l3);
    let mut l4 = chars_of("out_time_us=");
    let d4 = crate::text::i64_to_dec(p.out_time_us);
    crate::text::append_chars(&mut l4, d4.as_slice());
    crate::ffmpeg::push_arg(&mut r, l4);
    let mut l5 = chars_of("total_size=");
    let d5 = crate::text::i64_to_dec(p.total_size);
    crate::text::append_chars(&mut l5, d5.as_slice());
    crate::ffmpeg::push_arg(&mut r, l5);
    crate::ffmpeg::push_arg_str(&mut r, "progress=continue");
    proof {
        assert(("speed="@ + crate::json::spec_milli_dec(p.speed_milli as int)).push('x')
            =~= "speed="@ + crate::json::spec_milli_dec(p.speed_milli as int) + seq!['x']);
        assert(crate::ffmpeg::arg_views(r@) =~= spec_serialize_progress_lines(*p));
    }
    r
}

/// A non-empty text that neither begins nor ends with whitespace is its
/// own trimmed form.
proof fn lemma_trim_ends(s: Seq<char>)
    requires
        s.len() > 0,
        !spec_is_ws(s[0]),
        !spec_is_ws(s.last()),
    ensures
        spec_trim(s) == s,
{
    assert(crate::text::spec_trim_start(s) == s);
    assert(crate::text::spec_trim_end(s) == s);
}

/// Feeding a plain `key=value` line accumulates the pair.
proof fn lemma_feed_kv(m: Map<Seq<char>, Seq<char>>, key: Seq<char>, val: Seq<char>)
    requires
        key.len() >= 1,
        forall|i: int| 0 <= i < key.len() ==> crate::text::spec_plain_value_char(#[trigger] key[i]),
        forall|i: int| 0 <= i < val.len() ==> crate::text::spec_plain_value_char(#[trigger] val[i]),
        key != "progress"@,
    ensures
        spec_feed_line(m, key + seq!['='] + val) == (m.insert(key, val), None::<FfmpegProgress>),
{
    let line = key + seq!['='] + val;
    assert(line[0] == key[0]);
    assert(line.last() == (if val.len() > 0 {
        val.last()
    } else {
        '='
    }));
    assert(!spec_is_ws('=')) by {
        assert(('=' as u32) == 61);
    }
    lemma_trim_ends(line);
    let t = spec_trim(line);
    assert(t == line);
    assert(line[key.len() as int] == '=');
    assert forall|j: int| 0 <= j < key.len() implies line[j] != '=' by {
        assert(line[j] == key[j]);
    }
    crate::text::lemma_find_char_unique(line, '=', key.len() as int);
    let p = key.len() as int;
    assert(line.take(p) =~= key);
    assert(line.skip(p + 1) =~= val);
    lemma_trim_ends(key);
    if val.len() > 0 {
        lemma_trim_ends(val);
    } else {
        assert(spec_trim(val) =~= val);
    }
}

/// Feeding the continue terminator emits the accumulated record, not yet
/// terminal, and clears the pending keys.
proof fn lemma_feed_terminator(m: Map<Seq<char>, Seq<char>>)
    ensures
        spec_feed_line(m, "progress=continue"@) == (
            Map::<Seq<char>, Seq<char>>::empty(),
            Some(spec_build_progress(m, false)),
        ),
{
    reveal_strlit("progress=continue");
    reveal_strlit("progress");
    reveal_strlit("continue");
    reveal_strlit("end");
    let line = "progress=continue"@;
    assert(line.len() == 17);
    lemma_trim_ends(line);
    assert(line[8] == '=');
    assert forall|j: int| 0 <= j < 8 implies line[j] != '=' by {
    }
    crate::text::lemma_find_char_unique(line, '=', 8);
    assert(line.take(8) =~= "progress"@);
    assert(line.skip(9) =~= "continue"@);
    lemma_trim_ends("progress"@);
    lemma_trim_ends("continue"@);
    assert("continue"@ != "end"@) by {
        assert("continue"@.len() == 8 && "end"@.len() == 3);
    }
}

/// A block fed line by line: the final pending map and the record emitted
/// by the last line.
pub open spec fn spec_feed_lines(m: Map<Seq<char>, Seq<char>>, lines: Seq<Seq<char>>) -> (
    Map<Seq<char>, Seq<char>>,
    Option<FfmpegProgress>,
)
    decreases lines.len(),
{
    if lines.len() == 0 {
        (m, None)
    } else {
        let (m1, r1) = spec_feed_line(m, lines[0]);
        if lines.len() == 1 {
            (m1, r1)
        } else {
            spec_feed_lines(m1, lines.skip(1))
        }
    }
}

/// Serializing a record and parsing the lines back yields the same key
/// set — exactly the recognized keys — and the very same record, not yet
/// terminal; the terminator clears every pending key.  The bound keeps the
/// fixed-point renderings within what the parser's integer-part limit
/// admits.
pub proof fn lemma_progress_round_trip(p: FfmpegProgress)
    requires
        -9_223_372_036_854_774_999 <= p.fps_milli <= 9_223_372_036_854_774_999,
        -9_223_372_036_854_774_999 <= p.speed_milli <= 9_223_372_036_854_774_999,
    ensures
        ({
            let m5 = Map::<Seq<char>, Seq<char>>::empty().insert(
                "frame"@,
                crate::text::spec_u64_dec(p.frame as nat),
            ).insert("fps"@, crate::json::spec_milli_dec(p.fps_milli as int)).insert(
                "speed"@,
                crate::json::spec_milli_dec(p.speed_milli as int) + seq!['x'],
            ).insert("out_time_us"@, crate::text::spec_i64_dec(p.out_time_us as int)).insert(
                "total_size"@,
                crate::text::spec_i64_dec(p.total_size as int),
            );
            let (m_end, rec) = spec_feed_lines(
                Map::<Seq<char>, Seq<char>>::empty(),
                spec_serialize_progress_lines(p),
            );
            &&& m_end == Map::<Seq<char>, Seq<char>>::empty()
            &&& rec == Some(spec_build_progress(m5, false))
            &&& m5.dom() =~= set![
                "frame"@,
                "fps"@,
                "speed"@,
                "out_time_us"@,
                "total_size"@,
            ]
            &&& spec_build_progress(m5, false) == (FfmpegProgress {
                is_done: false,
                ..p
            })
        }),
{
    let lines = spec_serialize_progress_lines(p);
    let frame_d = crate::text::spec_u64_dec(p.frame as nat);
    let fps_d = crate::json::spec_milli_dec(p.fps_milli as int);
    let speed_d = crate::json::spec_milli_dec(p.speed_milli as int) + seq!['x'];
    let out_d = crate::text::spec_i64_dec(p.out_time_us as int);
    let total_d = crate::text::spec_i64_dec(p.total_size as int);
    // The serialized lines are key=value texts of plain characters.
    reveal_strlit("frame=");
    reveal_strlit("fps=");
    reveal_strlit("speed=");
    reveal_strlit("out_time_us=");
    reveal_strlit("total_size=");
    reveal_strlit("frame");
    reveal_strlit("fps");
    reveal_strlit("speed");
    reveal_strlit("out_time_us");
    reveal_strlit("total_size");
    reveal_strlit("progress");
    lemma_milli_plain(p.fps_milli as int);
    lemma_milli_plain(p.speed_milli as int);
    lemma_i64_plain(p.out_time_us as int);
    lemma_i64_plain(p.total_size as int);
    crate::text::lemma_u64_dec_plain(p.frame as nat);
    assert(crate::text::spec_plain_value_char('x')) by {
        assert(('x' as u32) == 120);
    }
    let m0 = Map::<Seq<char>, Seq<char>>::empty();
    assert(lines[0] =~= "frame"@ + seq!['='] + frame_d);
    assert(forall|i: int| 0 <= i < speed_d.len() ==> crate::text::spec_plain_value_char(
        #[trigger] speed_d[i],
    ));
    assert("frame"@.len() == 5 && "fps"@.len() == 3 && "speed"@.len() == 5
        && "out_time_us"@.len() == 11 && "total_size"@.len() == 10 && "progress"@.len() == 8);
    assert("frame"@[0] == 'f' && "speed"@[0] == 's');
    assert("frame"@ != "progress"@ && "fps"@ != "progress"@ && "speed"@ != "progress"@
        && "out_time_us"@ != "progress"@ && "total_size"@ != "progress"@);
    lemma_feed_kv(m0, "frame"@, frame_d);
    let m1 = m0.insert("frame"@, frame_d);
    assert(lines[1] =~= "fps"@ + seq!['='] + crate::json::spec_milli_dec(p.fps_milli as int));
    lemma_feed_kv(m1, "fps"@, crate::json::spec_milli_dec(p.fps_milli as int));
    let m2 = m1.insert("fps"@, crate::json::spec_milli_dec(p.fps_milli as int));
    assert(lines[2] =~= "speed"@ + seq!['='] + speed_d);
    lemma_feed_kv(m2, "speed"@, speed_d);
    let m3 = m2.insert("speed"@, speed_d);
    assert(lines[3] =~= "out_time_us"@ + seq!['='] + out_d);
    lemma_feed_kv(m3, "out_time_us"@, out_d);
    let m4 = m3.insert("out_time_us"@, out_d);
    assert(lines[4] =~= "total_size"@ + seq!['='] + total_d);
    lemma_feed_kv(m4, "total_size"@, total_d);
    let m5 = m4.insert("total_size"@, total_d);
    assert(lines[5] == "progress=continue"@);
    lemma_feed_terminator(m5);
    // Fold the block.
    assert(lines.skip(1)[0] == lines[1] && lines.skip(1).skip(1) =~= lines.skip(2));
    assert(lines.skip(2)[0] == lines[2] && lines.skip(2).skip(1) =~= lines.skip(3));
    assert(lines.skip(3)[0] == lines[3] && lines.skip(3).skip(1) =~= lines.skip(4));
    assert(lines.skip(4)[0] == lines[4] && lines.skip(4).skip(1) =~= lines.skip(5));
    assert(lines.skip(5)[0] == lines[5] && lines.skip(5).len() == 1);
    assert(spec_feed_line(m0, lines[0]) == (m1, None::<FfmpegProgress>));
    assert(spec_feed_lines(m0, lines) == spec_feed_lines(m1, lines.skip(1)));
    assert(spec_feed_line(m1, lines[1]) == (m2, None::<FfmpegProgress>));
    assert(spec_feed_lines(m1, lines.skip(1)) == spec_feed_lines(m2, lines.skip(2)));
    assert(spec_feed_line(m2, lines[2]) == (m3, None::<FfmpegProgress>));
    assert(spec_feed_lines(m2, lines.skip(2)) == spec_feed_lines(m3, lines.skip(3)));
    assert(spec_feed_line(m3, lines[3]) == (m4, None::<FfmpegProgress>));
    assert(spec_feed_lines(m3, lines.skip(3)) == spec_feed_lines(m4, lines.skip(4)));
    assert(spec_feed_line(m4, lines[4]) == (m5, None::<FfmpegProgress>));
    assert(spec_feed_lines(m4, lines.skip(4)) == spec_feed_lines(m5, lines.skip(5)));
    assert(spec_feed_lines(m5, lines.skip(5)) == spec_feed_line(m5, lines[5]));
    assert(spec_feed_lines(m0, lines) == (
        Map::<Seq<char>, Seq<char>>::empty(),
        Some(spec_build_progress(m5, false)),
    ));
    // The keys are pairwise distinct, so every entry survives.
    assert("frame"@ != "fps"@ && "frame"@ != "speed"@ && "frame"@ != "out_time_us"@ && "frame"@
        != "total_size"@);
    assert("fps"@ != "speed"@ && "fps"@ != "out_time_us"@ && "fps"@ != "total_size"@);
    assert("speed"@ != "out_time_us"@ && "speed"@ != "total_size"@);
    assert("out_time_us"@ != "total_size"@);
    assert(m5["frame"@] == frame_d && m5.contains_key("frame"@));
    assert(m5["out_time_us"@] == out_d && m5.contains_key("out_time_us"@));
    assert(m5["total_size"@] == total_d && m5.contains_key("total_size"@));
    assert(m5["fps"@] == crate::json::spec_milli_dec(p.fps_milli as int) && m5.contains_key(
        "fps"@,
    ));
    assert(m5["speed"@] == speed_d && m5.contains_key("speed"@));
    crate::text::lemma_parse_u64_round_trip(p.frame);
    crate::text::lemma_parse_i64_round_trip(p.out_time_us);
    crate::text::lemma_parse_i64_round_trip(p.total_size);
    crate::json::lemma_parse_fixed_milli_round_trip(p.fps_milli);
    crate::json::lemma_parse_fixed_milli_round_trip(p.speed_milli);
    // The trailing speed mark comes off, and nothing else does.
    let sd = crate::json::spec_milli_dec(p.speed_milli as int);
    crate::json::lemma_milli_dec_chars(p.speed_milli as int);
    assert(speed_d.last() == 'x');
    assert(speed_d.drop_last() =~= sd);
    assert(sd.last() != 'x') by {
        assert(('x' as u32) == 120);
        assert(crate::text::spec_is_digit(sd[sd.len() - 1]) || sd[sd.len() - 1] == '-'
            || sd[sd.len() - 1] == '.');
    }
    assert(crate::text::spec_strip_trailing(speed_d, 'x') == crate::text::spec_strip_trailing(
        sd,
        'x',
    ));
    assert(crate::text::spec_strip_trailing(sd, 'x') == sd);
    assert(!spec_is_ws(sd[0]) && !spec_is_ws(sd.last())) by {
        assert(crate::text::spec_is_digit(sd[0]) || sd[0] == '-' || sd[0] == '.');
        assert(crate::text::spec_is_digit(sd[sd.len() - 1]) || sd[sd.len() - 1] == '-'
            || sd[sd.len() - 1] == '.');
        assert(('-' as u32) == 45 && ('.' as u32) == 46);
    }
    lemma_trim_ends(sd);
    assert(spec_get_speed(m5) == p.speed_milli);
}

/// Every character of a fixed-point rendering is a plain value character.
proof fn lemma_milli_plain(m: int)
    requires
        -0x8000_0000_0000_0000 <= m < 0x8000_0000_0000_0000,
    ensures
        forall|i: int|
            0 <= i < crate::json::spec_milli_dec(m).len() ==> crate::text::spec_plain_value_char(
                #[trigger] crate::json::spec_milli_dec(m)[i],
            ),
{
    let d = crate::json::spec_milli_dec(m);
    let mag = if m < 0 {
        -m
    } else {
        m
    };
    let sign: Seq<char> = if m < 0 {
        seq!['-']
    } else {
        Seq::empty()
    };
    let ip = crate::text::spec_u64_dec((mag / 1000) as nat);
    let fr = crate::json::spec_milli_frac(mag % 1000);
    assert(d == sign + ip + fr);
    crate::text::lemma_u64_dec_plain((mag / 1000) as nat);
    assert(crate::text::spec_plain_value_char('-')) by {
        assert(('-' as u32) == 45);
    }
    assert(crate::text::spec_plain_value_char('.')) by {
        assert(('.' as u32) == 46);
    }
    assert forall|i: int| 0 <= i < fr.len() implies crate::text::spec_plain_value_char(fr[i]) by {
        lemma_milli_frac_plain(mag % 1000);
    }
    assert forall|i: int| 0 <= i < d.len() implies crate::text::spec_plain_value_char(d[i]) by {
        if i < sign.len() {
            assert(d[i] == sign[i]);
        } else if i < sign.len() + ip.len() {
            assert(d[i] == ip[i - sign.len()]);
        } else {
            assert(d[i] == fr[i - sign.len() - ip.len()]);
        }
    }
}

proof fn lemma_milli_frac_plain(f: int)
    requires
        0 <= f < 1000,
    ensures
        forall|i: int|
            0 <= i < crate::json::spec_milli_frac(f).len() ==> crate::text::spec_plain_value_char(
                #[trigger] crate::json::spec_milli_frac(f)[i],
            ),
{
    let fr = crate::json::spec_milli_frac(f);
    assert(crate::text::spec_plain_value_char('.')) by {
        assert(('.' as u32) == 46);
    }
    assert forall|i: int| 0 <= i < fr.len() implies crate::text::spec_plain_value_char(fr[i]) by {
        if i > 0 {
            assert(crate::text::spec_is_digit(fr[i])) by {
                lemma_digit_char_plain(((f / 100) % 10) as nat);
                lemma_digit_char_plain(((f / 10) % 10) as nat);
                lemma_digit_char_plain((f % 10) as nat);
                lemma_digit_char_plain((f / 100) as nat);
            }
        }
    }
}

proof fn lemma_digit_char_plain(d: nat)
    requires
        d < 10,
    ensures
        crate::text::spec_is_digit(crate::text::spec_digit_char(d)),
        crate::text::spec_plain_value_char(crate::text::spec_digit_char(d)),
{
    assert((((48 + d) as u8) as char) as u32 == 48 + d);
}

/// Every character of a signed numeral is a plain value character.
proof fn lemma_i64_plain(v: int)
    requires
        -0x8000_0000_0000_0000 <= v < 0x8000_0000_0000_0000,
    ensures
        forall|i: int|
            0 <= i < crate::text::spec_i64_dec(v).len() ==> crate::text::spec_plain_value_char(
                #[trigger] crate::text::spec_i64_dec(v)[i],
            ),
{
    let d = crate::text::spec_i64_dec(v);
    if v < 0 {
        let a = crate::text::spec_u64_dec((-v) as nat);
        crate::text::lemma_u64_dec_plain((-v) as nat);
        assert(crate::text::spec_plain_value_char('-')) by {
            assert(('-' as u32) == 45);
        }
        assert forall|i: int| 0 <= i < d.len() implies crate::text::spec_plain_value_char(
            d[i],
        ) by {
            if i == 0 {
                assert(d[0] == '-');
            } else {
                assert(d[i] == a[i - 1]);
            }
        }
    } else {
        crate::text::lemma_u64_dec_plain(v as nat);
    }
}

/// The completion ratio never decreases as the output time grows.
pub proof fn lemma_calculate_progress_monotonic(c1: int, c2: int, total: int)
    requires
        c1 <= c2,
    ensures
        spec_calculate_progress(c1, total) <= spec_calculate_progress(c2, total),
{
    if total > 0 && c1 > 0 && c2 < total {
        assert(c1 * 1_000_000 <= c2 * 1_000_000) by (nonlinear_arith)
            requires
                c1 <= c2,
        ;
        vstd::arithmetic::div_mod::lemma_div_is_ordered(
            c1 * 1_000_000,
            c2 * 1_000_000,
            total,
        );
    }
    if total > 0 && 0 < c1 < total && c2 >= total {
        assert(c1 * 1_000_000 < total * 1_000_000) by (nonlinear_arith)
            requires
                0 < c1 < total,
        ;
        vstd::arithmetic::div_mod::lemma_multiply_divide_lt(c1 * 1_000_000, total, 1_000_000);
    }
}

} // verus!
