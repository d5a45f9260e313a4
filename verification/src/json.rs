//! The JSON subset of the wire protocol: objects of string keys with
//! scalar values, one nesting level for option blocks, strings with the
//! standard escapes, and integer numbers.  The parser and the serializer
//! are both defined against spec-level grammar functions.

use vstd::prelude::*;

use crate::text::{lemma_dec_val_nonneg, spec_dec_val, spec_digit_val, spec_is_digit};

verus! {

/// A scalar JSON value.
#[derive(Debug, Clone)]
pub enum Scalar {
    Null,
    Bool(bool),
    Int(i64),
    Text(Vec<char>),
}

/// Mathematical view of [`Scalar`].
pub enum ScalarV {
    Null,
    Bool(bool),
    Int(i64),
    Text(Seq<char>),
}

impl View for Scalar {
    type V = ScalarV;

    open spec fn view(&self) -> ScalarV {
        match self {
            Scalar::Null => ScalarV::Null,
            Scalar::Bool(b) => ScalarV::Bool(*b),
            Scalar::Int(n) => ScalarV::Int(*n),
            Scalar::Text(t) => ScalarV::Text(t@),
        }
    }
}

/// JSON whitespace.
pub open spec fn spec_json_ws(c: char) -> bool {
    c == ' ' || c == '\t' || c == '\n' || c == '\r'
}

/// First position at or after `i` holding something other than JSON
/// whitespace.
pub open spec fn spec_skip_ws(s: Seq<char>, i: int) -> int
    recommends
        0 <= i <= s.len(),
    decreases s.len() - i,
{
    if i < 0 {
        i
    } else if i < s.len() && spec_json_ws(s[i]) {
        spec_skip_ws(s, i + 1)
    } else {
        i
    }
}

proof fn lemma_skip_ws_bounds(s: Seq<char>, i: int)
    requires
        0 <= i <= s.len(),
    ensures
        i <= spec_skip_ws(s, i) <= s.len(),
        spec_skip_ws(s, i) < s.len() ==> !spec_json_ws(s[spec_skip_ws(s, i)]),
    decreases s.len() - i,
{
    if i < s.len() && spec_json_ws(s[i]) {
        lemma_skip_ws_bounds(s, i + 1);
    }
}

fn json_ws(c: char) -> (r: bool)
    ensures
        r == spec_json_ws(c),
{
    c == ' ' || c == '\t' || c == '\n' || c == '\r'
}

/// Advances past JSON whitespace.
pub fn skip_ws(s: &[char], i: usize) -> (r: usize)
    requires
        i <= s@.len(),
    ensures
        r == spec_skip_ws(s@, i as int),
        i <= r <= s@.len(),
        r < s@.len() ==> !spec_json_ws(s@[r as int]),
    decreases s@.len() - i,
{
    proof {
        lemma_skip_ws_bounds(s@, i as int);
    }
    if i < s.len() && json_ws(s[i]) {
        skip_ws(s, i + 1)
    } else {
        i
    }
}

/// Numeric value of a hexadecimal digit character, or 16 when it is none.
pub open spec fn spec_hex_val(c: char) -> int {
    if 48 <= (c as u32) <= 57 {
        (c as u32) - 48
    } else if 97 <= (c as u32) <= 102 {
        (c as u32) - 87
    } else if 65 <= (c as u32) <= 70 {
        (c as u32) - 55
    } else {
        16
    }
}

fn hex_val(c: char) -> (r: u32)
    ensures
        r == spec_hex_val(c),
{
    let cu = c as u32;
    if 48 <= cu && cu <= 57 {
        cu - 48
    } else if 97 <= cu && cu <= 102 {
        cu - 87
    } else if 65 <= cu && cu <= 70 {
        cu - 55
    } else {
        16
    }
}

/// The character with the given scalar value, outside the surrogate range.
pub open spec fn spec_char_of(v: u32) -> char
    recommends
        v < 0xD800 || (0xE000 <= v <= 0x10FFFF),
{
    v as char
}

/// Relies on `char::from_u32` of std: it returns the character with the
/// given scalar value exactly for values below the surrogate range or
/// between it and the maximum code point.
#[verifier::external_body]
fn char_from_u32(v: u32) -> (r: Option<char>)
    ensures
        (v < 0xD800 || (0xE000 <= v <= 0x10FFFF)) ==> r == Some(spec_char_of(v)),
        !(v < 0xD800 || (0xE000 <= v <= 0x10FFFF)) ==> r is None,
{
    char::from_u32(v)
}

/// Body of a JSON string from position `i` (just after the opening quote):
/// the decoded characters and the position after the closing quote.
/// Unterminated strings, raw control characters, malformed escapes and
/// surrogate code points yield nothing.
pub open spec fn spec_parse_string_body(s: Seq<char>, i: int) -> Option<(Seq<char>, int)>
    recommends
        0 <= i <= s.len(),
    decreases s.len() - i,
{
    if i < 0 || i >= s.len() {
        None
    } else if s[i] == '"' {
        Some((Seq::empty(), i + 1))
    } else if s[i] == '\\' {
        if i + 1 >= s.len() {
            None
        } else {
            let e = s[i + 1];
            if e == 'u' {
                if i + 6 > s.len() {
                    None
                } else {
                    let v = spec_hex_val(s[i + 2]) * 4096 + spec_hex_val(s[i + 3]) * 256
                        + spec_hex_val(s[i + 4]) * 16 + spec_hex_val(s[i + 5]);
                    if spec_hex_val(s[i + 2]) < 16 && spec_hex_val(s[i + 3]) < 16 && spec_hex_val(
                        s[i + 4],
                    ) < 16 && spec_hex_val(s[i + 5]) < 16 && (v < 0xD800 || v >= 0xE000) {
                        match spec_parse_string_body(s, i + 6) {
                            Some((rest, j)) => Some(
                                (seq![spec_char_of(v as u32)] + rest, j),
                            ),
                            None => None,
                        }
                    } else {
                        None
                    }
                }
            } else {
                let decoded: Option<char> = if e == '"' {
                    Some('"')
                } else if e == '\\' {
                    Some('\\')
                } else if e == '/' {
                    Some('/')
                } else if e == 'b' {
                    Some('\u{8}')
                } else if e == 'f' {
                    Some('\u{c}')
                } else if e == 'n' {
                    Some('\n')
                } else if e == 'r' {
                    Some('\r')
                } else if e == 't' {
                    Some('\t')
                } else {
                    None
                };
                match decoded {
                    Some(c) => match spec_parse_string_body(s, i + 2) {
                        Some((rest, j)) => Some((seq![c] + rest, j)),
                        None => None,
                    },
                    None => None,
                }
            }
        }
    } else if (s[i] as u32) < 0x20 {
        None
    } else {
        match spec_parse_string_body(s, i + 1) {
            Some((rest, j)) => Some((seq![s[i]] + rest, j)),
            None => None,
        }
    }
}

proof fn lemma_parse_string_body_bounds(s: Seq<char>, i: int)
    requires
        0 <= i <= s.len(),
    ensures
        match spec_parse_string_body(s, i) {
            Some((_, j)) => i < j <= s.len(),
            None => true,
        },
    decreases s.len() - i,
{
    if i < s.len() {
        if s[i] == '\\' && i + 1 < s.len() && s[i + 1] == 'u' && i + 6 <= s.len() {
            lemma_parse_string_body_bounds(s, i + 6);
        } else if s[i] == '\\' && i + 1 < s.len() {
            lemma_parse_string_body_bounds(s, i + 2);
        } else if s[i] != '"' {
            lemma_parse_string_body_bounds(s, i + 1);
        }
    }
}

/// Decodes a JSON string body, mirroring [`spec_parse_string_body`].
fn parse_string_body(s: &[char], i: usize) -> (r: Option<(Vec<char>, usize)>)
    requires
        i <= s@.len(),
    ensures
        match r {
            Some((t, j)) => spec_parse_string_body(s@, i as int) == Some((t@, j as int))
                && i < j <= s@.len(),
            None => spec_parse_string_body(s@, i as int) is None,
        },
    decreases s@.len() - i,
{
    proof {
        lemma_parse_string_body_bounds(s@, i as int);
    }
    if i >= s.len() {
        return None;
    }
    let c = s[i];
    if c == '"' {
        return Some((Vec::new(), i + 1));
    }
    if c == '\\' {
        if i + 1 >= s.len() {
            return None;
        }
        let e = s[i + 1];
        if e == 'u' {
            if s.len() - i < 6 {
                return None;
            }
            let h0 = hex_val(s[i + 2]);
            let h1 = hex_val(s[i + 3]);
            let h2 = hex_val(s[i + 4]);
            let h3 = hex_val(s[i + 5]);
            if h0 < 16 && h1 < 16 && h2 < 16 && h3 < 16 {
                let v: u32 = h0 * 4096 + h1 * 256 + h2 * 16 + h3;
                if v < 0xD800 || v >= 0xE000 {
                    let ch = match char_from_u32(v) {
                        Some(ch) => ch,
                        None => {
                            proof {
                                assert(false);
                            }
                            return None;
                        },
                    };
                    match parse_string_body(s, i + 6) {
                        Some((rest, j)) => {
                            let mut out: Vec<char> = Vec::new();
                            out.push(ch);
                            crate::text::append_chars(&mut out, rest.as_slice());
                            proof {
                                assert(out@ =~= seq![spec_char_of(v)] + rest@);
                            }
                            return Some((out, j));
                        },
                        None => {
                            return None;
                        },
                    }
                }
            }
            return None;
        }
        let decoded: Option<char> = if e == '"' {
            Some('"')
        } else if e == '\\' {
            Some('\\')
        } else if e == '/' {
            Some('/')
        } else if e == 'b' {
            Some('\u{8}')
        } else if e == 'f' {
            Some('\u{c}')
        } else if e == 'n' {
            Some('\n')
        } else if e == 'r' {
            Some('\r')
        } else if e == 't' {
            Some('\t')
        } else {
            None
        };
        match decoded {
            Some(dc) => match parse_string_body(s, i + 2) {
                Some((rest, j)) => {
                    let mut out: Vec<char> = Vec::new();
                    out.push(dc);
                    crate::text::append_chars(&mut out, rest.as_slice());
                    proof {
                        assert(out@ =~= seq![dc] + rest@);
                    }
                    Some((out, j))
                },
                None => None,
            },
            None => None,
        }
    } else if (c as u32) < 0x20 {
        None
    } else {
        match parse_string_body(s, i + 1) {
            Some((rest, j)) => {
                let mut out: Vec<char> = Vec::new();
                out.push(c);
                crate::text::append_chars(&mut out, rest.as_slice());
                proof {
                    assert(out@ =~= seq![c] + rest@);
                }
                Some((out, j))
            },
            None => None,
        }
    }
}

/// A quoted JSON string at position `i`: its decoded content and the
/// position after the closing quote.
pub open spec fn spec_parse_string(s: Seq<char>, i: int) -> Option<(Seq<char>, int)>
    recommends
        0 <= i <= s.len(),
{
    if 0 <= i < s.len() && s[i] == '"' {
        spec_parse_string_body(s, i + 1)
    } else {
        None
    }
}

/// Parses a quoted JSON string.
fn parse_string(s: &[char], i: usize) -> (r: Option<(Vec<char>, usize)>)
    requires
        i <= s@.len(),
    ensures
        match r {
            Some((t, j)) => spec_parse_string(s@, i as int) == Some((t@, j as int)) && i < j
                <= s@.len(),
            None => spec_parse_string(s@, i as int) is None,
        },
{
    if i < s.len() && s[i] == '"' {
        parse_string_body(s, i + 1)
    } else {
        None
    }
}

/// End of the digit run beginning at `i`.
pub open spec fn spec_digit_run_end(s: Seq<char>, i: int) -> int
    recommends
        0 <= i <= s.len(),
    decreases s.len() - i,
{
    if 0 <= i < s.len() && spec_is_digit(s[i]) {
        spec_digit_run_end(s, i + 1)
    } else {
        i
    }
}

proof fn lemma_digit_run_end_bounds(s: Seq<char>, i: int)
    requires
        0 <= i <= s.len(),
    ensures
        i <= spec_digit_run_end(s, i) <= s.len(),
        forall|k: int| i <= k < spec_digit_run_end(s, i) ==> spec_is_digit(s[k]),
        spec_digit_run_end(s, i) < s.len() ==> !spec_is_digit(s[spec_digit_run_end(s, i)]),
    decreases s.len() - i,
{
    if i < s.len() && spec_is_digit(s[i]) {
        lemma_digit_run_end_bounds(s, i + 1);
    }
}

fn digit_run_end(s: &[char], i: usize) -> (r: usize)
    requires
        i <= s@.len(),
    ensures
        r == spec_digit_run_end(s@, i as int),
        i <= r <= s@.len(),
    decreases s@.len() - i,
{
    if i < s.len() {
        let cu = s[i] as u32;
        if 48 <= cu && cu <= 57 {
            return digit_run_end(s, i + 1);
        }
    }
    i
}

/// A JSON integer at position `i`: an optional minus sign and a digit run
/// whose value fits in the type.  The value and the position after it.
pub open spec fn spec_parse_int(s: Seq<char>, i: int) -> Option<(i64, int)>
    recommends
        0 <= i <= s.len(),
{
    let neg = 0 <= i < s.len() && s[i] == '-';
    let d0 = if neg {
        i + 1
    } else {
        i
    };
    let d1 = spec_digit_run_end(s, d0);
    if d1 == d0 {
        None
    } else {
        let v = spec_dec_val(s.subrange(d0, d1));
        if neg {
            if -v >= i64::MIN {
                Some(((-v) as i64, d1))
            } else {
                None
            }
        } else {
            if v <= i64::MAX {
                Some((v as i64, d1))
            } else {
                None
            }
        }
    }
}

/// Parses a JSON integer, mirroring [`spec_parse_int`].
fn parse_int(s: &[char], i: usize) -> (r: Option<(i64, usize)>)
    requires
        i <= s@.len(),
    ensures
        match r {
            Some((v, j)) => spec_parse_int(s@, i as int) == Some((v, j as int)) && i < j
                <= s@.len(),
            None => spec_parse_int(s@, i as int) is None,
        },
{
    let neg = i < s.len() && s[i] == '-';
    let d0: usize = if neg {
        i + 1
    } else {
        i
    };
    if d0 > s.len() {
        proof {
            assert(false);
        }
        return None;
    }
    let d1 = digit_run_end(s, d0);
    if d1 == d0 {
        return None;
    }
    proof {
        lemma_digit_run_end_bounds(s@, d0 as int);
        assert(forall|k: int| 0 <= k < (s@.subrange(d0 as int, d1 as int)).len()
            ==> spec_is_digit(#[trigger] (s@.subrange(d0 as int, d1 as int))[k]));
    }
    let limit: u64 = if neg {
        9_223_372_036_854_775_808u64
    } else {
        i64::MAX as u64
    };
    match crate::text::parse_digits_bounded(s, d0, d1, limit) {
        Some(v) => {
            if neg {
                Some(((-(v as i128)) as i64, d1))
            } else {
                Some((v as i64, d1))
            }
        },
        None => {
            proof {
                lemma_dec_val_nonneg(s@.subrange(d0 as int, d1 as int));
            }
            None
        },
    }
}

/// A scalar value at position `i`: a string, an integer, `true`, `false`
/// or `null`, and the position after it.
pub open spec fn spec_parse_scalar(s: Seq<char>, i: int) -> Option<(ScalarV, int)>
    recommends
        0 <= i <= s.len(),
{
    if i < 0 || i >= s.len() {
        None
    } else if s[i] == '"' {
        match spec_parse_string(s, i) {
            Some((t, j)) => Some((ScalarV::Text(t), j)),
            None => None,
        }
    } else if s[i] == '-' || spec_is_digit(s[i]) {
        match spec_parse_int(s, i) {
            Some((v, j)) => Some((ScalarV::Int(v), j)),
            None => None,
        }
    } else if s[i] == 't' {
        if i + 4 <= s.len() && s[i + 1] == 'r' && s[i + 2] == 'u' && s[i + 3] == 'e' {
            Some((ScalarV::Bool(true), i + 4))
        } else {
            None
        }
    } else if s[i] == 'f' {
        if i + 5 <= s.len() && s[i + 1] == 'a' && s[i + 2] == 'l' && s[i + 3] == 's' && s[i + 4]
            == 'e' {
            Some((ScalarV::Bool(false), i + 5))
        } else {
            None
        }
    } else if s[i] == 'n' {
        if i + 4 <= s.len() && s[i + 1] == 'u' && s[i + 2] == 'l' && s[i + 3] == 'l' {
            Some((ScalarV::Null, i + 4))
        } else {
            None
        }
    } else {
        None
    }
}

/// Parses a scalar value, mirroring [`spec_parse_scalar`].
fn parse_scalar(s: &[char], i: usize) -> (r: Option<(Scalar, usize)>)
    requires
        i <= s@.len(),
    ensures
        match r {
            Some((v, j)) => spec_parse_scalar(s@, i as int) == Some((v@, j as int)) && i < j
                <= s@.len(),
            None => spec_parse_scalar(s@, i as int) is None,
        },
{
    if i >= s.len() {
        return None;
    }
    let c = s[i];
    if c == '"' {
        match parse_string(s, i) {
            Some((t, j)) => Some((Scalar::Text(t), j)),
            None => None,
        }
    } else if c == '-' || (48 <= (c as u32) && (c as u32) <= 57) {
        match parse_int(s, i) {
            Some((v, j)) => Some((Scalar::Int(v), j)),
            None => None,
        }
    } else if c == 't' {
        if s.len() - i >= 4 && s[i + 1] == 'r' && s[i + 2] == 'u' && s[i + 3] == 'e' {
            Some((Scalar::Bool(true), i + 4))
        } else {
            None
        }
    } else if c == 'f' {
        if s.len() - i >= 5 && s[i + 1] == 'a' && s[i + 2] == 'l' && s[i + 3] == 's' && s[i + 4]
            == 'e' {
            Some((Scalar::Bool(false), i + 5))
        } else {
            None
        }
    } else if c == 'n' {
        if s.len() - i >= 4 && s[i + 1] == 'u' && s[i + 2] == 'l' && s[i + 3] == 'l' {
            Some((Scalar::Null, i + 4))
        } else {
            None
        }
    } else {
        None
    }
}

/// The entries of a flat object from position `i` (after the opening
/// brace, with at least one entry expected), and the position after the
/// closing brace.
pub open spec fn spec_parse_flat_entries(s: Seq<char>, i: int) -> Option<
    (Seq<(Seq<char>, ScalarV)>, int),
>
    recommends
        0 <= i <= s.len(),
    decreases s.len() - i,
{
    if i < 0 || i > s.len() {
        None
    } else {
        let k0 = spec_skip_ws(s, i);
        match spec_parse_string(s, k0) {
            Some((key, j)) => {
                let c = spec_skip_ws(s, j);
                if c < s.len() && s[c] == ':' {
                    match spec_parse_scalar(s, spec_skip_ws(s, c + 1)) {
                        Some((v, e)) => {
                            let d = spec_skip_ws(s, e);
                            if d < s.len() && s[d] == ',' {
                                if i < d + 1 <= s.len() {
                                    match spec_parse_flat_entries(s, d + 1) {
                                        Some((rest, f)) => Some((seq![(key, v)] + rest, f)),
                                        None => None,
                                    }
                                } else {
                                    None
                                }
                            } else if d < s.len() && s[d] == '}' {
                                Some((seq![(key, v)], d + 1))
                            } else {
                                None
                            }
                        },
                        None => None,
                    }
                } else {
                    None
                }
            },
            None => None,
        }
    }
}

/// A flat object at position `i`: `{}` or entries of string keys and
/// scalar values.
pub open spec fn spec_parse_flat_object(s: Seq<char>, i: int) -> Option<
    (Seq<(Seq<char>, ScalarV)>, int),
>
    recommends
        0 <= i <= s.len(),
{
    let a = spec_skip_ws(s, i);
    if 0 <= a < s.len() && s[a] == '{' {
        let b = spec_skip_ws(s, a + 1);
        if b < s.len() && s[b] == '}' {
            Some((Seq::empty(), b + 1))
        } else {
            spec_parse_flat_entries(s, a + 1)
        }
    } else {
        None
    }
}

/// Parses flat-object entries, mirroring [`spec_parse_flat_entries`].
fn parse_flat_entries(s: &[char], i: usize) -> (r: Option<(Vec<(Vec<char>, Scalar)>, usize)>)
    requires
        i <= s@.len(),
    ensures
        match r {
            Some((es, j)) => spec_parse_flat_entries(s@, i as int) == Some(
                (entry_scalar_views(es@), j as int),
            ) && i < j <= s@.len(),
            None => spec_parse_flat_entries(s@, i as int) is None,
        },
    decreases s@.len() - i,
{
    let k0 = skip_ws(s, i);
    let (key, j) = match parse_string(s, k0) {
        Some(p) => p,
        None => {
            return None;
        },
    };
    let c = skip_ws(s, j);
    if !(c < s.len() && s[c] == ':') {
        return None;
    }
    let v0 = skip_ws(s, c + 1);
    let (v, e) = match parse_scalar(s, v0) {
        Some(p) => p,
        None => {
            return None;
        },
    };
    let d = skip_ws(s, e);
    if d < s.len() && s[d] == ',' {
        match parse_flat_entries(s, d + 1) {
            Some((rest, f)) => {
                let mut out = rest;
                out.insert(0, (key, v));
                proof {
                    assert(entry_scalar_views(out@) =~= seq![(key@, v@)] + entry_scalar_views(
                        rest@,
                    ));
                }
                Some((out, f))
            },
            None => None,
        }
    } else if d < s.len() && s[d] == '}' {
        let mut out: Vec<(Vec<char>, Scalar)> = Vec::new();
        out.push((key, v));
        proof {
            assert(entry_scalar_views(out@) =~= seq![(key@, v@)]);
        }
        Some((out, d + 1))
    } else {
        None
    }
}

/// Key/value views of parsed flat-object entries.
pub open spec fn entry_scalar_views(e: Seq<(Vec<char>, Scalar)>) -> Seq<(Seq<char>, ScalarV)> {
    e.map_values(|p: (Vec<char>, Scalar)| (p.0@, p.1@))
}

/// Parses a flat object, mirroring [`spec_parse_flat_object`].
pub fn parse_flat_object(s: &[char], i: usize) -> (r: Option<(Vec<(Vec<char>, Scalar)>, usize)>)
    requires
        i <= s@.len(),
    ensures
        match r {
            Some((es, j)) => spec_parse_flat_object(s@, i as int) == Some(
                (entry_scalar_views(es@), j as int),
            ) && i < j <= s@.len(),
            None => spec_parse_flat_object(s@, i as int) is None,
        },
{
    let a = skip_ws(s, i);
    if !(a < s.len() && s[a] == '{') {
        return None;
    }
    let b = skip_ws(s, a + 1);
    if b < s.len() && s[b] == '}' {
        let out: Vec<(Vec<char>, Scalar)> = Vec::new();
        proof {
            assert(entry_scalar_views(out@) =~= Seq::<(Seq<char>, ScalarV)>::empty());
        }
        Some((out, b + 1))
    } else {
        parse_flat_entries(s, a + 1)
    }
}

/// The value of one top-level key: a scalar, or one nested flat object.
#[derive(Debug, Clone)]
pub enum TopVal {
    Sc(Scalar),
    Ob(Vec<(Vec<char>, Scalar)>),
}

/// Mathematical view of [`TopVal`].
pub enum TopValV {
    Sc(ScalarV),
    Ob(Seq<(Seq<char>, ScalarV)>),
}

impl View for TopVal {
    type V = TopValV;

    open spec fn view(&self) -> TopValV {
        match self {
            TopVal::Sc(v) => TopValV::Sc(v@),
            TopVal::Ob(es) => TopValV::Ob(entry_scalar_views(es@)),
        }
    }
}

/// Key/value views of parsed top-level entries.
pub open spec fn entry_top_views(e: Seq<(Vec<char>, TopVal)>) -> Seq<(Seq<char>, TopValV)> {
    e.map_values(|p: (Vec<char>, TopVal)| (p.0@, p.1@))
}

/// The entries of a top-level object from position `i` (after the opening
/// brace, with at least one entry expected).  A value may be a scalar or
/// one nested flat object.
pub open spec fn spec_parse_top_entries(s: Seq<char>, i: int) -> Option<
    (Seq<(Seq<char>, TopValV)>, int),
>
    recommends
        0 <= i <= s.len(),
    decreases s.len() - i,
{
    if i < 0 || i > s.len() {
        None
    } else {
        let k0 = spec_skip_ws(s, i);
        match spec_parse_string(s, k0) {
            Some((key, j)) => {
                let c = spec_skip_ws(s, j);
                if c < s.len() && s[c] == ':' {
                    let v0 = spec_skip_ws(s, c + 1);
                    let parsed: Option<(TopValV, int)> = if v0 < s.len() && s[v0] == '{' {
                        match spec_parse_flat_object(s, v0) {
                            Some((es, e)) => Some((TopValV::Ob(es), e)),
                            None => None,
                        }
                    } else {
                        match spec_parse_scalar(s, v0) {
                            Some((v, e)) => Some((TopValV::Sc(v), e)),
                            None => None,
                        }
                    };
                    match parsed {
                        Some((tv, e)) => {
                            let d = spec_skip_ws(s, e);
                            if d < s.len() && s[d] == ',' {
                                if i < d + 1 <= s.len() {
                                    match spec_parse_top_entries(s, d + 1) {
                                        Some((rest, f)) => Some((seq![(key, tv)] + rest, f)),
                                        None => None,
                                    }
                                } else {
                                    None
                                }
                            } else if d < s.len() && s[d] == '}' {
                                Some((seq![(key, tv)], d + 1))
                            } else {
                                None
                            }
                        },
                        None => None,
                    }
                } else {
                    None
                }
            },
            None => None,
        }
    }
}

/// A top-level object at position `i`.
pub open spec fn spec_parse_top_object(s: Seq<char>, i: int) -> Option<
    (Seq<(Seq<char>, TopValV)>, int),
>
    recommends
        0 <= i <= s.len(),
{
    let a = spec_skip_ws(s, i);
    if 0 <= a < s.len() && s[a] == '{' {
        let b = spec_skip_ws(s, a + 1);
        if b < s.len() && s[b] == '}' {
            Some((Seq::empty(), b + 1))
        } else {
            spec_parse_top_entries(s, a + 1)
        }
    } else {
        None
    }
}

/// Parses top-level entries, mirroring [`spec_parse_top_entries`].
fn parse_top_entries(s: &[char], i: usize) -> (r: Option<(Vec<(Vec<char>, TopVal)>, usize)>)
    requires
        i <= s@.len(),
    ensures
        match r {
            Some((es, j)) => spec_parse_top_entries(s@, i as int) == Some(
                (entry_top_views(es@), j as int),
            ) && i < j <= s@.len(),
            None => spec_parse_top_entries(s@, i as int) is None,
        },
    decreases s@.len() - i,
{
    let k0 = skip_ws(s, i);
    let (key, j) = match parse_string(s, k0) {
        Some(p) => p,
        None => {
            return None;
        },
    };
    let c = skip_ws(s, j);
    if !(c < s.len() && s[c] == ':') {
        return None;
    }
    let v0 = skip_ws(s, c + 1);
    let parsed: Option<(TopVal, usize)> = if v0 < s.len() && s[v0] == '{' {
        match parse_flat_object(s, v0) {
            Some((es, e)) => Some((TopVal::Ob(es), e)),
            None => None,
        }
    } else {
        match parse_scalar(s, v0) {
            Some((v, e)) => Some((TopVal::Sc(v), e)),
            None => None,
        }
    };
    let (tv, e) = match parsed {
        Some(p) => p,
        None => {
            return None;
        },
    };
    let d = skip_ws(s, e);
    if d < s.len() && s[d] == ',' {
        match parse_top_entries(s, d + 1) {
            Some((rest, f)) => {
                let mut out = rest;
                let ghost tvv = tv@;
                out.insert(0, (key, tv));
                proof {
                    assert(entry_top_views(out@) =~= seq![(key@, tvv)] + entry_top_views(rest@));
                }
                Some((out, f))
            },
            None => None,
        }
    } else if d < s.len() && s[d] == '}' {
        let mut out: Vec<(Vec<char>, TopVal)> = Vec::new();
        let ghost tvv = tv@;
        out.push((key, tv));
        proof {
            assert(entry_top_views(out@) =~= seq![(key@, tvv)]);
        }
        Some((out, d + 1))
    } else {
        None
    }
}

/// Parses a top-level object, mirroring [`spec_parse_top_object`].
pub fn parse_top_object(s: &[char], i: usize) -> (r: Option<(Vec<(Vec<char>, TopVal)>, usize)>)
    requires
        i <= s@.len(),
    ensures
        match r {
            Some((es, j)) => spec_parse_top_object(s@, i as int) == Some(
                (entry_top_views(es@), j as int),
            ) && i < j <= s@.len(),
            None => spec_parse_top_object(s@, i as int) is None,
        },
{
    let a = skip_ws(s, i);
    if !(a < s.len() && s[a] == '{') {
        return None;
    }
    let b = skip_ws(s, a + 1);
    if b < s.len() && s[b] == '}' {
        let out: Vec<(Vec<char>, TopVal)> = Vec::new();
        proof {
            assert(entry_top_views(out@) =~= Seq::<(Seq<char>, TopValV)>::empty());
        }
        Some((out, b + 1))
    } else {
        parse_top_entries(s, a + 1)
    }
}

/// Lowercase hexadecimal digit character for a value below sixteen.
pub open spec fn spec_hex_char(d: int) -> char
    recommends
        0 <= d < 16,
{
    if d < 10 {
        ((48 + d) as u8) as char
    } else {
        ((87 + d) as u8) as char
    }
}

/// The serialized form of one character inside a JSON string: quotes and
/// backslashes are escaped, control characters get their short escape or a
/// `\u00..` form, and everything else stands as itself.
pub open spec fn spec_escape_char(c: char) -> Seq<char> {
    if c == '"' {
        seq!['\\', '"']
    } else if c == '\\' {
        seq!['\\', '\\']
    } else if c == '\u{8}' {
        seq!['\\', 'b']
    } else if c == '\t' {
        seq!['\\', 't']
    } else if c == '\n' {
        seq!['\\', 'n']
    } else if c == '\u{c}' {
        seq!['\\', 'f']
    } else if c == '\r' {
        seq!['\\', 'r']
    } else if (c as u32) < 0x20 {
        seq![
            '\\',
            'u',
            '0',
            '0',
            spec_hex_char((c as u32) as int / 16),
            spec_hex_char((c as u32) as int % 16),
        ]
    } else {
        seq![c]
    }
}

/// A string serialized into a JSON string body.
pub open spec fn spec_escape(s: Seq<char>) -> Seq<char>
    decreases s.len(),
{
    if s.len() == 0 {
        Seq::empty()
    } else {
        spec_escape(s.drop_last()) + spec_escape_char(s.last())
    }
}

/// Escapes a string for inclusion in a JSON string, appending to `out`.
pub fn append_escaped(out: &mut Vec<char>, s: &[char])
    ensures
        final(out)@ == old(out)@ + spec_escape(s@),
{
    let mut i: usize = 0;
    while i < s.len()
        invariant
            i <= s@.len(),
            out@ == old(out)@ + spec_escape(s@.subrange(0, i as int)),
        decreases s@.len() - i,
    {
        let c = s[i];
        let ghost pre = s@.subrange(0, i + 1);
        proof {
            assert(pre.drop_last() =~= s@.subrange(0, i as int));
            assert(pre.last() == s@[i as int]);
        }
        if c == '"' {
            out.push('\\');
            out.push('"');
        } else if c == '\\' {
            out.push('\\');
            out.push('\\');
        } else if c == '\u{8}' {
            out.push('\\');
            out.push('b');
        } else if c == '\t' {
            out.push('\\');
            out.push('t');
        } else if c == '\n' {
            out.push('\\');
            out.push('n');
        } else if c == '\u{c}' {
            out.push('\\');
            out.push('f');
        } else if c == '\r' {
            out.push('\\');
            out.push('r');
        } else if (c as u32) < 0x20 {
            out.push('\\');
            out.push('u');
            out.push('0');
            out.push('0');
            let hi = ((c as u32) / 16) as u8;
            let lo = ((c as u32) % 16) as u8;
            out.push(if hi < 10 {
                (48 + hi) as char
            } else {
                (87 + hi) as char
            });
            out.push(if lo < 10 {
                (48 + lo) as char
            } else {
                (87 + lo) as char
            });
        } else {
            out.push(c);
        }
        proof {
            assert(out@ =~= old(out)@ + spec_escape(pre));
        }
        i += 1;
    }
    proof {
        assert(s@.subrange(0, s@.len() as int) =~= s@);
    }
}

/// Fractional suffix of a fixed-point value in thousandths, trailing
/// zeros dropped.
pub open spec fn spec_milli_frac(f: int) -> Seq<char>
    recommends
        0 <= f < 1000,
{
    if f == 0 {
        Seq::empty()
    } else if f % 100 == 0 {
        seq!['.', crate::text::spec_digit_char((f / 100) as nat)]
    } else if f % 10 == 0 {
        seq![
            '.',
            crate::text::spec_digit_char((f / 100) as nat),
            crate::text::spec_digit_char(((f / 10) % 10) as nat),
        ]
    } else {
        seq![
            '.',
            crate::text::spec_digit_char((f / 100) as nat),
            crate::text::spec_digit_char(((f / 10) % 10) as nat),
            crate::text::spec_digit_char((f % 10) as nat),
        ]
    }
}

/// Decimal rendering of a fixed-point value in thousandths: sign, integer
/// part, and the fractional digits that are not trailing zeros.
pub open spec fn spec_milli_dec(m: int) -> Seq<char>
    recommends
        -0x8000_0000_0000_0000 <= m < 0x8000_0000_0000_0000,
{
    let mag = if m < 0 {
        -m
    } else {
        m
    };
    let sign: Seq<char> = if m < 0 {
        seq!['-']
    } else {
        Seq::empty()
    };
    sign + crate::text::spec_u64_dec((mag / 1000) as nat) + spec_milli_frac(mag % 1000)
}

/// Formats a fixed-point value in thousandths as a decimal number.
pub fn milli_to_dec(m: i64) -> (r: Vec<char>)
    ensures
        r@ == spec_milli_dec(m as int),
{
    let neg = m < 0;
    let mag: u64 = if neg {
        (-(m as i128)) as u64
    } else {
        m as u64
    };
    let mut r: Vec<char> = Vec::new();
    if neg {
        r.push('-');
    }
    let digits = crate::text::u64_to_dec(mag / 1000);
    crate::text::append_chars(&mut r, digits.as_slice());
    let f: u64 = mag % 1000;
    if f != 0 {
        r.push('.');
        let d0 = ((f / 100) % 10) as u8;
        let d1 = ((f / 10) % 10) as u8;
        let d2 = (f % 10) as u8;
        proof {
            assert((f as int / 100) % 10 == f as int / 100);
        }
        r.push((48 + d0) as char);
        if f % 100 != 0 {
            r.push((48 + d1) as char);
            if f % 10 != 0 {
                r.push((48 + d2) as char);
            }
        } else {
            proof {
                assert(f as int % 100 == 0 ==> f as int % 10 == 0);
            }
        }
    }
    proof {
        let mi = m as int;
        let magi = if mi < 0 {
            -mi
        } else {
            mi
        };
        assert(mag == magi);
        assert(r@ =~= spec_milli_dec(mi));
    }
    r
}

/// Formats an unsigned fixed-point value in thousandths.
pub fn milli_u32_to_dec(m: u32) -> (r: Vec<char>)
    ensures
        r@ == spec_milli_dec(m as int),
{
    milli_to_dec(m as i64)
}

/// Every character of a fixed-point rendering is a digit, the minus sign
/// or the dot.
pub proof fn lemma_milli_dec_chars(m: int)
    requires
        -0x8000_0000_0000_0000 <= m < 0x8000_0000_0000_0000,
    ensures
        spec_milli_dec(m).len() >= 1,
        forall|i: int|
            0 <= i < spec_milli_dec(m).len() ==> (crate::text::spec_is_digit(
                #[trigger] spec_milli_dec(m)[i],
            ) || spec_milli_dec(m)[i] == '-' || spec_milli_dec(m)[i] == '.'),
{
    let d = spec_milli_dec(m);
    let mag = if m < 0 {
        -m
    } else {
        m
    };
    let sign: Seq<char> = if m < 0 {
        seq!['-']
    } else {
        Seq::empty()
    };
    let ip = crate::text::spec_u64_dec((mag / 1000) as nat);
    let fr = spec_milli_frac(mag % 1000);
    assert(d == sign + ip + fr);
    crate::text::lemma_u64_dec_wf((mag / 1000) as nat);
    assert forall|i: int| 0 <= i < fr.len() implies (crate::text::spec_is_digit(fr[i]) || fr[i]
        == '.') by {
        if i > 0 {
            lemma_frac_digit_chars(mag % 1000);
        }
    }
    assert forall|i: int| 0 <= i < d.len() implies (crate::text::spec_is_digit(d[i]) || d[i]
        == '-' || d[i] == '.') by {
        if i < sign.len() {
            assert(d[i] == sign[i]);
        } else if i < sign.len() + ip.len() {
            assert(d[i] == ip[i - sign.len()]);
            assert(crate::text::spec_is_digit(ip[i - sign.len()]));
        } else {
            assert(d[i] == fr[i - sign.len() - ip.len()]);
        }
    }
}

proof fn lemma_frac_digit_chars(f: int)
    requires
        0 <= f < 1000,
    ensures
        forall|i: int|
            1 <= i < spec_milli_frac(f).len() ==> crate::text::spec_is_digit(
                #[trigger] spec_milli_frac(f)[i],
            ),
{
    assert forall|i: int| 1 <= i < spec_milli_frac(f).len() implies crate::text::spec_is_digit(
        spec_milli_frac(f)[i],
    ) by {
        lemma_digit_char_is_digit((f / 100) as nat);
        lemma_digit_char_is_digit(((f / 10) % 10) as nat);
        lemma_digit_char_is_digit((f % 10) as nat);
    }
}

proof fn lemma_digit_char_is_digit(x: nat)
    requires
        x < 10,
    ensures
        crate::text::spec_is_digit(crate::text::spec_digit_char(x)),
        crate::text::spec_digit_val(crate::text::spec_digit_char(x)) == x,
{
    assert((((48 + x) as u8) as char) as u32 == 48 + x);
}

/// Parsing the fixed-point rendering of a value gives it back, for every
/// value whose rendering the parser's integer-part bound admits.
pub proof fn lemma_parse_fixed_milli_round_trip(m: i64)
    requires
        -9_223_372_036_854_774_999 <= m <= 9_223_372_036_854_774_999,
    ensures
        crate::text::spec_parse_fixed_milli(spec_milli_dec(m as int)) == Some(m),
{
    let mi = m as int;
    let mag = if mi < 0 {
        -mi
    } else {
        mi
    };
    let ipn = (mag / 1000) as nat;
    let f = mag % 1000;
    let d = crate::text::spec_u64_dec(ipn);
    let fr = spec_milli_frac(f);
    let s = spec_milli_dec(mi);
    crate::text::lemma_u64_dec_wf(ipn);
    let t = d + fr;
    if mi < 0 {
        assert(s == seq!['-'] + d + fr);
        assert(s[0] == '-');
        assert(s.skip(1) =~= t);
    } else {
        assert(s == Seq::<char>::empty() + d + fr);
        assert(s =~= t);
        assert(s[0] == d[0]);
        assert(crate::text::spec_is_digit(s[0]));
        assert(s[0] != '-' && s[0] != '+') by {
            assert(('-' as u32) == 45 && ('+' as u32) == 43);
        }
        assert(crate::text::spec_strip_plus(s) == s);
    }
    assert(('.' as u32) == 46);
    assert forall|j: int| 0 <= j < d.len() implies t[j] != '.' by {
        assert(t[j] == d[j]);
        assert(crate::text::spec_is_digit(d[j]));
    }
    // The fractional digits, when any, follow the dot.
    if f == 0 {
        assert(fr =~= Seq::<char>::empty());
        assert(t =~= d);
        crate::text::lemma_find_char_absent(t, '.');
        assert(crate::text::spec_dec_val(d) == ipn && ipn <= crate::text::spec_milli_int_limit());
        assert(mag == ipn * 1000);
    } else {
        assert(fr[0] == '.');
        assert(t[d.len() as int] == '.');
        crate::text::lemma_find_char_unique(t, '.', d.len() as int);
        let fp = t.skip(d.len() as int + 1);
        assert(t.take(d.len() as int) =~= d);
        lemma_frac_digit_chars(f);
        assert forall|j: int| 0 <= j < fp.len() implies crate::text::spec_is_digit(
            #[trigger] fp[j],
        ) by {
            assert(fp[j] == fr[j + 1]);
        }
        assert(crate::text::spec_dec_val(d) == ipn && ipn <= crate::text::spec_milli_int_limit());
        // The fractional value reads back exactly.
        vstd::arithmetic::div_mod::lemma_div_denominator(f, 10, 10);
        lemma_digit_char_is_digit((f / 100) as nat);
        lemma_digit_char_is_digit(((f / 10) % 10) as nat);
        lemma_digit_char_is_digit((f % 10) as nat);
        if f % 100 == 0 {
            assert(fp =~= seq![crate::text::spec_digit_char((f / 100) as nat)]);
            crate::text::lemma_dec_val_up_to_three(fp);
            assert(crate::text::spec_frac_milli(fp) == (f / 100) * 100);
            assert(f == (f / 100) * 100 + f % 100) by {
                vstd::arithmetic::div_mod::lemma_fundamental_div_mod(f, 100);
            }
        } else if f % 10 == 0 {
            assert(fp =~= seq![
                crate::text::spec_digit_char((f / 100) as nat),
                crate::text::spec_digit_char(((f / 10) % 10) as nat),
            ]);
            crate::text::lemma_dec_val_up_to_three(fp);
            assert(f / 10 == (f / 100) * 10 + (f / 10) % 10) by {
                vstd::arithmetic::div_mod::lemma_fundamental_div_mod(f / 10, 10);
            }
            assert(f == (f / 10) * 10 + f % 10) by {
                vstd::arithmetic::div_mod::lemma_fundamental_div_mod(f, 10);
            }
            assert(crate::text::spec_frac_milli(fp) == (f / 10) * 10);
        } else {
            assert(fp =~= seq![
                crate::text::spec_digit_char((f / 100) as nat),
                crate::text::spec_digit_char(((f / 10) % 10) as nat),
                crate::text::spec_digit_char((f % 10) as nat),
            ]);
            assert(fp.take(3) =~= fp);
            crate::text::lemma_dec_val_up_to_three(fp);
            assert(f / 10 == (f / 100) * 10 + (f / 10) % 10) by {
                vstd::arithmetic::div_mod::lemma_fundamental_div_mod(f / 10, 10);
            }
            assert(f == (f / 10) * 10 + f % 10) by {
                vstd::arithmetic::div_mod::lemma_fundamental_div_mod(f, 10);
            }
        }
        assert(crate::text::spec_frac_milli(fp) == f);
    }
    assert(mag == ipn * 1000 + f) by {
        vstd::arithmetic::div_mod::lemma_fundamental_div_mod(mag, 1000);
    }
}

/// The map described by object entries, later entries overriding earlier
/// ones.
pub open spec fn scalar_obj_map(e: Seq<(Seq<char>, ScalarV)>) -> Map<Seq<char>, ScalarV>
    decreases e.len(),
{
    if e.len() == 0 {
        Map::empty()
    } else {
        scalar_obj_map(e.drop_last()).insert(e.last().0, e.last().1)
    }
}

/// The map described by top-level entries, later entries overriding
/// earlier ones.
pub open spec fn top_obj_map(e: Seq<(Seq<char>, TopValV)>) -> Map<Seq<char>, TopValV>
    decreases e.len(),
{
    if e.len() == 0 {
        Map::empty()
    } else {
        top_obj_map(e.drop_last()).insert(e.last().0, e.last().1)
    }
}

/// The entry deciding `key` in a scalar object.
pub fn scalar_obj_get<'a>(es: &'a Vec<(Vec<char>, Scalar)>, key: &str) -> (r: Option<&'a Scalar>)
    ensures
        match r {
            Some(v) => scalar_obj_map(entry_scalar_views(es@)).contains_key(key@)
                && scalar_obj_map(entry_scalar_views(es@))[key@] == v@,
            None => !scalar_obj_map(entry_scalar_views(es@)).contains_key(key@),
        },
{
    let ghost e = entry_scalar_views(es@);
    let mut j: usize = es.len();
    proof {
        assert(e.take(j as int) =~= e);
    }
    while j > 0
        invariant
            j <= es@.len(),
            e == entry_scalar_views(es@),
            scalar_obj_map(e).contains_key(key@) == scalar_obj_map(e.take(j as int)).contains_key(
                key@,
            ),
            scalar_obj_map(e).contains_key(key@) ==> scalar_obj_map(e)[key@] == scalar_obj_map(
                e.take(j as int),
            )[key@],
        decreases j,
    {
        j -= 1;
        let ghost pre = e.take(j + 1);
        proof {
            assert(pre.drop_last() =~= e.take(j as int));
            assert(pre.last() == e[j as int]);
        }
        if crate::text::chars_eq_str(&es[j].0, key) {
            return Some(&es[j].1);
        }
    }
    proof {
        assert(e.take(0) =~= Seq::<(Seq<char>, ScalarV)>::empty());
    }
    None
}

/// The entry deciding `key` in a top-level object.
pub fn top_obj_get<'a>(es: &'a Vec<(Vec<char>, TopVal)>, key: &str) -> (r: Option<&'a TopVal>)
    ensures
        match r {
            Some(v) => top_obj_map(entry_top_views(es@)).contains_key(key@) && top_obj_map(
                entry_top_views(es@),
            )[key@] == v@,
            None => !top_obj_map(entry_top_views(es@)).contains_key(key@),
        },
{
    let ghost e = entry_top_views(es@);
    let mut j: usize = es.len();
    proof {
        assert(e.take(j as int) =~= e);
    }
    while j > 0
        invariant
            j <= es@.len(),
            e == entry_top_views(es@),
            top_obj_map(e).contains_key(key@) == top_obj_map(e.take(j as int)).contains_key(key@),
            top_obj_map(e).contains_key(key@) ==> top_obj_map(e)[key@] == top_obj_map(
                e.take(j as int),
            )[key@],
        decreases j,
    {
        j -= 1;
        let ghost pre = e.take(j + 1);
        proof {
            assert(pre.drop_last() =~= e.take(j as int));
            assert(pre.last() == e[j as int]);
        }
        if crate::text::chars_eq_str(&es[j].0, key) {
            return Some(&es[j].1);
        }
    }
    proof {
        assert(e.take(0) =~= Seq::<(Seq<char>, TopValV)>::empty());
    }
    None
}

/// An unsigned integer field of an object: present, integer and
/// non-negative.
pub open spec fn spec_obj_u64(m: Map<Seq<char>, ScalarV>, key: Seq<char>) -> Option<u64> {
    if m.contains_key(key) {
        match m[key] {
            ScalarV::Int(v) => if v >= 0 {
                Some(v as u64)
            } else {
                None
            },
            _ => None,
        }
    } else {
        None
    }
}

/// Reads an unsigned integer field of a parsed object.
pub fn obj_u64(es: &Vec<(Vec<char>, Scalar)>, key: &str) -> (r: Option<u64>)
    ensures
        r == spec_obj_u64(scalar_obj_map(entry_scalar_views(es@)), key@),
{
    match scalar_obj_get(es, key) {
        Some(v) => match v {
            Scalar::Int(n) => {
                if *n >= 0 {
                    Some(*n as u64)
                } else {
                    None
                }
            },
            _ => None,
        },
        None => None,
    }
}

} // verus!
