//! Character-sequence helpers shared by the parsing and formatting code:
//! conversions between `&str` and `Vec<char>`, equality tests, and decimal
//! number parsing and formatting.

use vstd::prelude::*;
use vstd::string::StrSliceExecFns;

verus! {

/// Copies the characters of a string slice into a vector.
pub fn chars_of(s: &str) -> (r: Vec<char>)
    ensures
        r@ == s@,
{
    let n = s.unicode_len();
    let mut r: Vec<char> = Vec::new();
    let mut i: usize = 0;
    while i < n
        invariant
            n == s@.len(),
            i <= n,
            r@ == s@.subrange(0, i as int),
        decreases n - i,
    {
        r.push(s.get_char(i));
        proof {
            assert(r@ =~= s@.subrange(0, i + 1));
        }
        i += 1;
    }
    proof {
        assert(r@ =~= s@);
    }
    r
}

/// True when the vector holds exactly the characters of the string slice.
pub fn chars_eq_str(a: &Vec<char>, s: &str) -> (r: bool)
    ensures
        r == (a@ == s@),
{
    let n = s.unicode_len();
    if a.len() != n {
        return false;
    }
    let mut i: usize = 0;
    while i < n
        invariant
            n == s@.len(),
            a@.len() == n,
            i <= n,
            forall|j: int| 0 <= j < i ==> a@[j] == s@[j],
        decreases n - i,
    {
        if a[i] != s.get_char(i) {
            return false;
        }
        i += 1;
    }
    proof {
        assert(a@ =~= s@);
    }
    true
}

/// True when the two vectors hold the same characters.
pub fn chars_eq(a: &Vec<char>, b: &Vec<char>) -> (r: bool)
    ensures
        r == (a@ == b@),
{
    if a.len() != b.len() {
        return false;
    }
    let mut i: usize = 0;
    while i < a.len()
        invariant
            a@.len() == b@.len(),
            i <= a@.len(),
            forall|j: int| 0 <= j < i ==> a@[j] == b@[j],
        decreases a@.len() - i,
    {
        if a[i] != b[i] {
            return false;
        }
        i += 1;
    }
    proof {
        assert(a@ =~= b@);
    }
    true
}

/// Appends the characters of a string slice.
pub fn append_str(v: &mut Vec<char>, s: &str)
    ensures
        final(v)@ == old(v)@ + s@,
{
    let n = s.unicode_len();
    let mut i: usize = 0;
    while i < n
        invariant
            n == s@.len(),
            i <= n,
            v@ == old(v)@ + s@.subrange(0, i as int),
        decreases n - i,
    {
        v.push(s.get_char(i));
        proof {
            assert(v@ =~= old(v)@ + s@.subrange(0, i + 1));
        }
        i += 1;
    }
    proof {
        assert(old(v)@ + s@.subrange(0, n as int) =~= old(v)@ + s@);
    }
}

/// Appends the characters of a slice.
pub fn append_chars(v: &mut Vec<char>, s: &[char])
    ensures
        final(v)@ == old(v)@ + s@,
{
    let mut i: usize = 0;
    while i < s.len()
        invariant
            i <= s@.len(),
            v@ == old(v)@ + s@.subrange(0, i as int),
        decreases s@.len() - i,
    {
        v.push(s[i]);
        proof {
            assert(v@ =~= old(v)@ + s@.subrange(0, i + 1));
        }
        i += 1;
    }
    proof {
        assert(old(v)@ + s@.subrange(0, s@.len() as int) =~= old(v)@ + s@);
    }
}

/// The decimal digit character for a value below ten.
pub open spec fn spec_digit_char(d: nat) -> char
    recommends
        d < 10,
{
    ((48 + d) as u8) as char
}

/// Decimal digit sequence of a natural number, most significant first.
pub open spec fn spec_u64_dec(n: nat) -> Seq<char>
    decreases n,
{
    if n < 10 {
        seq![spec_digit_char(n)]
    } else {
        spec_u64_dec(n / 10) + seq![spec_digit_char(n % 10)]
    }
}

/// Decimal rendering of a signed value: a minus sign for negative values,
/// then the digits of the magnitude.
pub open spec fn spec_i64_dec(n: int) -> Seq<char>
    recommends
        -0x8000_0000_0000_0000 <= n < 0x8000_0000_0000_0000,
{
    if n < 0 {
        seq!['-'] + spec_u64_dec((-n) as nat)
    } else {
        spec_u64_dec(n as nat)
    }
}

/// Formats an unsigned value in decimal.
pub fn u64_to_dec(n: u64) -> (r: Vec<char>)
    ensures
        r@ == spec_u64_dec(n as nat),
{
    let mut rev: Vec<char> = Vec::new();
    let mut m: u64 = n;
    if m == 0 {
        let mut r: Vec<char> = Vec::new();
        r.push('0');
        proof {
            assert(spec_digit_char(0) == '0');
            assert(r@ =~= spec_u64_dec(0));
        }
        return r;
    }
    while m > 0
        invariant
            0 <= m <= n,
            m > 0 ==> spec_u64_dec(n as nat) == spec_u64_dec(m as nat) + rev@.reverse(),
            m == 0 ==> n > 0 && spec_u64_dec(n as nat) == rev@.reverse(),
        decreases m,
    {
        let d = m % 10;
        let c = digit_char(d as u8);
        proof {
            let prev = rev@;
            assert(prev.push(c).reverse() =~= seq![c] + prev.reverse());
            if m >= 10 {
                assert(spec_u64_dec((m / 10) as nat) + (seq![c] + prev.reverse())
                    =~= (spec_u64_dec((m / 10) as nat) + seq![spec_digit_char((m % 10) as nat)])
                    + prev.reverse());
                assert(spec_u64_dec(m as nat) == spec_u64_dec((m / 10) as nat)
                    + seq![spec_digit_char((m % 10) as nat)]);
            } else {
                assert(spec_u64_dec(m as nat) == seq![spec_digit_char(m as nat)]);
                assert(seq![c] + prev.reverse() =~= spec_u64_dec(m as nat) + prev.reverse());
            }
        }
        rev.push(c);
        m = m / 10;
    }
    let mut r: Vec<char> = Vec::new();
    let mut i: usize = rev.len();
    while i > 0
        invariant
            i <= rev@.len(),
            r@ == rev@.reverse().subrange(0, rev@.len() - i),
        decreases i,
    {
        i -= 1;
        r.push(rev[i]);
        proof {
            assert(rev@.reverse()[rev@.len() - i - 1] == rev@[i as int]);
            assert(r@ =~= rev@.reverse().subrange(0, rev@.len() - i));
        }
    }
    proof {
        assert(r@ =~= rev@.reverse());
    }
    r
}

/// Formats a signed value in decimal.
pub fn i64_to_dec(n: i64) -> (r: Vec<char>)
    ensures
        r@ == spec_i64_dec(n as int),
{
    if n >= 0 {
        u64_to_dec(n as u64)
    } else {
        // Magnitude of the most negative value still fits in u64.
        let wide: i128 = -(n as i128);
        assert(0 < wide <= u64::MAX);
        let mag: u64 = wide as u64;
        assert(mag as nat == (-(n as int)) as nat);
        let digits = u64_to_dec(mag);
        let mut r: Vec<char> = Vec::new();
        r.push('-');
        let mut i: usize = 0;
        while i < digits.len()
            invariant
                i <= digits@.len(),
                r@ == seq!['-'] + digits@.subrange(0, i as int),
            decreases digits@.len() - i,
        {
            r.push(digits[i]);
            proof {
                assert(r@ =~= seq!['-'] + digits@.subrange(0, i + 1));
            }
            i += 1;
        }
        proof {
            assert(digits@.subrange(0, digits@.len() as int) =~= digits@);
            assert(r@ =~= seq!['-'] + digits@);
        }
        r
    }
}

fn digit_char(d: u8) -> (c: char)
    requires
        d < 10,
    ensures
        c == spec_digit_char(d as nat),
{
    (48 + d) as char
}

/// True for the ten ASCII decimal digit characters.
pub open spec fn spec_is_digit(c: char) -> bool {
    48 <= (c as u32) <= 57
}

/// Numeric value of a digit character.
pub open spec fn spec_digit_val(c: char) -> int {
    (c as u32) - 48
}

/// True when every character of the sequence is a decimal digit.
pub open spec fn spec_all_digits(s: Seq<char>) -> bool {
    forall|i: int| 0 <= i < s.len() ==> spec_is_digit(#[trigger] s[i])
}

/// Value of a digit sequence read as a decimal number.
pub open spec fn spec_dec_val(s: Seq<char>) -> int
    decreases s.len(),
{
    if s.len() == 0 {
        0
    } else {
        spec_dec_val(s.drop_last()) * 10 + spec_digit_val(s.last())
    }
}

pub proof fn lemma_dec_val_snoc(s: Seq<char>, i: int)
    requires
        0 <= i < s.len(),
    ensures
        spec_dec_val(s.subrange(0, i + 1)) == spec_dec_val(s.subrange(0, i)) * 10
            + spec_digit_val(s[i]),
{
    let p = s.subrange(0, i + 1);
    assert(p.drop_last() =~= s.subrange(0, i));
    assert(p.last() == s[i]);
}

pub proof fn lemma_dec_val_nonneg(s: Seq<char>)
    requires
        spec_all_digits(s),
    ensures
        spec_dec_val(s) >= 0,
    decreases s.len(),
{
    if s.len() > 0 {
        assert(spec_all_digits(s.drop_last()));
        lemma_dec_val_nonneg(s.drop_last());
    }
}

/// Extending a digit sequence never decreases its value.
pub proof fn lemma_dec_val_prefix_le(s: Seq<char>, i: int, j: int)
    requires
        spec_all_digits(s),
        0 <= i <= j <= s.len(),
    ensures
        spec_dec_val(s.subrange(0, i)) <= spec_dec_val(s.subrange(0, j)),
    decreases j - i,
{
    if i < j {
        lemma_dec_val_prefix_le(s, i, j - 1);
        lemma_dec_val_snoc(s, j - 1);
        assert(spec_all_digits(s.subrange(0, j - 1)));
        lemma_dec_val_nonneg(s.subrange(0, j - 1));
        let v = spec_dec_val(s.subrange(0, j - 1));
        assert(v * 10 >= v) by (nonlinear_arith)
            requires
                v >= 0,
        ;
    }
}

/// Digits after an optional leading plus sign, as `str::parse` accepts them.
pub open spec fn spec_strip_plus(s: Seq<char>) -> Seq<char> {
    if s.len() > 0 && s[0] == '+' {
        s.skip(1)
    } else {
        s
    }
}

/// Mirrors `str::parse::<u64>`: an optional `+`, then at least one digit,
/// and a value that fits in the type.
pub open spec fn spec_parse_u64(s: Seq<char>) -> Option<u64> {
    let t = spec_strip_plus(s);
    if t.len() > 0 && spec_all_digits(t) && spec_dec_val(t) <= u64::MAX {
        Some(spec_dec_val(t) as u64)
    } else {
        None
    }
}

/// Mirrors `str::parse::<i64>`: an optional sign, then at least one digit,
/// and a value that fits in the type.
pub open spec fn spec_parse_i64(s: Seq<char>) -> Option<i64> {
    if s.len() > 0 && s[0] == '-' {
        let t = s.skip(1);
        if t.len() > 0 && spec_all_digits(t) && -spec_dec_val(t) >= i64::MIN {
            Some((-spec_dec_val(t)) as i64)
        } else {
            None
        }
    } else {
        let t = spec_strip_plus(s);
        if t.len() > 0 && spec_all_digits(t) && spec_dec_val(t) <= i64::MAX {
            Some(spec_dec_val(t) as i64)
        } else {
            None
        }
    }
}

/// Reads a run of digits bounded by `limit`; `None` when the slice is empty,
/// holds a non-digit, or its value exceeds the bound.
pub fn parse_digits_bounded(s: &[char], start: usize, end: usize, limit: u64) -> (r: Option<u64>)
    requires
        start <= end <= s@.len(),
    ensures
        ({
            let t = s@.subrange(start as int, end as int);
            match r {
                Some(v) => t.len() > 0 && spec_all_digits(t) && spec_dec_val(t) == v
                    && v <= limit,
                None => t.len() == 0 || !spec_all_digits(t) || spec_dec_val(t) > limit,
            }
        }),
{
    let ghost t = s@.subrange(start as int, end as int);
    if start == end {
        return None;
    }
    let mut acc: u64 = 0;
    let mut i: usize = start;
    while i < end
        invariant
            start <= i <= end <= s@.len(),
            t == s@.subrange(start as int, end as int),
            spec_all_digits(t.subrange(0, i - start)),
            acc == spec_dec_val(t.subrange(0, i - start)),
            acc <= limit,
        decreases end - i,
    {
        let c = s[i];
        let cu = c as u32;
        if cu < 48 || cu > 57 {
            assert(t[i - start] == s@[i as int]);
            assert(!spec_is_digit(t[i - start]));
            return None;
        }
        let d: u64 = (cu - 48) as u64;
        proof {
            lemma_dec_val_snoc(t, i - start);
            assert(t[i - start] == s@[i as int]);
        }
        // Overflow of the bound: the value of the full run can only grow.
        if acc > limit / 10 || (acc == limit / 10 && d > limit % 10) {
            proof {
                let v_next = spec_dec_val(t.subrange(0, i - start + 1));
                assert(v_next == acc * 10 + d);
                assert(acc * 10 + d > limit) by (nonlinear_arith)
                    requires
                        acc > limit / 10 || (acc == limit / 10 && d > limit % 10),
                        limit == (limit / 10) * 10 + limit % 10,
                        0 <= limit % 10 < 10,
                        acc >= 0,
                        d >= 0,
                ;
                if spec_all_digits(t) {
                    lemma_dec_val_prefix_le(t, i - start + 1, t.len() as int);
                    assert(t.subrange(0, t.len() as int) =~= t);
                    assert(spec_dec_val(t) > limit);
                }
            }
            return None;
        }
        proof {
            assert(acc * 10 + d <= limit) by (nonlinear_arith)
                requires
                    acc <= limit / 10,
                    !(acc == limit / 10 && d > limit % 10),
                    limit == (limit / 10) * 10 + limit % 10,
                    0 <= limit % 10 < 10,
                    0 <= d <= 9,
                    acc >= 0,
            ;
        }
        acc = acc * 10 + d;
        proof {
            assert(t.subrange(0, i - start + 1).drop_last() =~= t.subrange(0, i - start));
        }
        i += 1;
    }
    proof {
        assert(t.subrange(0, (end - start) as int) =~= t);
    }
    Some(acc)
}

/// Parses as `str::parse::<u64>` does.
pub fn parse_u64_chars(s: &[char]) -> (r: Option<u64>)
    ensures
        r == spec_parse_u64(s@),
{
    let start: usize = if s.len() > 0 && s[0] == '+' {
        1
    } else {
        0
    };
    let ghost t = spec_strip_plus(s@);
    proof {
        assert(t =~= s@.subrange(start as int, s@.len() as int));
    }
    let r = parse_digits_bounded(s, start, s.len(), u64::MAX);
    proof {
        if spec_all_digits(t) && t.len() > 0 {
            lemma_dec_val_nonneg(t);
        }
    }
    r
}

/// The decimal digits of a value form a well-formed numeral: all digit
/// characters, non-empty, reading back to the value.
pub proof fn lemma_u64_dec_wf(n: nat)
    ensures
        spec_u64_dec(n).len() >= 1,
        spec_all_digits(spec_u64_dec(n)),
        spec_dec_val(spec_u64_dec(n)) == n,
    decreases n,
{
    let d = spec_u64_dec(n);
    if n < 10 {
        assert(d =~= seq![spec_digit_char(n)]);
        assert(d.drop_last() =~= Seq::<char>::empty());
        assert(spec_is_digit(spec_digit_char(n))) by {
            assert((((48 + n) as u8) as char) as u32 == 48 + n);
        }
        assert(spec_digit_val(spec_digit_char(n)) == n) by {
            assert((((48 + n) as u8) as char) as u32 == 48 + n);
        }
        assert(spec_dec_val(Seq::<char>::empty()) == 0);
        assert(d.last() == spec_digit_char(n));
        assert(spec_dec_val(d) == spec_dec_val(d.drop_last()) * 10 + spec_digit_val(d.last()));
    } else {
        lemma_u64_dec_wf(n / 10);
        let a = spec_u64_dec(n / 10);
        let c = spec_digit_char(n % 10);
        assert(d =~= a + seq![c]);
        assert(d.drop_last() =~= a);
        assert(d.last() == c);
        assert(spec_is_digit(c) && spec_digit_val(c) == n % 10) by {
            assert((((48 + n % 10) as u8) as char) as u32 == 48 + n % 10);
        }
        assert(spec_all_digits(d)) by {
            assert(forall|i: int| 0 <= i < a.len() ==> d[i] == a[i]);
        }
        assert(spec_dec_val(d) == spec_dec_val(a) * 10 + spec_digit_val(c));
    }
}

/// Parsing the decimal rendering of an unsigned value gives it back.
pub proof fn lemma_parse_u64_round_trip(n: u64)
    ensures
        spec_parse_u64(spec_u64_dec(n as nat)) == Some(n),
{
    let d = spec_u64_dec(n as nat);
    lemma_u64_dec_wf(n as nat);
    assert(spec_is_digit(d[0]));
    assert(d[0] != '+') by {
        assert(('+' as u32) == 43);
    }
    assert(spec_strip_plus(d) == d);
}

/// Parsing the decimal rendering of a signed value gives it back.
pub proof fn lemma_parse_i64_round_trip(v: i64)
    ensures
        spec_parse_i64(spec_i64_dec(v as int)) == Some(v),
{
    let d = spec_i64_dec(v as int);
    if v >= 0 {
        lemma_u64_dec_wf(v as nat);
        assert(d == spec_u64_dec(v as nat));
        assert(spec_is_digit(d[0]));
        assert(d[0] != '+' && d[0] != '-') by {
            assert(('+' as u32) == 43 && ('-' as u32) == 45);
        }
        assert(spec_strip_plus(d) == d);
    } else {
        let mag = (-(v as int)) as nat;
        lemma_u64_dec_wf(mag);
        let a = spec_u64_dec(mag);
        assert(d =~= seq!['-'] + a);
        assert(d[0] == '-');
        assert(d.skip(1) =~= a);
    }
}

/// Digits, the minus sign, the dot and the trailing speed mark are
/// neither whitespace nor the key separator.
pub open spec fn spec_plain_value_char(c: char) -> bool {
    !spec_is_ws(c) && c != '='
}

/// Every character of a numeral is a plain value character.
pub proof fn lemma_u64_dec_plain(n: nat)
    ensures
        forall|i: int|
            0 <= i < spec_u64_dec(n).len() ==> spec_plain_value_char(
                #[trigger] spec_u64_dec(n)[i],
            ),
{
    lemma_u64_dec_wf(n);
    assert forall|i: int| 0 <= i < spec_u64_dec(n).len() implies spec_plain_value_char(
        spec_u64_dec(n)[i],
    ) by {
        assert(spec_is_digit(spec_u64_dec(n)[i]));
    }
}

/// Index of the first occurrence of a character, or -1 when absent.
pub open spec fn spec_find_char(s: Seq<char>, c: char) -> int
    decreases s.len(),
{
    if s.len() == 0 {
        -1
    } else if s[0] == c {
        0
    } else {
        let r = spec_find_char(s.skip(1), c);
        if r == -1 {
            -1
        } else {
            r + 1
        }
    }
}

pub proof fn lemma_find_char_props(s: Seq<char>, c: char)
    ensures
        ({
            let r = spec_find_char(s, c);
            &&& (r == -1 ==> forall|i: int| 0 <= i < s.len() ==> s[i] != c)
            &&& (r != -1 ==> 0 <= r < s.len() && s[r] == c && (forall|i: int|
                0 <= i < r ==> s[i] != c))
        }),
    decreases s.len(),
{
    if s.len() > 0 && s[0] != c {
        let t = s.skip(1);
        lemma_find_char_props(t, c);
        let r = spec_find_char(s, c);
        let r1 = spec_find_char(t, c);
        if r1 == -1 {
            assert forall|i: int| 0 <= i < s.len() implies s[i] != c by {
                if i > 0 {
                    assert(t[i - 1] == s[i]);
                    assert(t[i - 1] != c);
                }
            }
        } else {
            assert(s[r] == t[r1]);
            assert forall|i: int| 0 <= i < r implies s[i] != c by {
                if i > 0 {
                    assert(t[i - 1] == s[i]);
                    assert(t[i - 1] != c);
                }
            }
        }
    }
}

/// ASCII whitespace as trimmed from protocol lines.
pub open spec fn spec_is_ws(c: char) -> bool {
    c == ' ' || c == '\t' || c == '\n' || c == '\r' || (c as u32) == 11 || (c as u32) == 12
}

fn is_ws(c: char) -> (r: bool)
    ensures
        r == spec_is_ws(c),
{
    c == ' ' || c == '\t' || c == '\n' || c == '\r' || (c as u32) == 11 || (c as u32) == 12
}

/// The sequence with leading whitespace removed.
pub open spec fn spec_trim_start(s: Seq<char>) -> Seq<char>
    decreases s.len(),
{
    if s.len() > 0 && spec_is_ws(s[0]) {
        spec_trim_start(s.skip(1))
    } else {
        s
    }
}

/// The sequence with trailing whitespace removed.
pub open spec fn spec_trim_end(s: Seq<char>) -> Seq<char>
    decreases s.len(),
{
    if s.len() > 0 && spec_is_ws(s.last()) {
        spec_trim_end(s.drop_last())
    } else {
        s
    }
}

/// The sequence with surrounding whitespace removed.
pub open spec fn spec_trim(s: Seq<char>) -> Seq<char> {
    spec_trim_end(spec_trim_start(s))
}

proof fn lemma_trim_start_skip(s: Seq<char>, k: int)
    requires
        0 <= k <= s.len(),
        forall|i: int| 0 <= i < k ==> spec_is_ws(s[i]),
        k < s.len() ==> !spec_is_ws(s[k]),
    ensures
        spec_trim_start(s) == s.skip(k),
    decreases k,
{
    if k == 0 {
        assert(s.skip(0) =~= s);
    } else {
        assert(spec_is_ws(s[0]));
        let t = s.skip(1);
        assert(forall|i: int| 0 <= i < t.len() ==> t[i] == s[i + 1]);
        lemma_trim_start_skip(t, k - 1);
        assert(t.skip(k - 1) =~= s.skip(k));
    }
}

proof fn lemma_trim_end_take(s: Seq<char>, k: int)
    requires
        0 <= k <= s.len(),
        forall|i: int| k <= i < s.len() ==> spec_is_ws(s[i]),
        k > 0 ==> !spec_is_ws(s[k - 1]),
    ensures
        spec_trim_end(s) == s.take(k),
    decreases s.len() - k,
{
    if k == s.len() {
        assert(s.take(k) =~= s);
    } else {
        assert(spec_is_ws(s.last()));
        let t = s.drop_last();
        lemma_trim_end_take(t, k);
        assert(t.take(k) =~= s.take(k));
    }
}

/// Bounds of the whitespace-trimmed middle of `s[lo..hi]`:
/// the trimmed text is `s[r.0..r.1]`.
pub fn trim_range_in(s: &[char], lo: usize, hi: usize) -> (r: (usize, usize))
    requires
        lo <= hi <= s@.len(),
    ensures
        lo <= r.0 <= r.1 <= hi,
        s@.subrange(r.0 as int, r.1 as int) == spec_trim(s@.subrange(lo as int, hi as int)),
        forall|i: int| lo <= i < r.0 ==> spec_is_ws(s@[i]),
        forall|i: int| r.1 <= i < hi ==> spec_is_ws(s@[i]),
{
    let ghost t = s@.subrange(lo as int, hi as int);
    let mut a: usize = lo;
    while a < hi && is_ws(s[a])
        invariant
            lo <= a <= hi <= s@.len(),
            forall|i: int| lo <= i < a ==> spec_is_ws(s@[i]),
        decreases hi - a,
    {
        a += 1;
    }
    proof {
        assert(forall|i: int| 0 <= i < t.len() ==> t[i] == s@[i + lo]);
        lemma_trim_start_skip(t, a - lo);
    }
    let ghost u = t.skip(a - lo);
    let mut b: usize = hi;
    while b > a && is_ws(s[b - 1])
        invariant
            a <= b <= hi <= s@.len(),
            forall|i: int| b <= i < hi ==> spec_is_ws(s@[i]),
        decreases b,
    {
        b -= 1;
    }
    proof {
        assert(forall|i: int| 0 <= i < u.len() ==> u[i] == t[i + (a - lo)]);
        assert(forall|i: int| 0 <= i < u.len() ==> u[i] == s@[i + a]);
        lemma_trim_end_take(u, b - a);
        assert(u.take(b - a) =~= s@.subrange(a as int, b as int));
    }
    (a, b)
}

/// A position holding `c` with no earlier occurrence is where
/// `spec_find_char` points.
pub proof fn lemma_find_char_unique(s: Seq<char>, c: char, p: int)
    requires
        0 <= p < s.len(),
        s[p] == c,
        forall|i: int| 0 <= i < p ==> s[i] != c,
    ensures
        spec_find_char(s, c) == p,
{
    lemma_find_char_props(s, c);
    let f = spec_find_char(s, c);
    if f == -1 {
        assert(s[p] != c);
    }
    if f < p {
        assert(s[f] != c);
    }
    if f > p {
        assert(s[p] != c);
    }
}

/// A sequence without `c` is one where `spec_find_char` finds nothing.
pub proof fn lemma_find_char_absent(s: Seq<char>, c: char)
    requires
        forall|i: int| 0 <= i < s.len() ==> s[i] != c,
    ensures
        spec_find_char(s, c) == -1,
{
    lemma_find_char_props(s, c);
    let f = spec_find_char(s, c);
    if f != -1 {
        assert(s[f] != c);
    }
}

/// True when `s[a..b]` holds exactly the characters of `lit`.
pub fn range_eq_str(s: &[char], a: usize, b: usize, lit: &str) -> (r: bool)
    requires
        a <= b <= s@.len(),
    ensures
        r == (s@.subrange(a as int, b as int) == lit@),
{
    let ghost t = s@.subrange(a as int, b as int);
    let n = lit.unicode_len();
    if b - a != n {
        return false;
    }
    let mut i: usize = 0;
    while i < n
        invariant
            i <= n,
            n == lit@.len(),
            a + n == b,
            b <= s@.len(),
            t == s@.subrange(a as int, b as int),
            forall|j: int| 0 <= j < i ==> t[j] == lit@[j],
        decreases n - i,
    {
        if s[a + i] != lit.get_char(i) {
            proof {
                assert(t[i as int] == s@[a + i]);
            }
            return false;
        }
        proof {
            assert(t[i as int] == s@[a + i]);
        }
        i += 1;
    }
    proof {
        assert(t =~= lit@);
    }
    true
}

/// The sequence with every trailing occurrence of `c` removed.
pub open spec fn spec_strip_trailing(s: Seq<char>, c: char) -> Seq<char>
    decreases s.len(),
{
    if s.len() > 0 && s.last() == c {
        spec_strip_trailing(s.drop_last(), c)
    } else {
        s
    }
}

proof fn lemma_strip_trailing_take(s: Seq<char>, c: char, k: int)
    requires
        0 <= k <= s.len(),
        forall|i: int| k <= i < s.len() ==> s[i] == c,
        k > 0 ==> s[k - 1] != c,
    ensures
        spec_strip_trailing(s, c) == s.take(k),
    decreases s.len() - k,
{
    if k == s.len() {
        assert(s.take(k) =~= s);
    } else {
        assert(s.last() == c);
        let t = s.drop_last();
        lemma_strip_trailing_take(t, c, k);
        assert(t.take(k) =~= s.take(k));
    }
}

/// End of `s[a..b]` once trailing occurrences of `c` are dropped.
pub fn strip_trailing_in(s: &[char], a: usize, b: usize, c: char) -> (r: usize)
    requires
        a <= b <= s@.len(),
    ensures
        a <= r <= b,
        s@.subrange(a as int, r as int) == spec_strip_trailing(
            s@.subrange(a as int, b as int),
            c,
        ),
{
    let ghost t = s@.subrange(a as int, b as int);
    let mut r: usize = b;
    while r > a && s[r - 1] == c
        invariant
            a <= r <= b <= s@.len(),
            forall|i: int| r <= i < b ==> s@[i] == c,
        decreases r,
    {
        r -= 1;
    }
    proof {
        assert(forall|i: int| 0 <= i < t.len() ==> t[i] == s@[i + a]);
        lemma_strip_trailing_take(t, c, r - a);
        assert(t.take(r - a) =~= s@.subrange(a as int, r as int));
    }
    r
}

/// Copy of the given range of the slice.
pub fn copy_range(s: &[char], a: usize, b: usize) -> (r: Vec<char>)
    requires
        a <= b <= s@.len(),
    ensures
        r@ == s@.subrange(a as int, b as int),
{
    let mut r: Vec<char> = Vec::new();
    let mut i: usize = a;
    while i < b
        invariant
            a <= i <= b <= s@.len(),
            r@ == s@.subrange(a as int, i as int),
        decreases b - i,
    {
        r.push(s[i]);
        proof {
            assert(r@ =~= s@.subrange(a as int, i + 1));
        }
        i += 1;
    }
    r
}

/// Largest integer-part value for which a milli fixed-point result
/// still fits in `i64`.
pub open spec fn spec_milli_int_limit() -> int {
    9_223_372_036_854_774
}

/// Milli value contributed by the fractional digits; digits beyond the
/// third are truncated.
pub open spec fn spec_frac_milli(f: Seq<char>) -> int {
    if f.len() >= 3 {
        spec_dec_val(f.take(3))
    } else if f.len() == 2 {
        spec_dec_val(f) * 10
    } else if f.len() == 1 {
        spec_dec_val(f) * 100
    } else {
        0
    }
}

/// Decimal number with an optional sign and fractional part, read as a
/// fixed-point value in thousandths.  Exponents are not part of the
/// grammar, and integer parts beyond the representable range are refused.
pub open spec fn spec_parse_fixed_milli(s: Seq<char>) -> Option<i64> {
    let neg = s.len() > 0 && s[0] == '-';
    let t = if neg {
        s.skip(1)
    } else {
        spec_strip_plus(s)
    };
    let dot = spec_find_char(t, '.');
    let ip = if dot == -1 {
        t
    } else {
        t.take(dot)
    };
    let fp = if dot == -1 {
        Seq::<char>::empty()
    } else {
        t.skip(dot + 1)
    };
    if (ip.len() > 0 || fp.len() > 0) && spec_all_digits(ip) && spec_all_digits(fp)
        && spec_dec_val(ip) <= spec_milli_int_limit() {
        let m = spec_dec_val(ip) * 1000 + spec_frac_milli(fp);
        if neg {
            Some((-m) as i64)
        } else {
            Some(m as i64)
        }
    } else {
        None
    }
}

proof fn lemma_frac_milli_range(f: Seq<char>)
    requires
        spec_all_digits(f),
    ensures
        0 <= spec_frac_milli(f) <= 999,
{
    if f.len() >= 3 {
        let t = f.take(3);
        assert(spec_all_digits(t));
        lemma_dec_val_bound3(t);
    } else if f.len() == 2 {
        lemma_dec_val_bound3(f);
    } else if f.len() == 1 {
        lemma_dec_val_bound3(f);
    }
}

pub proof fn lemma_dec_val_up_to_three(q: Seq<char>)
    requires
        q.len() <= 3,
    ensures
        q.len() == 1 ==> spec_dec_val(q) == spec_digit_val(q[0]),
        q.len() == 2 ==> spec_dec_val(q) == spec_digit_val(q[0]) * 10 + spec_digit_val(q[1]),
        q.len() == 3 ==> spec_dec_val(q) == (spec_digit_val(q[0]) * 10 + spec_digit_val(q[1]))
            * 10 + spec_digit_val(q[2]),
{
    if q.len() == 1 {
        let q0 = q.drop_last();
        assert(q0.len() == 0);
        assert(spec_dec_val(q0) == 0);
        assert(spec_dec_val(q) == spec_dec_val(q0) * 10 + spec_digit_val(q.last()));
    }
    if q.len() == 2 {
        let q1 = q.drop_last();
        let q0 = q1.drop_last();
        assert(q0.len() == 0);
        assert(spec_dec_val(q0) == 0);
        assert(q1.last() == q[0]);
        assert(spec_dec_val(q1) == spec_dec_val(q0) * 10 + spec_digit_val(q1.last()));
        assert(spec_dec_val(q) == spec_dec_val(q1) * 10 + spec_digit_val(q.last()));
    }
    if q.len() == 3 {
        let q2 = q.drop_last();
        let q1 = q2.drop_last();
        let q0 = q1.drop_last();
        assert(q0.len() == 0);
        assert(spec_dec_val(q0) == 0);
        assert(q1.last() == q[0]);
        assert(q2.last() == q[1]);
        assert(spec_dec_val(q1) == spec_dec_val(q0) * 10 + spec_digit_val(q1.last()));
        assert(spec_dec_val(q2) == spec_dec_val(q1) * 10 + spec_digit_val(q2.last()));
        assert(spec_dec_val(q) == spec_dec_val(q2) * 10 + spec_digit_val(q.last()));
    }
}

/// True when every character of `s[a..b]` is a decimal digit.
pub fn all_digits_range(s: &[char], a: usize, b: usize) -> (r: bool)
    requires
        a <= b <= s@.len(),
    ensures
        r == spec_all_digits(s@.subrange(a as int, b as int)),
{
    let ghost t = s@.subrange(a as int, b as int);
    let mut i: usize = a;
    while i < b
        invariant
            a <= i <= b <= s@.len(),
            t == s@.subrange(a as int, b as int),
            forall|j: int| a <= j < i ==> spec_is_digit(s@[j]),
        decreases b - i,
    {
        let cu = s[i] as u32;
        if cu < 48 || cu > 57 {
            proof {
                assert(t[i - a] == s@[i as int]);
            }
            return false;
        }
        i += 1;
    }
    proof {
        assert(forall|j: int| 0 <= j < t.len() ==> t[j] == s@[j + a]);
    }
    true
}

proof fn lemma_dec_val_bound3(s: Seq<char>)
    requires
        spec_all_digits(s),
        s.len() <= 3,
    ensures
        0 <= spec_dec_val(s),
        s.len() <= 1 ==> spec_dec_val(s) <= 9,
        s.len() <= 2 ==> spec_dec_val(s) <= 99,
        spec_dec_val(s) <= 999,
    decreases s.len(),
{
    if s.len() > 0 {
        assert(spec_all_digits(s.drop_last()));
        lemma_dec_val_bound3(s.drop_last());
    }
}

/// Parses a fixed-point decimal into thousandths.
#[verifier::rlimit(60)]
pub fn parse_fixed_milli(s: &[char]) -> (r: Option<i64>)
    ensures
        r == spec_parse_fixed_milli(s@),
{
    let neg = s.len() > 0 && s[0] == '-';
    let start: usize = if s.len() > 0 && (s[0] == '-' || s[0] == '+') {
        1
    } else {
        0
    };
    let ghost t = if neg {
        s@.skip(1)
    } else {
        spec_strip_plus(s@)
    };
    proof {
        assert(t =~= s@.subrange(start as int, s@.len() as int));
    }
    // Find the dot inside the unsigned part.
    let dot = find_char_from(s, start, '.');
    let (ip_end, fp_start): (usize, usize) = match dot {
        Some(d) => (d, d + 1),
        None => (s.len(), s.len()),
    };
    proof {
        let dd = spec_find_char(t, '.');
        match dot {
            Some(d) => {
                assert(dd == d - start);
                assert(t.take(dd) =~= s@.subrange(start as int, ip_end as int));
                assert(t.skip(dd + 1) =~= s@.subrange(fp_start as int, s@.len() as int));
            },
            None => {
                assert(dd == -1);
                assert(t =~= s@.subrange(start as int, s@.len() as int));
            },
        }
    }
    let ghost ip = s@.subrange(start as int, ip_end as int);
    let ghost fp = s@.subrange(fp_start as int, s@.len() as int);
    // Integer part.
    let int_val: u64 = if ip_end == start {
        proof {
            assert(ip.len() == 0);
        }
        0
    } else {
        match parse_digits_bounded(s, start, ip_end, 9_223_372_036_854_774u64) {
            Some(v) => v,
            None => {
                return None;
            },
        }
    };
    proof {
        assert(spec_all_digits(ip) && spec_dec_val(ip) == int_val);
    }
    // Fractional part: validate all digits, then take at most three.
    if !all_digits_range(s, fp_start, s.len()) {
        return None;
    }
    proof {
        assert(spec_all_digits(fp));
    }
    if ip_end == start && fp_start >= s.len() {
        // Neither part holds a digit.
        return None;
    }
    let fp_len: usize = s.len() - fp_start;
    let frac: u64 = if fp_len >= 3 {
        proof {
            let t3 = fp.take(3);
            lemma_dec_val_up_to_three(t3);
            assert(t3[0] == fp[0] && fp[0] == s@[fp_start as int]);
            assert(t3[1] == fp[1] && fp[1] == s@[fp_start + 1]);
            assert(t3[2] == fp[2] && fp[2] == s@[fp_start + 2]);
        }
        let d0 = (s[fp_start] as u32 - 48) as u64;
        let d1 = (s[fp_start + 1] as u32 - 48) as u64;
        let d2 = (s[fp_start + 2] as u32 - 48) as u64;
        d0 * 100 + d1 * 10 + d2
    } else if fp_len == 2 {
        proof {
            lemma_dec_val_up_to_three(fp);
            assert(fp[0] == s@[fp_start as int]);
            assert(fp[1] == s@[fp_start + 1]);
        }
        let d0 = (s[fp_start] as u32 - 48) as u64;
        let d1 = (s[fp_start + 1] as u32 - 48) as u64;
        d0 * 100 + d1 * 10
    } else if fp_len == 1 {
        proof {
            lemma_dec_val_up_to_three(fp);
            assert(fp[0] == s@[fp_start as int]);
        }
        let d0 = (s[fp_start] as u32 - 48) as u64;
        d0 * 100
    } else {
        0
    };
    proof {
        assert(frac == spec_frac_milli(fp));
        lemma_frac_milli_range(fp);
    }
    let m: u64 = int_val * 1000 + frac;
    if neg {
        Some((-(m as i128)) as i64)
    } else {
        Some(m as i64)
    }
}

/// First occurrence of a character at or after `start`.
pub fn find_char_from(s: &[char], start: usize, c: char) -> (r: Option<usize>)
    requires
        start <= s@.len(),
    ensures
        ({
            let f = spec_find_char(s@.skip(start as int), c);
            match r {
                Some(i) => start <= i < s@.len() && i - start == f && s@[i as int] == c,
                None => f == -1,
            }
        }),
{
    let ghost u = s@.skip(start as int);
    proof {
        lemma_find_char_props(u, c);
        assert(forall|i: int| 0 <= i < u.len() ==> u[i] == s@[i + start]);
    }
    let mut i: usize = start;
    while i < s.len()
        invariant
            start <= i <= s@.len(),
            u == s@.skip(start as int),
            forall|j: int| start <= j < i ==> s@[j] != c,
        decreases s@.len() - i,
    {
        if s[i] == c {
            proof {
                lemma_find_char_props(u, c);
                assert(forall|k: int| 0 <= k < u.len() ==> u[k] == s@[k + start]);
                let f = spec_find_char(u, c);
                assert(u[i - start] == s@[i as int]);
                if f == -1 {
                    assert(u[i - start] != c);
                }
                if f < i - start {
                    assert(u[f] == s@[f + start]);
                    assert(s@[f + start] != c);
                }
                if f > i - start {
                    assert(u[i - start] != c);
                }
            }
            return Some(i);
        }
        i += 1;
    }
    proof {
        lemma_find_char_props(u, c);
        let f = spec_find_char(u, c);
        if f != -1 {
            assert(u[f] == s@[f + start]);
            assert(s@[f + start] != c);
        }
    }
    None
}

/// Parses as `str::parse::<i64>` does.
pub fn parse_i64_chars(s: &[char]) -> (r: Option<i64>)
    ensures
        r == spec_parse_i64(s@),
{
    if s.len() > 0 && s[0] == '-' {
        let ghost t = s@.skip(1);
        proof {
            assert(t =~= s@.subrange(1, s@.len() as int));
        }
        // The magnitude of the most negative value is 2^63.
        let m = parse_digits_bounded(s, 1, s.len(), 9_223_372_036_854_775_808u64);
        proof {
            if spec_all_digits(t) && t.len() > 0 {
                lemma_dec_val_nonneg(t);
            }
        }
        match m {
            Some(v) => Some((-(v as i128)) as i64),
            None => None,
        }
    } else {
        let ghost t = spec_strip_plus(s@);
        let start: usize = if s.len() > 0 && s[0] == '+' {
            1
        } else {
            0
        };
        proof {
            assert(t =~= s@.subrange(start as int, s@.len() as int));
        }
        let r = parse_digits_bounded(s, start, s.len(), i64::MAX as u64);
        proof {
            if spec_all_digits(t) && t.len() > 0 {
                lemma_dec_val_nonneg(t);
            }
        }
        match r {
            Some(v) => Some(v as i64),
            None => None,
        }
    }
}

} // verus!
