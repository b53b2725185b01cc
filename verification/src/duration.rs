//! Duration codec for the report format's fractional-seconds time fields.
//!
//! A `time` attribute is a decimal seconds value such as `"2.137"`, possibly
//! in exponent notation (`"1e-3"`, `"2.5E2"`).  Negative values are folded to
//! their absolute value (a quirk of the source format, not an error),
//! durations are kept with nanosecond precision, and the wire form on the
//! way out is integer milliseconds, truncating any sub-millisecond
//! remainder.  Values too large to represent saturate at the largest
//! representable duration, and sub-nanosecond remainders truncate: the
//! format promises no error condition for finite numbers.

use vstd::prelude::*;
use crate::strutil::{first_index_of, lemma_first_index_at, lemma_first_index_none, str_chars};

verus! {

/// A non-negative span of time, counted in nanoseconds.
#[derive(Debug, Clone, Copy, PartialEq, Eq, Structural)]
pub struct Duration {
    pub nanos: u64,
}

pub const NANOS_PER_MILLI: u64 = 1_000_000;

pub const NANOS_PER_SEC: u64 = 1_000_000_000;

pub open spec fn is_digit(c: char) -> bool {
    '0' <= c && c <= '9'
}

pub open spec fn digit_val(c: char) -> int {
    c as int - '0' as int
}

pub open spec fn all_digits(s: Seq<char>) -> bool {
    forall|i: int| 0 <= i < s.len() ==> is_digit(#[trigger] s[i])
}

/// The number denoted by a sequence of decimal digits, most significant first.
pub open spec fn digits_val(s: Seq<char>) -> int
    decreases s.len(),
{
    if s.len() == 0 {
        0
    } else {
        digits_val(s.drop_last()) * 10 + digit_val(s.last())
    }
}

pub open spec fn pow10(n: nat) -> int
    decreases n,
{
    if n == 0 {
        1
    } else {
        10 * pow10((n - 1) as nat)
    }
}

/// Clamp a mathematical integer into `u64`.
pub open spec fn clamp_u64(x: int) -> u64 {
    if x > u64::MAX {
        u64::MAX
    } else if x < 0 {
        0
    } else {
        x as u64
    }
}

/// Clamp a mathematical integer into `u128`.
pub open spec fn clamp_u128(x: int) -> u128 {
    if x > u128::MAX {
        u128::MAX
    } else if x < 0 {
        0
    } else {
        x as u128
    }
}

/// Index of the first exponent marker (`e` or `E`) in `s`, or `s.len()` if
/// there is none.
pub open spec fn first_marker(s: Seq<char>) -> int
    decreases s.len(),
{
    if s.len() == 0 {
        0
    } else if s[0] == 'e' || s[0] == 'E' {
        0
    } else {
        1 + first_marker(s.drop_first())
    }
}

pub proof fn lemma_first_marker_at(s: Seq<char>, j: int)
    requires
        0 <= j < s.len(),
        s[j] == 'e' || s[j] == 'E',
        forall|i: int| 0 <= i < j ==> s[i] != 'e' && s[i] != 'E',
    ensures
        first_marker(s) == j,
    decreases s.len(),
{
    if j > 0 {
        assert(forall|i: int| 0 <= i < s.len() - 1 ==> s.drop_first()[i] == s[i + 1]);
        lemma_first_marker_at(s.drop_first(), j - 1);
    }
}

pub proof fn lemma_first_marker_none(s: Seq<char>)
    requires
        forall|i: int| 0 <= i < s.len() ==> s[i] != 'e' && s[i] != 'E',
    ensures
        first_marker(s) == s.len(),
    decreases s.len(),
{
    if s.len() > 0 {
        assert(forall|i: int| 0 <= i < s.len() - 1 ==> s.drop_first()[i] == s[i + 1]);
        lemma_first_marker_none(s.drop_first());
    }
}

/// The nanoseconds denoted by a mantissa digit string whose decimal point
/// stands `q` places from the string's left end (`q` may lie outside the
/// string: right of it the digits are scaled up, at or left of its start the
/// whole value is below one nanosecond).  Truncates and saturates.
pub open spec fn shifted_nanos(digits: Seq<char>, q: int) -> u64 {
    if q <= 0 {
        0
    } else if q >= digits.len() {
        clamp_u64(digits_val(digits) * pow10((q - digits.len()) as nat))
    } else {
        clamp_u64(digits_val(digits.take(q)))
    }
}

/// What the exponent part after the marker at `ex` denotes: zero when there
/// is no marker, the signed digit value after an optional sign otherwise,
/// and nothing when the digits are missing or malformed.
pub open spec fn spec_exponent(body: Seq<char>, ex: int) -> Option<int> {
    if ex == body.len() {
        Some(0)
    } else {
        let ep = body.subrange(ex + 1, body.len() as int);
        let edigits = if ep.len() > 0 && (ep[0] == '+' || ep[0] == '-') {
            ep.drop_first()
        } else {
            ep
        };
        if edigits.len() > 0 && all_digits(edigits) {
            Some(
                if ep.len() > 0 && ep[0] == '-' {
                    -digits_val(edigits)
                } else {
                    digits_val(edigits)
                },
            )
        } else {
            None
        }
    }
}

/// What a decimal seconds field denotes: an optional sign (minus is folded
/// away), a mantissa of digits with at most one dot and at least one digit,
/// and an optional exponent (`e` or `E`, an optional sign, digits).  The
/// value is the mantissa's digits with the decimal point shifted by the
/// exponent, read in nanoseconds.  `None` means the field is not such a
/// number.
pub open spec fn spec_duration_from_secs(s: Seq<char>) -> Option<Duration> {
    let body = if s.len() > 0 && (s[0] == '+' || s[0] == '-') {
        s.drop_first()
    } else {
        s
    };
    let ex = first_marker(body);
    let mant = body.take(ex);
    let d = first_index_of(mant, '.');
    let ip = mant.take(d);
    let fp = if d == mant.len() {
        Seq::<char>::empty()
    } else {
        mant.subrange(d + 1, mant.len() as int)
    };
    let exponent = spec_exponent(body, ex);
    if all_digits(ip) && all_digits(fp) && ip.len() + fp.len() > 0 && exponent is Some {
        Some(Duration { nanos: shifted_nanos(ip + fp, ip.len() + exponent->Some_0 + 9) })
    } else {
        None
    }
}

pub proof fn lemma_digits_val_nonneg(s: Seq<char>)
    ensures
        all_digits(s) ==> digits_val(s) >= 0,
    decreases s.len(),
{
    if s.len() > 0 {
        assert(forall|i: int| 0 <= i < s.len() - 1 ==> #[trigger] s.drop_last()[i] == s[i]);
        lemma_digits_val_nonneg(s.drop_last());
    }
}

impl Duration {
    pub fn zero() -> (r: Duration)
        ensures
            r.nanos == 0,
    {
        Duration { nanos: 0 }
    }

    pub fn from_nanos(nanos: u64) -> (r: Duration)
        ensures
            r.nanos == nanos,
    {
        Duration { nanos }
    }

    /// A duration of `ms` whole milliseconds; saturates when out of range.
    pub fn from_millis(ms: u64) -> (r: Duration)
        ensures
            r.nanos == clamp_u64(ms * NANOS_PER_MILLI),
    {
        match ms.checked_mul(NANOS_PER_MILLI) {
            Some(n) => Duration { nanos: n },
            None => Duration { nanos: u64::MAX },
        }
    }

    /// The wire form of a duration: whole milliseconds, truncating.
    pub fn num_milliseconds(&self) -> (r: u64)
        ensures
            r == self.nanos / NANOS_PER_MILLI,
    {
        self.nanos / NANOS_PER_MILLI
    }

    /// Component-wise saturating addition, used when summaries are merged.
    pub fn saturating_add(self, other: Duration) -> (r: Duration)
        ensures
            r.nanos == clamp_u64(self.nanos + other.nanos),
    {
        Duration { nanos: self.nanos.saturating_add(other.nanos) }
    }

    /// Spec-level twin of `saturating_add`.
    pub open spec fn spec_saturating_add(self, other: Duration) -> Duration {
        Duration { nanos: clamp_u64(self.nanos + other.nanos) }
    }
}

/// Decode a decimal seconds field, folding a leading minus sign away.
/// `None` exactly on fields that are not decimal numbers (with or without
/// an exponent part).
#[verifier::loop_isolation(false)]
pub fn duration_from_secs_str(s: &str) -> (r: Option<Duration>)
    ensures
        r == spec_duration_from_secs(s@),
{
    let chars = str_chars(s);
    let n = chars.len();
    let start: usize = if n > 0 && (chars[0] == '+' || chars[0] == '-') {
        1
    } else {
        0
    };
    let ghost body = s@.subrange(start as int, n as int);
    assert(body =~= if s@.len() > 0 && (s@[0] == '+' || s@[0] == '-') {
        s@.drop_first()
    } else {
        s@
    });

    // the exponent marker splits the mantissa from the exponent
    let mut mpos = start;
    while mpos < n && chars[mpos] != 'e' && chars[mpos] != 'E'
        invariant
            start <= mpos <= n,
            forall|i: int| start <= i < mpos ==> s@[i] != 'e' && s@[i] != 'E',
        decreases n - mpos,
    {
        mpos = mpos + 1;
    }
    proof {
        assert(forall|i: int| 0 <= i < body.len() ==> body[i] == s@[i + start]);
        if mpos < n {
            lemma_first_marker_at(body, mpos - start);
        } else {
            lemma_first_marker_none(body);
        }
    }

    let (digits, ip_len) = match parse_mantissa(&chars, start, mpos) {
        Some(v) => v,
        None => {
            assert(body.take(first_marker(body)) =~= s@.subrange(start as int, mpos as int));
            return None;
        },
    };
    let (eneg, eval, emag) = match parse_exponent(&chars, start, mpos) {
        Some(v) => v,
        None => {
            return None;
        },
    };
    let nanos = shifted_value(&digits, ip_len, eneg, eval, Ghost(emag@));
    proof {
        assert(body.take(first_marker(body)) =~= s@.subrange(start as int, mpos as int));
    }
    Some(Duration { nanos })
}

/// The mantissa's digit string (dot removed) and the count of its whole
/// digits, or nothing when the mantissa is not digits around at most one
/// dot, with at least one digit.
fn parse_mantissa(chars: &Vec<char>, start: usize, mpos: usize) -> (r: Option<(Vec<char>, usize)>)
    requires
        start <= mpos <= chars@.len(),
    ensures
        ({
            let mant = chars@.subrange(start as int, mpos as int);
            let d = first_index_of(mant, '.');
            let ip = mant.take(d);
            let fp = if d == mant.len() {
                Seq::<char>::empty()
            } else {
                mant.subrange(d + 1, mant.len() as int)
            };
            match r {
                Some(v) => all_digits(ip) && all_digits(fp) && ip.len() + fp.len() > 0 && v.0@ == ip
                    + fp && v.1 == ip.len(),
                None => !(all_digits(ip) && all_digits(fp) && ip.len() + fp.len() > 0),
            }
        }),
{
    let ghost mant = chars@.subrange(start as int, mpos as int);
    let n = chars.len();

    // the dot splits the mantissa into its whole and fractional digits
    let mut dpos = start;
    while dpos < mpos && chars[dpos] != '.'
        invariant
            start <= dpos <= mpos <= chars@.len(),
            mant == chars@.subrange(start as int, mpos as int),
            forall|i: int| start <= i < dpos ==> chars@[i] != '.',
        decreases mpos - dpos,
    {
        dpos = dpos + 1;
    }
    proof {
        assert(forall|i: int| 0 <= i < mant.len() ==> mant[i] == chars@[i + start]);
        if dpos < mpos {
            lemma_first_index_at(mant, '.', dpos - start);
        } else {
            lemma_first_index_none(mant, '.');
        }
    }
    let ghost ip = mant.take(first_index_of(mant, '.'));
    let fstart: usize = if dpos < mpos {
        dpos + 1
    } else {
        mpos
    };
    let ghost fp = if first_index_of(mant, '.') == mant.len() {
        Seq::<char>::empty()
    } else {
        mant.subrange(first_index_of(mant, '.') + 1, mant.len() as int)
    };
    assert(ip =~= chars@.subrange(start as int, dpos as int));
    assert(fp =~= chars@.subrange(fstart as int, mpos as int));

    if !all_digits_range(chars, start, dpos) {
        return None;
    }
    if !all_digits_range(chars, fstart, mpos) {
        return None;
    }
    if dpos == start && fstart == mpos {
        // a mantissa without digits
        assert(ip.len() + fp.len() == 0);
        return None;
    }

    // the mantissa's digit string, dot removed
    let digits = copy_two_ranges(chars, start, dpos, fstart, mpos);
    assert(digits@ =~= ip + fp);
    Some((digits, dpos - start))
}

/// The exponent's sign and clamped magnitude (with its exact ghost value),
/// or nothing when a marker stands without well-formed digits after it.
fn parse_exponent(chars: &Vec<char>, start: usize, mpos: usize) -> (r: Option<(bool, u128, Ghost<int>)>)
    requires
        start <= mpos <= chars@.len(),
        mpos - start == first_marker(chars@.subrange(start as int, chars@.len() as int)),
    ensures
        ({
            let body = chars@.subrange(start as int, chars@.len() as int);
            match r {
                Some(v) => v.2@ >= 0 && v.1 == clamp_u128(v.2@) && spec_exponent(
                    body,
                    mpos - start,
                ) == Some(
                    if v.0 {
                        -v.2@
                    } else {
                        v.2@
                    },
                ),
                None => spec_exponent(body, mpos - start) is None,
            }
        }),
{
    let ghost body = chars@.subrange(start as int, chars@.len() as int);
    let n = chars.len();
    if mpos == n {
        // no exponent part at all
        return Some((false, 0u128, Ghost(0int)));
    }
    let mut eneg = false;
    let mut edstart: usize = mpos + 1;
    if edstart < n && (chars[edstart] == '+' || chars[edstart] == '-') {
        eneg = chars[edstart] == '-';
        edstart = edstart + 1;
    }
    let ghost edigits = chars@.subrange(edstart as int, n as int);
    proof {
        let ep = body.subrange(mpos - start + 1, body.len() as int);
        assert(ep =~= chars@.subrange(mpos + 1, n as int));
        assert(edigits =~= if ep.len() > 0 && (ep[0] == '+' || ep[0] == '-') {
            ep.drop_first()
        } else {
            ep
        });
        assert(eneg == (ep.len() > 0 && ep[0] == '-'));
    }
    if edstart == n {
        // an exponent marker without digits
        return None;
    }
    if !all_digits_range(chars, edstart, n) {
        return None;
    }
    let eval = parse_digits_clamped_u128(chars, edstart, n);
    proof {
        lemma_digits_val_nonneg(edigits);
    }
    Some((eneg, eval, Ghost(digits_val(edigits))))
}

/// The nanoseconds denoted by the digit string `digits` with the decimal
/// point after its first `ip_len` digits, scaled by ten to the exponent
/// whose magnitude is `emag` (`eval` is that magnitude clamped).
fn shifted_value(
    digits: &Vec<char>,
    ip_len: usize,
    eneg: bool,
    eval: u128,
    Ghost(emag): Ghost<int>,
) -> (r: u64)
    requires
        all_digits(digits@),
        1 <= digits@.len(),
        ip_len <= digits@.len(),
        emag >= 0,
        eval == clamp_u128(emag),
    ensures
        r == shifted_nanos(
            digits@,
            ip_len + (if eneg {
                -emag
            } else {
                emag
            }) + 9,
        ),
{
    let dl = digits.len();
    let ghost e: int = if eneg {
        -emag
    } else {
        emag
    };
    let ghost qi: int = ip_len + e + 9;
    if eneg {
        if eval >= (ip_len as u128) + 9 {
            // the point moves at or left of the string's start
            assert(qi <= 0) by {
                if eval < u128::MAX {
                    assert(emag == eval);
                } else {
                    assert(emag >= u128::MAX);
                }
            }
            return 0u64;
        }
        assert(emag == eval);
        let q: u128 = (ip_len as u128) + 9 - eval;
        assert(q == qi);
        shifted_from_exact(digits, q, Ghost(qi))
    } else {
        if eval >= (dl as u128) + 20 {
            // the scale-up alone exceeds the representable range
            assert(emag >= dl + 20) by {
                if eval < u128::MAX {
                    assert(emag == eval);
                } else {
                    assert(emag >= u128::MAX);
                }
            }
            assert(qi - dl >= 20);
            let dc = parse_whole_digits(digits);
            proof {
                lemma_digits_val_nonneg(digits@);
            }
            if dc == 0 {
                assert(digits_val(digits@) == 0);
                assert(shifted_nanos(digits@, qi) == clamp_u64(0 * pow10((qi - dl) as nat)));
                return 0u64;
            }
            proof {
                assert(digits_val(digits@) >= 1);
                lemma_pow10_20();
                lemma_pow10_le(20, (qi - dl) as nat);
                assert(digits_val(digits@) * pow10((qi - dl) as nat) >= pow10((qi - dl) as nat))
                    by (nonlinear_arith)
                    requires
                        digits_val(digits@) >= 1,
                        pow10((qi - dl) as nat) >= 1,
                ;
            }
            return u64::MAX;
        }
        assert(emag == eval);
        let q: u128 = (ip_len as u128) + eval + 9;
        assert(q == qi);
        shifted_from_exact(digits, q, Ghost(qi))
    }
}

/// `shifted_nanos` for a positive, exactly known point position.
fn shifted_from_exact(digits: &Vec<char>, q: u128, Ghost(qi): Ghost<int>) -> (r: u64)
    requires
        all_digits(digits@),
        1 <= digits@.len(),
        q == qi,
        qi >= 1,
    ensures
        r == shifted_nanos(digits@, qi),
{
    let dl = digits.len();
    proof {
        lemma_digits_val_nonneg(digits@);
    }
    if q >= dl as u128 {
        let ghost k: int = qi - dl;
        let dc = parse_whole_digits(digits);
        if dc == 0 {
            assert(digits_val(digits@) == 0);
            assert(shifted_nanos(digits@, qi) == clamp_u64(0 * pow10(k as nat)));
            return 0u64;
        }
        if q - (dl as u128) >= 20 {
            proof {
                assert(digits_val(digits@) >= 1);
                lemma_pow10_20();
                lemma_pow10_le(20, k as nat);
                assert(digits_val(digits@) * pow10(k as nat) >= pow10(k as nat))
                    by (nonlinear_arith)
                    requires
                        digits_val(digits@) >= 1,
                        pow10(k as nat) >= 1,
                ;
            }
            return u64::MAX;
        }
        let kx = (q - (dl as u128)) as usize;
        assert(kx == k);
        let p = pow10_u64(kx);
        proof {
            lemma_pow10_le(0, k as nat);
        }
        if dc == u64::MAX {
            // the mantissa alone saturates; scaling cannot shrink it
            assert(digits_val(digits@) >= u64::MAX);
            assert(digits_val(digits@) * pow10(k as nat) >= digits_val(digits@))
                by (nonlinear_arith)
                requires
                    digits_val(digits@) >= 0,
                    pow10(k as nat) >= 1,
            ;
            return u64::MAX;
        }
        assert(dc == digits_val(digits@));
        match dc.checked_mul(p) {
            Some(t) => t,
            None => u64::MAX,
        }
    } else {
        // the point falls inside the digit string: a prefix, truncated
        let qq = q as usize;
        assert(qq == qi);
        assert(all_digits(digits@.subrange(0, qq as int))) by {
            assert(forall|i: int|
                0 <= i < qq ==> #[trigger] digits@.subrange(0, qq as int)[i] == digits@[i]);
        }
        let r = parse_digits_clamped(digits, 0, qq);
        assert(digits@.subrange(0, qq as int) =~= digits@.take(qi));
        r
    }
}

/// The two digit runs of the mantissa, joined.
fn copy_two_ranges(chars: &Vec<char>, a: usize, b: usize, c: usize, d: usize) -> (r: Vec<char>)
    requires
        a <= b <= chars@.len(),
        c <= d <= chars@.len(),
    ensures
        r@ == chars@.subrange(a as int, b as int) + chars@.subrange(c as int, d as int),
{
    let mut out: Vec<char> = Vec::new();
    let mut i = a;
    while i < b
        invariant
            a <= i <= b <= chars@.len(),
            out@ =~= chars@.subrange(a as int, i as int),
        decreases b - i,
    {
        out.push(chars[i]);
        assert(out@ =~= chars@.subrange(a as int, i + 1 as int));
        i = i + 1;
    }
    let mut j = c;
    while j < d
        invariant
            c <= j <= d <= chars@.len(),
            a <= b <= chars@.len(),
            out@ =~= chars@.subrange(a as int, b as int) + chars@.subrange(c as int, j as int),
        decreases d - j,
    {
        out.push(chars[j]);
        assert(out@ =~= chars@.subrange(a as int, b as int) + chars@.subrange(
            c as int,
            j + 1 as int,
        ));
        j = j + 1;
    }
    out
}

/// Whether every character of `chars[from..to]` is a decimal digit.
fn all_digits_range(chars: &Vec<char>, from: usize, to: usize) -> (r: bool)
    requires
        from <= to <= chars@.len(),
    ensures
        r == all_digits(chars@.subrange(from as int, to as int)),
{
    let ghost whole = chars@.subrange(from as int, to as int);
    let mut i = from;
    while i < to
        invariant
            from <= i <= to <= chars@.len(),
            whole == chars@.subrange(from as int, to as int),
            forall|j: int| from <= j < i ==> is_digit(#[trigger] chars@[j]),
        decreases to - i,
    {
        let c = chars[i];
        if !(('0' <= c) && (c <= '9')) {
            assert(!is_digit(whole[i - from]));
            return false;
        }
        i = i + 1;
    }
    assert(forall|j: int| 0 <= j < whole.len() ==> whole[j] == chars@[j + from]);
    true
}

proof fn lemma_pow10_19()
    ensures
        pow10(19) == 10_000_000_000_000_000_000,
{
    reveal_with_fuel(pow10, 20);
}

proof fn lemma_pow10_20()
    ensures
        pow10(20) > u64::MAX,
{
    reveal_with_fuel(pow10, 21);
}

proof fn lemma_pow10_pos(n: nat)
    ensures
        pow10(n) >= 1,
    decreases n,
{
    if n > 0 {
        lemma_pow10_pos((n - 1) as nat);
    }
}

proof fn lemma_pow10_le(a: nat, b: nat)
    requires
        a <= b,
    ensures
        pow10(a) <= pow10(b),
        pow10(a) >= 1,
    decreases b,
{
    lemma_pow10_pos(a);
    if a < b {
        lemma_pow10_le(a, (b - 1) as nat);
    }
}

/// The clamped value of the whole digit string.
fn parse_whole_digits(digits: &Vec<char>) -> (r: u64)
    requires
        all_digits(digits@),
    ensures
        r == clamp_u64(digits_val(digits@)),
{
    let n = digits.len();
    assert(all_digits(digits@.subrange(0, n as int))) by {
        assert(forall|i: int|
            0 <= i < n ==> #[trigger] digits@.subrange(0, n as int)[i] == digits@[i]);
    }
    let r = parse_digits_clamped(digits, 0, n);
    assert(digits@.subrange(0, n as int) =~= digits@);
    r
}

/// The clamped value of the run of decimal digits `chars[from..to]`.
fn parse_digits_clamped(chars: &Vec<char>, from: usize, to: usize) -> (r: u64)
    requires
        from <= to <= chars@.len(),
        all_digits(chars@.subrange(from as int, to as int)),
    ensures
        r == clamp_u64(digits_val(chars@.subrange(from as int, to as int))),
{
    let ghost whole = chars@.subrange(from as int, to as int);
    let mut val: u64 = 0;
    let mut i = from;
    while i < to
        invariant
            from <= i <= to <= chars@.len(),
            whole == chars@.subrange(from as int, to as int),
            all_digits(whole),
            all_digits(chars@.subrange(from as int, i as int)),
            val == clamp_u64(digits_val(chars@.subrange(from as int, i as int))),
        decreases to - i,
    {
        let c = chars[i];
        assert(is_digit(whole[i - from]));
        assert(c == whole[i - from]);
        let d: u64 = (c as u32 - '0' as u32) as u64;
        assert(d == digit_val(c));
        let ghost prefix = chars@.subrange(from as int, i as int);
        let ghost next_prefix = chars@.subrange(from as int, i + 1 as int);
        assert(next_prefix.drop_last() =~= prefix);
        assert(next_prefix.last() == c);
        let old_val = val;
        val = match val.checked_mul(10) {
            Some(m) => match m.checked_add(d) {
                Some(t) => t,
                None => u64::MAX,
            },
            None => u64::MAX,
        };
        proof {
            let pv = digits_val(prefix);
            assert(digits_val(next_prefix) == pv * 10 + digit_val(c));
            lemma_digits_val_nonneg(prefix);
            if old_val < u64::MAX {
                assert(old_val == pv);
            } else {
                assert(pv >= u64::MAX);
                assert(pv * 10 >= pv * 1) by (nonlinear_arith)
                    requires
                        pv >= 0,
                ;
            }
        }
        i = i + 1;
    }
    assert(whole =~= chars@.subrange(from as int, i as int));
    val
}

/// The clamped value of the run of decimal digits `chars[from..to]`, in the
/// wider word used for exponents.
fn parse_digits_clamped_u128(chars: &Vec<char>, from: usize, to: usize) -> (r: u128)
    requires
        from <= to <= chars@.len(),
        all_digits(chars@.subrange(from as int, to as int)),
    ensures
        r == clamp_u128(digits_val(chars@.subrange(from as int, to as int))),
{
    let ghost whole = chars@.subrange(from as int, to as int);
    let mut val: u128 = 0;
    let mut i = from;
    while i < to
        invariant
            from <= i <= to <= chars@.len(),
            whole == chars@.subrange(from as int, to as int),
            all_digits(whole),
            all_digits(chars@.subrange(from as int, i as int)),
            val == clamp_u128(digits_val(chars@.subrange(from as int, i as int))),
        decreases to - i,
    {
        let c = chars[i];
        assert(is_digit(whole[i - from]));
        assert(c == whole[i - from]);
        let d: u128 = (c as u32 - '0' as u32) as u128;
        assert(d == digit_val(c));
        let ghost prefix = chars@.subrange(from as int, i as int);
        let ghost next_prefix = chars@.subrange(from as int, i + 1 as int);
        assert(next_prefix.drop_last() =~= prefix);
        assert(next_prefix.last() == c);
        let old_val = val;
        val = match val.checked_mul(10) {
            Some(m) => match m.checked_add(d) {
                Some(t) => t,
                None => u128::MAX,
            },
            None => u128::MAX,
        };
        proof {
            let pv = digits_val(prefix);
            assert(digits_val(next_prefix) == pv * 10 + digit_val(c));
            lemma_digits_val_nonneg(prefix);
            if old_val < u128::MAX {
                assert(old_val == pv);
            } else {
                assert(pv >= u128::MAX);
                assert(pv * 10 >= pv * 1) by (nonlinear_arith)
                    requires
                        pv >= 0,
                ;
            }
        }
        i = i + 1;
    }
    assert(whole =~= chars@.subrange(from as int, i as int));
    val
}

/// Ten to a small power, as a machine word.
fn pow10_u64(k: usize) -> (r: u64)
    requires
        k <= 19,
    ensures
        r == pow10(k as nat),
{
    let mut r: u64 = 1;
    let mut i: usize = 0;
    proof {
        lemma_pow10_le(k as nat, 19);
        lemma_pow10_19();
    }
    while i < k
        invariant
            i <= k <= 19,
            r == pow10(i as nat),
            pow10(k as nat) <= 10_000_000_000_000_000_000,
        decreases k - i,
    {
        proof {
            lemma_pow10_le((i + 1) as nat, k as nat);
        }
        r = r * 10;
        i = i + 1;
    }
    r
}

} // verus!
