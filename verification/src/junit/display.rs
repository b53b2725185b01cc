//! Human-readable rendering of durations, cut off below millisecond
//! granularity.
//!
//! The outside formatter writes a duration as space-separated words, each a
//! value directly followed by its unit (`"1day 1h 1ms"`).  The rendering
//! keeps the leading words whose unit is at least a millisecond and drops
//! the rest.

use vstd::prelude::*;
use crate::duration::{is_digit, Duration};
use crate::strutil::{first_index_of, scan_char, str_chars, str_eq};

verus! {

/// How the outside formatter renders a duration of so many nanoseconds: a
/// function of the duration alone.
pub uninterp spec fn human_duration(nanos: u64) -> Seq<char>;

/// Relies on humantime::format_duration: it renders a duration as words of
/// the shape value-then-unit, by the duration's value alone.
#[verifier::external_body]
fn format_human(d: &Duration) -> (r: String)
    ensures
        r@ == human_duration(d.nanos),
{
    humantime::format_duration(std::time::Duration::from_nanos(d.nanos)).to_string()
}

/// How many leading characters of a word are digits.
pub open spec fn digits_prefix_len(s: Seq<char>) -> int
    decreases s.len(),
{
    if s.len() == 0 {
        0
    } else if !is_digit(s[0]) {
        0
    } else {
        1 + digits_prefix_len(s.drop_first())
    }
}

/// A word's unit: the word with its leading digits stripped.
pub open spec fn unit_of(word: Seq<char>) -> Seq<char> {
    word.skip(digits_prefix_len(word))
}

/// The units of millisecond granularity or coarser.
pub open spec fn is_time_unit(u: Seq<char>) -> bool {
    ||| u == "year"@
    ||| u == "month"@
    ||| u == "day"@
    ||| u == "h"@
    ||| u == "m"@
    ||| u == "s"@
    ||| u == "ms"@
}

/// The leading words of `s` whose unit passes, joined by single spaces.
pub open spec fn spec_trunc_units(s: Seq<char>) -> Seq<char>
    decreases s.len(),
{
    let d = first_index_of(s, ' ');
    let w = s.take(d);
    if !is_time_unit(unit_of(w)) {
        Seq::empty()
    } else if 0 <= d && d < s.len() {
        let rest = spec_trunc_units(s.skip(d + 1));
        if rest.len() == 0 {
            w
        } else {
            w + " "@ + rest
        }
    } else {
        w
    }
}

/// What `duration` renders: the outside formatter's words, cut at the first
/// word finer than a millisecond.
pub open spec fn spec_display_duration(nanos: u64) -> Seq<char> {
    spec_trunc_units(human_duration(nanos))
}

pub proof fn lemma_digits_prefix_at(s: Seq<char>, j: int)
    requires
        0 <= j <= s.len(),
        forall|i: int| 0 <= i < j ==> is_digit(#[trigger] s[i]),
        j < s.len() ==> !is_digit(s[j]),
    ensures
        digits_prefix_len(s) == j,
    decreases s.len(),
{
    if s.len() == 0 {
    } else if j == 0 {
    } else {
        assert(forall|i: int| 0 <= i < s.len() - 1 ==> s.drop_first()[i] == s[i + 1]);
        lemma_digits_prefix_at(s.drop_first(), j - 1);
    }
}

/// Whether a word carries a unit of millisecond granularity or coarser.
fn word_has_coarse_unit(w: &str) -> (r: bool)
    ensures
        r == is_time_unit(unit_of(w@)),
{
    let chars = str_chars(w);
    let n = chars.len();
    let mut i: usize = 0;
    while i < n && '0' <= chars[i] && chars[i] <= '9'
        invariant
            i <= n,
            n == w@.len(),
            chars@ == w@,
            forall|q: int| 0 <= q < i ==> is_digit(#[trigger] w@[q]),
        decreases n - i,
    {
        i = i + 1;
    }
    proof {
        lemma_digits_prefix_at(w@, i as int);
        assert(unit_of(w@) =~= w@.subrange(i as int, n as int));
    }
    let u = w.substring_char(i, n);
    str_eq(u, "year") || str_eq(u, "month") || str_eq(u, "day") || str_eq(u, "h") || str_eq(u, "m")
        || str_eq(u, "s") || str_eq(u, "ms")
}

/// The leading words of `s` whose unit is at least a millisecond.
fn trunc_units(s: &str) -> (r: String)
    ensures
        r@ == spec_trunc_units(s@),
    decreases s@.len(),
{
    let chars = str_chars(s);
    let n = chars.len();
    let d = scan_char(&chars, 0, ' ');
    proof {
        assert(s@.subrange(0, n as int) =~= s@);
        assert(s@.take(d as int) =~= s@.subrange(0, d as int));
    }
    let w = s.substring_char(0, d);
    if !word_has_coarse_unit(w) {
        return String::new();
    }
    if d == n {
        return w.to_owned();
    }
    let tail = s.substring_char(d + 1, n);
    proof {
        assert(s@.skip(d + 1) =~= s@.subrange(d + 1, n as int));
    }
    let rest = trunc_units(tail);
    if rest.unicode_len() == 0 {
        w.to_owned()
    } else {
        let mut out = w.to_owned();
        out.append(" ");
        out.append(rest.as_str());
        out
    }
}

/// Render a duration for people: the coarse words of the outside
/// formatter's rendering, down to milliseconds and no finer.
pub fn duration(d: Duration) -> (r: String)
    ensures
        r@ == spec_display_duration(d.nanos),
{
    let rendered = format_human(&d);
    trunc_units(rendered.as_str())
}

} // verus!
