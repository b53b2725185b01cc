//! How a sorting request is written down: `"time"` alone, or `"time"`
//! followed by a direction, compared without regard to ASCII case.

use vstd::prelude::*;
use crate::strutil::{first_index_of, scan_char, str_chars};

verus! {

#[derive(Debug, PartialEq, Eq, Clone, Copy, Structural)]
pub enum SortingOrder {
    Asc,
    Desc,
}

#[derive(Debug, PartialEq, Eq, Clone, Copy, Structural)]
pub enum ReportSorting {
    Time(SortingOrder),
}

/// Equality of two characters up to ASCII letter case.
pub open spec fn ci_char_eq(a: char, b: char) -> bool {
    ||| a == b
    ||| (97 <= a as int <= 122 && b as int == a as int - 32)
    ||| (65 <= a as int <= 90 && b as int == a as int + 32)
}

/// Equality of two strings up to ASCII letter case.
pub open spec fn ci_eq(a: Seq<char>, b: Seq<char>) -> bool {
    a.len() == b.len() && forall|i: int| 0 <= i < a.len() ==> ci_char_eq(#[trigger] a[i], b[i])
}

/// ASCII-case-insensitive string comparison.
pub fn ci_str_eq(a: &str, b: &str) -> (r: bool)
    ensures
        r == ci_eq(a@, b@),
{
    let na = a.unicode_len();
    let nb = b.unicode_len();
    if na != nb {
        return false;
    }
    let mut i: usize = 0;
    while i < na
        invariant
            i <= na,
            na == a@.len(),
            nb == b@.len(),
            na == nb,
            forall|j: int| 0 <= j < i ==> ci_char_eq(#[trigger] a@[j], b@[j]),
        decreases na - i,
    {
        let ca = a.get_char(i) as u32;
        let cb = b.get_char(i) as u32;
        let same = ca == cb || (97 <= ca && ca <= 122 && cb == ca - 32) || (65 <= ca && ca <= 90
            && cb == ca + 32);
        if !same {
            return false;
        }
        i = i + 1;
    }
    true
}

/// What a direction token denotes: `"asc"` or `"desc"` in any letter case.
pub open spec fn spec_sorting_order_from_str(s: Seq<char>) -> Option<SortingOrder> {
    if ci_eq(s, "ASC"@) {
        Some(SortingOrder::Asc)
    } else if ci_eq(s, "DESC"@) {
        Some(SortingOrder::Desc)
    } else {
        None
    }
}

impl SortingOrder {
    /// Decode a direction token; `None` on any other token.
    pub fn from_str(s: &str) -> (r: Option<SortingOrder>)
        ensures
            r == spec_sorting_order_from_str(s@),
    {
        if ci_str_eq(s, "ASC") {
            Some(SortingOrder::Asc)
        } else if ci_str_eq(s, "DESC") {
            Some(SortingOrder::Desc)
        } else {
            None
        }
    }
}

/// What a sorting request denotes.  The request is split at spaces; a lone
/// `"time"` sorts descending, `"time"` with a direction token sorts that
/// way, and anything else is rejected.
pub open spec fn spec_report_sorting_from_str(s: Seq<char>) -> Option<ReportSorting> {
    let d = first_index_of(s, ' ');
    if d == s.len() {
        if ci_eq(s, "TIME"@) {
            Some(ReportSorting::Time(SortingOrder::Desc))
        } else {
            None
        }
    } else {
        let c0 = s.take(d);
        let rest = s.skip(d + 1);
        let c1 = rest.take(first_index_of(rest, ' '));
        if ci_eq(c0, "TIME"@) {
            match spec_sorting_order_from_str(c1) {
                Some(o) => Some(ReportSorting::Time(o)),
                None => None,
            }
        } else {
            None
        }
    }
}

impl ReportSorting {
    /// Decode a sorting request; `None` on any other request.
    pub fn from_str(s: &str) -> (r: Option<ReportSorting>)
        ensures
            r == spec_report_sorting_from_str(s@),
    {
        let chars = str_chars(s);
        let n = chars.len();
        let d = scan_char(&chars, 0, ' ');
        proof {
            assert(s@.subrange(0, n as int) =~= s@);
        }
        if d == n {
            if ci_str_eq(s, "TIME") {
                Some(ReportSorting::Time(SortingOrder::Desc))
            } else {
                None
            }
        } else {
            let c0 = s.substring_char(0, d);
            let e = scan_char(&chars, d + 1, ' ');
            let c1 = s.substring_char(d + 1, e);
            proof {
                let rest = s@.skip(d + 1);
                assert(rest =~= s@.subrange(d + 1, n as int));
                assert(rest.take(first_index_of(rest, ' ')) =~= s@.subrange(d + 1, e as int));
                assert(s@.take(d as int) =~= s@.subrange(0, d as int));
            }
            if ci_str_eq(c0, "TIME") {
                match SortingOrder::from_str(c1) {
                    Some(o) => Some(ReportSorting::Time(o)),
                    None => None,
                }
            } else {
                None
            }
        }
    }
}

} // verus!
