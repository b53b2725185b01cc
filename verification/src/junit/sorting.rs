//! Optional stable reordering of the collected suites by elapsed time,
//! ascending or descending.  Ties keep their arrival order in either
//! direction, and on tie-free input the two directions are exact reversals
//! of each other; both facts are proved below.

use vstd::prelude::*;
use vstd::multiset::Multiset;
use vstd::relations::sorted_by;
use vstd::seq_lib::lemma_multiset_commutative;
use vstd::seq_lib::group_to_multiset_ensures;
use super::cli::{ReportSorting, SortingOrder};
use super::{SuiteWithSummary, SummaryWith, TestSuite};

verus! {

broadcast use {vstd::seq_lib::group_filter_ensures, group_to_multiset_ensures};

/// The sort key: the suite summary's elapsed time.
pub open spec fn suite_key(ws: SummaryWith<TestSuite>) -> u64 {
    ws.summary.time.nanos
}

/// The order relation the sorted list obeys.
pub open spec fn key_le(a: SummaryWith<TestSuite>, b: SummaryWith<TestSuite>, order: SortingOrder) -> bool {
    match order {
        SortingOrder::Asc => suite_key(a) <= suite_key(b),
        SortingOrder::Desc => suite_key(b) <= suite_key(a),
    }
}

/// Insert `x` behind every element that may stay before it — behind equal
/// keys too, which is what makes the sort stable.
pub open spec fn spec_insert(
    u: Seq<SummaryWith<TestSuite>>,
    x: SummaryWith<TestSuite>,
    order: SortingOrder,
) -> Seq<SummaryWith<TestSuite>>
    decreases u.len(),
{
    if u.len() == 0 {
        seq![x]
    } else if !key_le(u[0], x, order) {
        seq![x] + u
    } else {
        seq![u[0]] + spec_insert(u.drop_first(), x, order)
    }
}

/// Stable insertion sort of the suite list, left to right.
pub open spec fn spec_sort(s: Seq<SummaryWith<TestSuite>>, order: SortingOrder) -> Seq<
    SummaryWith<TestSuite>,
> {
    s.fold_left(
        Seq::<SummaryWith<TestSuite>>::empty(),
        |acc: Seq<SummaryWith<TestSuite>>, x: SummaryWith<TestSuite>| spec_insert(acc, x, order),
    )
}

pub open spec fn order_of(sorting: ReportSorting) -> SortingOrder {
    match sorting {
        ReportSorting::Time(o) => o,
    }
}

/// Compare two suites under the chosen direction.
fn key_le_exec(a: &SuiteWithSummary, b: &SuiteWithSummary, order: &SortingOrder) -> (r: bool)
    ensures
        r == key_le(*a, *b, *order),
{
    match order {
        SortingOrder::Asc => a.summary.time.nanos <= b.summary.time.nanos,
        SortingOrder::Desc => b.summary.time.nanos <= a.summary.time.nanos,
    }
}

/// Inserting at the boundary the scan found is what `spec_insert` means.
proof fn lemma_insert_at(
    u: Seq<SummaryWith<TestSuite>>,
    x: SummaryWith<TestSuite>,
    j: int,
    order: SortingOrder,
)
    requires
        0 <= j <= u.len(),
        forall|i: int| 0 <= i < j ==> key_le(#[trigger] u[i], x, order),
        j < u.len() ==> !key_le(u[j], x, order),
    ensures
        spec_insert(u, x, order) == u.take(j) + seq![x] + u.skip(j),
    decreases u.len(),
{
    if u.len() == 0 {
        assert(spec_insert(u, x, order) =~= u.take(j) + seq![x] + u.skip(j));
    } else if j == 0 {
        assert(!key_le(u[0], x, order));
        assert(u.take(0) =~= Seq::<SummaryWith<TestSuite>>::empty());
        assert(u.skip(0) =~= u);
        assert(spec_insert(u, x, order) =~= u.take(0) + seq![x] + u.skip(0));
    } else {
        assert(key_le(u[0], x, order));
        let rest = u.drop_first();
        assert(forall|i: int| 0 <= i < j - 1 ==> key_le(#[trigger] rest[i], x, order)) by {
            assert(forall|i: int| 0 <= i < rest.len() ==> rest[i] == u[i + 1]);
        }
        lemma_insert_at(rest, x, j - 1, order);
        assert(seq![u[0]] + (rest.take(j - 1) + seq![x] + rest.skip(j - 1)) =~= u.take(j)
            + seq![x] + u.skip(j));
    }
}

/// Sort the collected suites by elapsed time, stably, in the given
/// direction.
pub fn sort_testsuites(suites: &mut Vec<SuiteWithSummary>, sorting: &ReportSorting)
    ensures
        final(suites)@ == spec_sort(old(suites)@, order_of(*sorting)),
{
    let order = match sorting {
        ReportSorting::Time(o) => *o,
    };
    let ghost input = old(suites)@;
    let mut out: Vec<SuiteWithSummary> = Vec::new();
    loop
        invariant
            suites@ =~= input.skip(input.len() - suites@.len()),
            suites@.len() <= input.len(),
            out@ == spec_sort(input.take(input.len() - suites@.len()), order),
            order == order_of(*sorting),
        ensures
            suites@.len() == 0,
        decreases suites@.len(),
    {
        let ghost k = input.len() - suites@.len();
        if suites.len() == 0 {
            break ;
        }
        let x = suites.remove(0);
        proof {
            assert(input.skip(k)[0] == input[k]);
            assert(x == input[k]);
            assert(suites@ =~= input.skip(k + 1));
        }
        let mut j: usize = 0;
        while j < out.len() && key_le_exec(&out[j], &x, &order)
            invariant
                0 <= j <= out@.len(),
                forall|i: int| 0 <= i < j ==> key_le(#[trigger] out@[i], x, order),
            decreases out@.len() - j,
        {
            j = j + 1;
        }
        let ghost before = out@;
        out.insert(j, x);
        proof {
            lemma_insert_at(before, x, j as int, order);
            assert(out@ =~= before.take(j as int) + seq![x] + before.skip(j as int));
            assert(input.take(k + 1).drop_last() =~= input.take(k));
            assert(input.take(k + 1).last() == input[k]);
        }
    }
    proof {
        assert(input.take(input.len() as int) =~= input);
    }
    *suites = out;
}

/// `key_le` is a total ordering for either direction.
proof fn lemma_key_le_total(order: SortingOrder)
    ensures
        forall|a: SummaryWith<TestSuite>, b: SummaryWith<TestSuite>|
            key_le(a, b, order) || #[trigger] key_le(b, a, order),
        forall|a: SummaryWith<TestSuite>, b: SummaryWith<TestSuite>, c: SummaryWith<TestSuite>|
            #[trigger] key_le(a, b, order) && #[trigger] key_le(b, c, order) ==> key_le(
                a,
                c,
                order,
            ),
{
}

/// Inserting into a sorted list keeps it sorted.
proof fn lemma_insert_sorted(
    u: Seq<SummaryWith<TestSuite>>,
    x: SummaryWith<TestSuite>,
    order: SortingOrder,
)
    requires
        sorted_by(u, |a: SummaryWith<TestSuite>, b: SummaryWith<TestSuite>| key_le(a, b, order)),
    ensures
        sorted_by(
            spec_insert(u, x, order),
            |a: SummaryWith<TestSuite>, b: SummaryWith<TestSuite>| key_le(a, b, order),
        ),
    decreases u.len(),
{
    let leq = |a: SummaryWith<TestSuite>, b: SummaryWith<TestSuite>| key_le(a, b, order);
    lemma_key_le_total(order);
    if u.len() == 0 {
    } else if !key_le(u[0], x, order) {
        let r = seq![x] + u;
        assert forall|i: int, j: int| 0 <= i < j < r.len() implies leq(r[i], r[j]) by {
            if i == 0 {
                assert(key_le(x, u[0], order));
                if j > 1 {
                    assert(leq(u[0], u[j - 1]));
                }
            } else {
                assert(leq(u[i - 1], u[j - 1]));
            }
        }
    } else {
        let rest = u.drop_first();
        assert(sorted_by(rest, leq)) by {
            assert(forall|i: int| 0 <= i < rest.len() ==> rest[i] == u[i + 1]);
            assert forall|i: int, j: int| 0 <= i < j < rest.len() implies leq(rest[i], rest[j]) by {
                assert(leq(u[i + 1], u[j + 1]));
            }
        }
        lemma_insert_sorted(rest, x, order);
        let ins = spec_insert(rest, x, order);
        let r = seq![u[0]] + ins;
        // the head may stay before everything that follows it
        assert forall|q: int| 0 <= q < ins.len() implies leq(u[0], ins[q]) by {
            lemma_insert_members(rest, x, order);
            if ins[q] == x {
                assert(key_le(u[0], x, order));
            } else {
                let m = choose|m: int| 0 <= m < rest.len() && rest[m] == ins[q];
                assert(leq(u[0], u[m + 1]));
            }
        }
        assert forall|i: int, j: int| 0 <= i < j < r.len() implies leq(r[i], r[j]) by {
            if i == 0 {
                assert(leq(u[0], ins[j - 1]));
            } else {
                assert(leq(ins[i - 1], ins[j - 1]));
            }
        }
    }
}

/// Everything in an insertion's result is the new element or an old one.
proof fn lemma_insert_members(
    u: Seq<SummaryWith<TestSuite>>,
    x: SummaryWith<TestSuite>,
    order: SortingOrder,
)
    ensures
        forall|q: int|
            0 <= q < spec_insert(u, x, order).len() ==> (#[trigger] spec_insert(u, x, order)[q]
                == x || exists|m: int| 0 <= m < u.len() && u[m] == spec_insert(u, x, order)[q]),
    decreases u.len(),
{
    if u.len() == 0 {
    } else if !key_le(u[0], x, order) {
        assert forall|q: int| 0 <= q < spec_insert(u, x, order).len() implies (
        #[trigger] spec_insert(u, x, order)[q] == x || exists|m: int|
            0 <= m < u.len() && u[m] == spec_insert(u, x, order)[q]) by {
            if q > 0 {
                assert(u[q - 1] == spec_insert(u, x, order)[q]);
            }
        }
    } else {
        let rest = u.drop_first();
        lemma_insert_members(rest, x, order);
        let ins = spec_insert(rest, x, order);
        assert forall|q: int| 0 <= q < spec_insert(u, x, order).len() implies (
        #[trigger] spec_insert(u, x, order)[q] == x || exists|m: int|
            0 <= m < u.len() && u[m] == spec_insert(u, x, order)[q]) by {
            if q == 0 {
                assert(u[0] == spec_insert(u, x, order)[0]);
            } else {
                assert(spec_insert(u, x, order)[q] == ins[q - 1]);
                if ins[q - 1] != x {
                    let m = choose|m: int| 0 <= m < rest.len() && rest[m] == ins[q - 1];
                    assert(u[m + 1] == ins[q - 1]);
                }
            }
        }
    }
}

/// The sorted list is sorted by the chosen direction's order.
pub proof fn lemma_sort_sorted(s: Seq<SummaryWith<TestSuite>>, order: SortingOrder)
    ensures
        sorted_by(
            spec_sort(s, order),
            |a: SummaryWith<TestSuite>, b: SummaryWith<TestSuite>| key_le(a, b, order),
        ),
    decreases s.len(),
{
    if s.len() == 0 {
    } else {
        lemma_sort_sorted(s.drop_last(), order);
        lemma_insert_sorted(spec_sort(s.drop_last(), order), s.last(), order);
    }
}

/// Insertion adds exactly the new element to the multiset.
proof fn lemma_insert_multiset(
    u: Seq<SummaryWith<TestSuite>>,
    x: SummaryWith<TestSuite>,
    order: SortingOrder,
)
    ensures
        spec_insert(u, x, order).to_multiset() == u.to_multiset().insert(x),
    decreases u.len(),
{
    if u.len() == 0 {
        assert(seq![x].to_multiset() =~= Seq::<SummaryWith<TestSuite>>::empty().to_multiset().insert(
            x,
        ));
        assert(u.to_multiset() =~= Seq::<SummaryWith<TestSuite>>::empty().to_multiset());
    } else if !key_le(u[0], x, order) {
        lemma_multiset_commutative(seq![x], u);
        assert(seq![x].to_multiset() =~= Multiset::<SummaryWith<TestSuite>>::empty().insert(x));
        assert((seq![x] + u).to_multiset() =~= u.to_multiset().insert(x));
    } else {
        let rest = u.drop_first();
        lemma_insert_multiset(rest, x, order);
        lemma_multiset_commutative(seq![u[0]], spec_insert(rest, x, order));
        lemma_multiset_commutative(seq![u[0]], rest);
        assert(seq![u[0]] + rest =~= u);
        assert(seq![u[0]].to_multiset() =~= Multiset::<SummaryWith<TestSuite>>::empty().insert(
            u[0],
        ));
        assert((seq![u[0]] + spec_insert(rest, x, order)).to_multiset() =~= u.to_multiset().insert(
            x,
        ));
    }
}

/// Sorting permutes: the sorted list holds exactly the input suites.
pub proof fn lemma_sort_permutes(s: Seq<SummaryWith<TestSuite>>, order: SortingOrder)
    ensures
        spec_sort(s, order).to_multiset() == s.to_multiset(),
    decreases s.len(),
{
    if s.len() == 0 {
        assert(spec_sort(s, order) =~= s);
    } else {
        lemma_sort_permutes(s.drop_last(), order);
        lemma_insert_multiset(spec_sort(s.drop_last(), order), s.last(), order);
        assert(s.drop_last().push(s.last()) =~= s);
        assert(s.drop_last().push(s.last()).to_multiset() == s.drop_last().to_multiset().insert(
            s.last(),
        ));
    }
}

/// Two lists sorted the same way, holding the same suites, with no repeated
/// key in the first, are the same list.
proof fn lemma_sorted_unique_by_key(
    x: Seq<SummaryWith<TestSuite>>,
    y: Seq<SummaryWith<TestSuite>>,
    order: SortingOrder,
)
    requires
        sorted_by(x, |a: SummaryWith<TestSuite>, b: SummaryWith<TestSuite>| key_le(a, b, order)),
        sorted_by(y, |a: SummaryWith<TestSuite>, b: SummaryWith<TestSuite>| key_le(a, b, order)),
        x.to_multiset() == y.to_multiset(),
        forall|i: int, j: int|
            0 <= i < j < x.len() ==> suite_key(#[trigger] x[i]) != suite_key(#[trigger] x[j]),
    ensures
        x =~= y,
    decreases x.len(),
{
    let leq = |a: SummaryWith<TestSuite>, b: SummaryWith<TestSuite>| key_le(a, b, order);
    x.to_multiset_ensures();
    y.to_multiset_ensures();
    if x.len() == 0 {
        assert(y.to_multiset().len() == 0);
    } else {
        assert(y.to_multiset().len() == x.to_multiset().len());
        assert(y.len() > 0);
        // the two heads carry the same key, so they are the same element
        assert(x.to_multiset().contains(y[0])) by {
            assert(y.to_multiset().contains(y[0]));
        }
        let p = choose|p: int| 0 <= p < x.len() && x[p] == y[0];
        assert(leq(x[0], x[p]) || p == 0);
        assert(y.to_multiset().contains(x[0]));
        let q = choose|q: int| 0 <= q < y.len() && y[q] == x[0];
        assert(leq(y[0], y[q]) || q == 0);
        assert(key_le(x[0], y[0], order) && key_le(y[0], x[0], order));
        assert(suite_key(x[0]) == suite_key(y[0]));
        assert(x[0] == y[0]) by {
            if p != 0 {
                assert(suite_key(x[0]) != suite_key(x[p]));
            }
        }
        let xr = x.drop_first();
        let yr = y.drop_first();
        assert(xr.to_multiset() =~= x.to_multiset().remove(x[0])) by {
            assert(xr =~= x.remove(0));
            vstd::seq_lib::to_multiset_remove(x, 0);
        }
        assert(yr.to_multiset() =~= y.to_multiset().remove(y[0])) by {
            assert(yr =~= y.remove(0));
            vstd::seq_lib::to_multiset_remove(y, 0);
        }
        assert(sorted_by(xr, leq) && sorted_by(yr, leq)) by {
            assert(forall|i: int| 0 <= i < xr.len() ==> xr[i] == x[i + 1]);
            assert(forall|i: int| 0 <= i < yr.len() ==> yr[i] == y[i + 1]);
            assert forall|i: int, j: int| 0 <= i < j < xr.len() implies leq(xr[i], xr[j]) by {
                assert(leq(x[i + 1], x[j + 1]));
            }
            assert forall|i: int, j: int| 0 <= i < j < yr.len() implies leq(yr[i], yr[j]) by {
                assert(leq(y[i + 1], y[j + 1]));
            }
        }
        assert(forall|i: int, j: int|
            0 <= i < j < xr.len() ==> suite_key(#[trigger] xr[i]) != suite_key(
                #[trigger] xr[j],
            )) by {
            assert(forall|i: int| 0 <= i < xr.len() ==> xr[i] == x[i + 1]);
        }
        lemma_sorted_unique_by_key(xr, yr, order);
        assert(x =~= seq![x[0]] + xr);
        assert(y =~= seq![y[0]] + yr);
    }
}

/// With no two suites sharing an elapsed time, the descending sort is the
/// exact reversal of the ascending sort.
pub proof fn lemma_sort_desc_is_reverse_asc(s: Seq<SummaryWith<TestSuite>>)
    requires
        forall|i: int, j: int|
            0 <= i < j < s.len() ==> suite_key(#[trigger] s[i]) != suite_key(#[trigger] s[j]),
    ensures
        spec_sort(s, SortingOrder::Desc) =~= spec_sort(s, SortingOrder::Asc).reverse(),
{
    let asc = spec_sort(s, SortingOrder::Asc);
    let desc = spec_sort(s, SortingOrder::Desc);
    lemma_sort_sorted(s, SortingOrder::Asc);
    lemma_sort_sorted(s, SortingOrder::Desc);
    lemma_sort_permutes(s, SortingOrder::Asc);
    lemma_sort_permutes(s, SortingOrder::Desc);
    let leq_desc = |a: SummaryWith<TestSuite>, b: SummaryWith<TestSuite>| key_le(
        a,
        b,
        SortingOrder::Desc,
    );
    // the reversed ascending order is descending
    assert(sorted_by(asc.reverse(), leq_desc)) by {
        let leq_asc = |a: SummaryWith<TestSuite>, b: SummaryWith<TestSuite>| key_le(
            a,
            b,
            SortingOrder::Asc,
        );
        assert forall|i: int, j: int| 0 <= i < j < asc.reverse().len() implies leq_desc(
            asc.reverse()[i],
            asc.reverse()[j],
        ) by {
            assert(asc.reverse()[i] == asc[asc.len() - 1 - i]);
            assert(asc.reverse()[j] == asc[asc.len() - 1 - j]);
            assert(leq_asc(asc[asc.len() - 1 - j], asc[asc.len() - 1 - i]));
        }
    }
    asc.lemma_reverse_to_multiset();
    // the descending sort has no repeated key either
    assert(forall|i: int, j: int|
        0 <= i < j < desc.len() ==> suite_key(#[trigger] desc[i]) != suite_key(
            #[trigger] desc[j],
        )) by {
        lemma_no_dup_keys_transfers(s, desc);
    }
    lemma_sorted_unique_by_key(desc, asc.reverse(), SortingOrder::Desc);
}

/// A permutation of a list without repeated keys has no repeated keys.
proof fn lemma_no_dup_keys_transfers(
    s: Seq<SummaryWith<TestSuite>>,
    t: Seq<SummaryWith<TestSuite>>,
)
    requires
        s.to_multiset() == t.to_multiset(),
        forall|i: int, j: int|
            0 <= i < j < s.len() ==> suite_key(#[trigger] s[i]) != suite_key(#[trigger] s[j]),
    ensures
        forall|i: int, j: int|
            0 <= i < j < t.len() ==> suite_key(#[trigger] t[i]) != suite_key(#[trigger] t[j]),
    decreases s.len(),
{
    s.to_multiset_ensures();
    t.to_multiset_ensures();
    assert forall|i: int, j: int| 0 <= i < j < t.len() implies suite_key(#[trigger] t[i])
        != suite_key(#[trigger] t[j]) by {
        if suite_key(t[i]) == suite_key(t[j]) {
            if t[i] == t[j] {
                // the same element twice: its count is at least two
                let t1 = t.remove(i);
                vstd::seq_lib::to_multiset_remove(t, i);
                assert(t1.to_multiset() == t.to_multiset().remove(t[i]));
                assert(t1[j - 1] == t[j]);
                t1.to_multiset_ensures();
                assert(t1.to_multiset().contains(t[j]));
                assert(s.to_multiset().count(t[i]) >= 2);
                let p = choose|p: int| 0 <= p < s.len() && s[p] == t[i];
                let s1 = s.remove(p);
                vstd::seq_lib::to_multiset_remove(s, p);
                s1.to_multiset_ensures();
                assert(s1.to_multiset().count(t[i]) >= 1);
                let q = choose|q: int| 0 <= q < s1.len() && s1[q] == t[i];
                if q < p {
                    assert(s[q] == s1[q]);
                    assert(suite_key(s[q]) == suite_key(s[p]));
                } else {
                    assert(s[q + 1] == s1[q]);
                    assert(suite_key(s[q + 1]) == suite_key(s[p]));
                }
            } else {
                let p = choose|p: int| 0 <= p < s.len() && s[p] == t[i];
                let q = choose|q: int| 0 <= q < s.len() && s[q] == t[j];
                assert(s.to_multiset().contains(t[i]));
                assert(s.to_multiset().contains(t[j]));
                assert(p != q);
                assert(suite_key(s[p]) == suite_key(s[q]));
                if p < q {
                } else {
                }
            }
        }
    }
}

/// Sorting a list and sorting it again with the same direction changes
/// nothing more: ties keep their relative order.  For every key, the
/// subsequence of suites carrying that key is left exactly as it arrived.
pub proof fn lemma_sort_stable(s: Seq<SummaryWith<TestSuite>>, order: SortingOrder, k: u64)
    ensures
        spec_sort(s, order).filter(|e: SummaryWith<TestSuite>| suite_key(e) == k) == s.filter(
            |e: SummaryWith<TestSuite>| suite_key(e) == k,
        ),
    decreases s.len(),
{
    reveal(Seq::filter);
    let p = |e: SummaryWith<TestSuite>| suite_key(e) == k;
    if s.len() == 0 {
        assert(spec_sort(s, order) =~= s);
    } else {
        lemma_sort_stable(s.drop_last(), order, k);
        lemma_sort_sorted(s.drop_last(), order);
        lemma_insert_filter(spec_sort(s.drop_last(), order), s.last(), order, k);
    }
}

/// Inserting into a sorted list appends the new element to its key's
/// subsequence and leaves every other key's subsequence alone.
proof fn lemma_insert_filter(
    u: Seq<SummaryWith<TestSuite>>,
    x: SummaryWith<TestSuite>,
    order: SortingOrder,
    k: u64,
)
    requires
        sorted_by(u, |a: SummaryWith<TestSuite>, b: SummaryWith<TestSuite>| key_le(a, b, order)),
    ensures
        spec_insert(u, x, order).filter(|e: SummaryWith<TestSuite>| suite_key(e) == k) == if
        suite_key(x) == k {
            u.filter(|e: SummaryWith<TestSuite>| suite_key(e) == k).push(x)
        } else {
            u.filter(|e: SummaryWith<TestSuite>| suite_key(e) == k)
        },
    decreases u.len(),
{
    reveal(Seq::filter);
    let p = |e: SummaryWith<TestSuite>| suite_key(e) == k;
    let leq = |a: SummaryWith<TestSuite>, b: SummaryWith<TestSuite>| key_le(a, b, order);
    lemma_key_le_total(order);
    if u.len() == 0 {
        assert(seq![x].drop_last() =~= u);
        assert(u.filter(p) =~= Seq::<SummaryWith<TestSuite>>::empty());
        if p(x) {
            assert(seq![x].filter(p) =~= u.filter(p).push(x));
        } else {
            assert(seq![x].filter(p) =~= u.filter(p));
        }
    } else if !key_le(u[0], x, order) {
        // everything in u comes strictly after x, so no key of u equals x's;
        // if x carries key k, nothing in u does
        Seq::filter_distributes_over_add(seq![x], u, p);
        assert(seq![x].drop_last() =~= Seq::<SummaryWith<TestSuite>>::empty());
        if p(x) {
            assert(u.filter(p) =~= Seq::<SummaryWith<TestSuite>>::empty()) by {
                if u.filter(p).len() > 0 {
                    let e = u.filter(p)[0];
                    assert(p(e));
                    u.lemma_filter_contains_rev(p, e);
                    let m = choose|m: int| 0 <= m < u.len() && u[m] == e;
                    assert(leq(u[0], u[m]) || m == 0);
                    assert(suite_key(e) == suite_key(x));
                    assert(false);
                }
            }
            assert(seq![x].filter(p) =~= Seq::<SummaryWith<TestSuite>>::empty().push(x));
            assert((seq![x] + u).filter(p) =~= u.filter(p).push(x));
        } else {
            assert(Seq::<SummaryWith<TestSuite>>::empty().filter(p)
                =~= Seq::<SummaryWith<TestSuite>>::empty());
            assert(seq![x].filter(p) =~= Seq::<SummaryWith<TestSuite>>::empty());
            assert((seq![x] + u).filter(p) =~= u.filter(p));
        }
    } else {
        let rest = u.drop_first();
        assert(sorted_by(rest, leq)) by {
            assert(forall|i: int| 0 <= i < rest.len() ==> rest[i] == u[i + 1]);
            assert forall|i: int, j: int| 0 <= i < j < rest.len() implies leq(rest[i], rest[j]) by {
                assert(leq(u[i + 1], u[j + 1]));
            }
        }
        lemma_insert_filter(rest, x, order, k);
        let ins = spec_insert(rest, x, order);
        Seq::filter_distributes_over_add(seq![u[0]], ins, p);
        Seq::filter_distributes_over_add(seq![u[0]], rest, p);
        assert(seq![u[0]] + rest =~= u);
        assert(seq![u[0]].drop_last() =~= Seq::<SummaryWith<TestSuite>>::empty());
        if p(x) {
            assert(seq![u[0]].filter(p) + rest.filter(p).push(x) =~= (seq![u[0]].filter(p)
                + rest.filter(p)).push(x));
        }
    }
}

} // verus!
