//! The mathematical model of the reading series.
//!
//! A [`Reading`] is one row of the input: a timestamp and an energy amount
//! in micro-kilowatt-hours. The aggregates the rate plans consume are all
//! stated here as spec functions over the sequence of readings: filtered
//! sums, the set of billed days, and the per-month maximum reading.

use vstd::prelude::*;

use crate::period::{on_peak_spec, period_b_spec, PeriodB};
use crate::time::Timestamp;

verus! {

/// One energy reading: a civil timestamp and the energy metered in the
/// interval that ends at it, in micro-kilowatt-hours (signed; the engine
/// accepts zero and negative amounts).
#[derive(Clone, Copy, Debug, PartialEq, Eq, Structural)]
pub struct Reading {
    pub ts: Timestamp,
    /// Energy in micro-kilowatt-hours.
    pub energy: i64,
}

/// Largest magnitude of one reading the engine accepts, in micro-kilowatt-
/// hours (one million kilowatt-hours). Together with [`MAX_READINGS`] it
/// keeps every sum and price in the engine inside its integer type.
pub const MAX_READING_ENERGY: i64 = 1_000_000_000_000;

/// Largest number of readings the engine accepts in one run.
pub const MAX_READINGS: usize = 1_000_000;

/// A reading the engine can fold without overflow: a well-formed timestamp
/// and an energy within [`MAX_READING_ENERGY`].
pub open spec fn reading_ok(r: Reading) -> bool {
    &&& r.ts.valid()
    &&& -MAX_READING_ENERGY <= r.energy <= MAX_READING_ENERGY
}

/// A reading series the engine can fold without overflow.
pub open spec fn readings_ok(s: Seq<Reading>) -> bool {
    &&& s.len() <= MAX_READINGS
    &&& forall|i: int| 0 <= i < s.len() ==> reading_ok(#[trigger] s[i])
}

/// Sum of the energies of the readings satisfying `p`, in the order of the
/// sequence (the lemmas below show the order does not matter).
pub open spec fn sum_where(s: Seq<Reading>, p: spec_fn(Reading) -> bool) -> int
    decreases s.len(),
{
    if s.len() == 0 {
        0
    } else {
        sum_where(s.drop_last(), p) + if p(s.last()) {
            s.last().energy as int
        } else {
            0int
        }
    }
}

/// Readings dated on the day with date key `dk`.
pub open spec fn day_pred(dk: int) -> spec_fn(Reading) -> bool {
    |r: Reading| r.ts.date_key() == dk
}

/// Readings of day `dk` that scheme A classifies on-peak.
pub open spec fn day_on_a_pred(dk: int) -> spec_fn(Reading) -> bool {
    |r: Reading| r.ts.date_key() == dk && on_peak_spec(r.ts)
}

/// Readings of day `dk` that scheme A classifies off-peak.
pub open spec fn day_off_a_pred(dk: int) -> spec_fn(Reading) -> bool {
    |r: Reading| r.ts.date_key() == dk && !on_peak_spec(r.ts)
}

/// Readings of day `dk` in the given scheme B period.
pub open spec fn day_b_pred(dk: int, p: PeriodB) -> spec_fn(Reading) -> bool {
    |r: Reading| r.ts.date_key() == dk && period_b_spec(r.ts) == p
}

/// Readings in the month with month key `mk`.
pub open spec fn month_pred(mk: int) -> spec_fn(Reading) -> bool {
    |r: Reading| r.ts.month_key() == mk
}

/// Readings that scheme A classifies on-peak.
pub open spec fn on_a_pred() -> spec_fn(Reading) -> bool {
    |r: Reading| on_peak_spec(r.ts)
}

/// Readings that scheme A classifies off-peak.
pub open spec fn off_a_pred() -> spec_fn(Reading) -> bool {
    |r: Reading| !on_peak_spec(r.ts)
}

/// Readings in the given scheme B period.
pub open spec fn b_pred(p: PeriodB) -> spec_fn(Reading) -> bool {
    |r: Reading| period_b_spec(r.ts) == p
}

/// Total energy metered on day `dk`.
pub open spec fn day_total(s: Seq<Reading>, dk: int) -> int {
    sum_where(s, day_pred(dk))
}

/// Scheme A on-peak energy of day `dk`.
pub open spec fn day_on_a(s: Seq<Reading>, dk: int) -> int {
    sum_where(s, day_on_a_pred(dk))
}

/// Scheme A off-peak energy of day `dk`.
pub open spec fn day_off_a(s: Seq<Reading>, dk: int) -> int {
    sum_where(s, day_off_a_pred(dk))
}

/// Scheme B energy of day `dk` in period `p`.
pub open spec fn day_b(s: Seq<Reading>, dk: int, p: PeriodB) -> int {
    sum_where(s, day_b_pred(dk, p))
}

/// Total energy metered in month `mk`.
pub open spec fn month_total(s: Seq<Reading>, mk: int) -> int {
    sum_where(s, month_pred(mk))
}

/// The set of date keys on which at least one reading exists: the billed days.
pub open spec fn billing_day_keys(s: Seq<Reading>) -> Set<int> {
    s.map_values(|r: Reading| r.ts.date_key()).to_set()
}

/// The set of month keys in which at least one reading exists.
pub open spec fn month_keys(s: Seq<Reading>) -> Set<int> {
    s.map_values(|r: Reading| r.ts.month_key()).to_set()
}

/// The billed days that fall in month `mk`.
pub open spec fn billing_day_keys_in_month(s: Seq<Reading>, mk: int) -> Set<int> {
    billing_day_keys(s).filter(|dk: int| crate::time::month_key_of_date_key(dk) == mk)
}

/// Whether some reading falls in month `mk`.
pub open spec fn has_month(s: Seq<Reading>, mk: int) -> bool {
    exists|i: int| 0 <= i < s.len() && #[trigger] s[i].ts.month_key() == mk
}

/// The largest single reading of month `mk`, or `None` when the month has
/// no reading.
pub open spec fn month_peak(s: Seq<Reading>, mk: int) -> Option<int>
    decreases s.len(),
{
    if s.len() == 0 {
        None
    } else {
        let rest = month_peak(s.drop_last(), mk);
        let r = s.last();
        if r.ts.month_key() == mk {
            match rest {
                None => Some(r.energy as int),
                Some(m) => Some(if m >= r.energy { m } else { r.energy as int }),
            }
        } else {
            rest
        }
    }
}

/// Appending a reading adds its energy to a filtered sum when the filter
/// accepts it and leaves the sum unchanged otherwise.
pub proof fn lemma_sum_where_push(s: Seq<Reading>, r: Reading, p: spec_fn(Reading) -> bool)
    ensures
        sum_where(s.push(r), p) == sum_where(s, p) + if p(r) {
            r.energy as int
        } else {
            0int
        },
{
    assert(s.push(r).drop_last() =~= s);
    assert(s.push(r).last() == r);
}

/// Removing one reading takes exactly its contribution out of a filtered sum.
pub proof fn lemma_sum_where_remove(s: Seq<Reading>, i: int, p: spec_fn(Reading) -> bool)
    requires
        0 <= i < s.len(),
    ensures
        sum_where(s.remove(i), p) == sum_where(s, p) - if p(s[i]) {
            s[i].energy as int
        } else {
            0int
        },
    decreases s.len(),
{
    if i == s.len() - 1 {
        assert(s.remove(i) =~= s.drop_last());
    } else {
        let s2 = s.drop_last();
        lemma_sum_where_remove(s2, i, p);
        assert(s.remove(i).drop_last() =~= s2.remove(i));
        assert(s.remove(i).last() == s.last());
    }
}

/// Filtered sums do not depend on the order of the readings: any two
/// sequences holding the same readings (as a multiset) have the same sum.
pub proof fn lemma_sum_where_permutation(
    s1: Seq<Reading>,
    s2: Seq<Reading>,
    p: spec_fn(Reading) -> bool,
)
    requires
        s1.to_multiset() == s2.to_multiset(),
    ensures
        sum_where(s1, p) == sum_where(s2, p),
    decreases s1.len(),
{
    broadcast use vstd::seq_lib::group_to_multiset_ensures;

    if s1.len() == 0 {
        assert(s2.to_multiset().len() == 0);
    } else {
        let x = s1.last();
        assert(s1.contains(x));
        assert(s2.to_multiset().count(x) > 0);
        assert(s2.contains(x));
        let j = choose|j: int| 0 <= j < s2.len() && s2[j] == x;
        lemma_sum_where_remove(s2, j, p);
        assert(s1.drop_last() =~= s1.remove(s1.len() - 1));
        assert(s1.drop_last().to_multiset() == s2.remove(j).to_multiset());
        lemma_sum_where_permutation(s1.drop_last(), s2.remove(j), p);
    }
}

/// A filtered sum splits along any partition of its filter in two.
pub proof fn lemma_sum_where_split(
    s: Seq<Reading>,
    p: spec_fn(Reading) -> bool,
    q1: spec_fn(Reading) -> bool,
    q2: spec_fn(Reading) -> bool,
)
    requires
        forall|r: Reading| #[trigger] p(r) == (q1(r) || q2(r)),
        forall|r: Reading| !(#[trigger] q1(r) && q2(r)),
    ensures
        sum_where(s, p) == sum_where(s, q1) + sum_where(s, q2),
    decreases s.len(),
{
    if s.len() > 0 {
        lemma_sum_where_split(s.drop_last(), p, q1, q2);
        assert(p(s.last()) == (q1(s.last()) || q2(s.last())));
        assert(!(q1(s.last()) && q2(s.last())));
    }
}

/// Two filters that agree on every reading of the sequence give equal sums.
pub proof fn lemma_sum_where_congruent(
    s: Seq<Reading>,
    p: spec_fn(Reading) -> bool,
    q: spec_fn(Reading) -> bool,
)
    requires
        forall|i: int| 0 <= i < s.len() ==> p(#[trigger] s[i]) == q(s[i]),
    ensures
        sum_where(s, p) == sum_where(s, q),
    decreases s.len(),
{
    if s.len() > 0 {
        assert(forall|i: int| 0 <= i < s.len() - 1 ==> s.drop_last()[i] == s[i]);
        lemma_sum_where_congruent(s.drop_last(), p, q);
        assert(p(s[s.len() - 1]) == q(s[s.len() - 1]));
    }
}

/// A filter that rejects every reading of the sequence sums to zero.
pub proof fn lemma_sum_where_none(s: Seq<Reading>, p: spec_fn(Reading) -> bool)
    requires
        forall|i: int| 0 <= i < s.len() ==> !p(#[trigger] s[i]),
    ensures
        sum_where(s, p) == 0,
    decreases s.len(),
{
    if s.len() > 0 {
        assert(forall|i: int| 0 <= i < s.len() - 1 ==> s.drop_last()[i] == s[i]);
        lemma_sum_where_none(s.drop_last(), p);
        assert(!p(s[s.len() - 1]));
    }
}

/// Membership in the key sets is existence of a reading with that key.
pub proof fn lemma_keys_contains(s: Seq<Reading>, k: int)
    ensures
        billing_day_keys(s).contains(k) <==> exists|i: int|
            0 <= i < s.len() && #[trigger] s[i].ts.date_key() == k,
        month_keys(s).contains(k) <==> exists|i: int|
            0 <= i < s.len() && #[trigger] s[i].ts.month_key() == k,
{
    let fd = |r: Reading| r.ts.date_key();
    let fm = |r: Reading| r.ts.month_key();
    let md = s.map_values(fd);
    let mm = s.map_values(fm);
    if md.contains(k) {
        let i = choose|i: int| 0 <= i < md.len() && md[i] == k;
        assert(s[i].ts.date_key() == k);
    }
    if exists|i: int| 0 <= i < s.len() && #[trigger] s[i].ts.date_key() == k {
        let i = choose|i: int| 0 <= i < s.len() && #[trigger] s[i].ts.date_key() == k;
        assert(md[i] == k);
        assert(md.contains(k));
    }
    if mm.contains(k) {
        let i = choose|i: int| 0 <= i < mm.len() && mm[i] == k;
        assert(s[i].ts.month_key() == k);
    }
    if exists|i: int| 0 <= i < s.len() && #[trigger] s[i].ts.month_key() == k {
        let i = choose|i: int| 0 <= i < s.len() && #[trigger] s[i].ts.month_key() == k;
        assert(mm[i] == k);
        assert(mm.contains(k));
    }
}

/// The key sets of a reading sequence are finite.
pub proof fn lemma_keys_finite(s: Seq<Reading>)
    ensures
        billing_day_keys(s).finite(),
        month_keys(s).finite(),
{
    broadcast use vstd::seq_lib::seq_to_set_is_finite;

}

/// Appending a reading inserts its keys into the key sets.
pub proof fn lemma_keys_push(s: Seq<Reading>, r: Reading)
    ensures
        billing_day_keys(s.push(r)) == billing_day_keys(s).insert(r.ts.date_key()),
        month_keys(s.push(r)) == month_keys(s).insert(r.ts.month_key()),
{
    broadcast use Seq::<_>::lemma_push_to_set_commute;

    let fd = |r: Reading| r.ts.date_key();
    let fm = |r: Reading| r.ts.month_key();
    assert(s.push(r).map_values(fd) =~= s.map_values(fd).push(fd(r)));
    assert(s.push(r).map_values(fm) =~= s.map_values(fm).push(fm(r)));
    assert(billing_day_keys(s.push(r)) =~= billing_day_keys(s).insert(r.ts.date_key()));
    assert(month_keys(s.push(r)) =~= month_keys(s).insert(r.ts.month_key()));
}

/// Two sequences with the same readings contain the same elements.
pub proof fn lemma_same_elements(s1: Seq<Reading>, s2: Seq<Reading>)
    requires
        s1.to_multiset() == s2.to_multiset(),
    ensures
        forall|r: Reading| s1.contains(r) <==> s2.contains(r),
{
    broadcast use vstd::seq_lib::group_to_multiset_ensures;

    assert forall|r: Reading| s1.contains(r) <==> s2.contains(r) by {
        assert(s1.contains(r) <==> s1.to_multiset().count(r) > 0);
        assert(s2.contains(r) <==> s2.to_multiset().count(r) > 0);
    }
}

/// Value `v` is the energy of some reading of month `mk`.
pub open spec fn peak_attained(s: Seq<Reading>, mk: int, v: int) -> bool {
    exists|i: int|
        0 <= i < s.len() && #[trigger] s[i].ts.month_key() == mk && s[i].energy == v
}

/// Value `v` bounds the energy of every reading of month `mk`.
pub open spec fn peak_dominates(s: Seq<Reading>, mk: int, v: int) -> bool {
    forall|i: int| 0 <= i < s.len() && #[trigger] s[i].ts.month_key() == mk ==> s[i].energy <= v
}

/// `month_peak` returns a value exactly on months that occur, and the value
/// is the maximum energy metered in the month.
pub proof fn lemma_month_peak_characterization(s: Seq<Reading>, mk: int)
    ensures
        (month_peak(s, mk) is Some) <==> has_month(s, mk),
        month_peak(s, mk) is Some ==> peak_attained(s, mk, month_peak(s, mk)->Some_0),
        month_peak(s, mk) is Some ==> peak_dominates(s, mk, month_peak(s, mk)->Some_0),
    decreases s.len(),
{
    if s.len() > 0 {
        let s2 = s.drop_last();
        lemma_month_peak_characterization(s2, mk);
        assert(forall|i: int| 0 <= i < s2.len() ==> s2[i] == s[i]);
        if has_month(s2, mk) {
            let i = choose|i: int| 0 <= i < s2.len() && #[trigger] s2[i].ts.month_key() == mk;
            assert(s[i].ts.month_key() == mk);
        }
        if month_peak(s, mk) is Some {
            let v = month_peak(s, mk)->Some_0;
            if peak_attained(s2, mk, v) {
                let i = choose|i: int|
                    0 <= i < s2.len() && #[trigger] s2[i].ts.month_key() == mk && s2[i].energy
                        == v;
                assert(s[i].ts.month_key() == mk && s[i].energy == v);
            }
        }
    }
}

/// Appending a reading folds its energy into its month's peak with `max`
/// and leaves every other month's peak unchanged.
pub proof fn lemma_month_peak_push(s: Seq<Reading>, r: Reading, mk: int)
    ensures
        month_peak(s.push(r), mk) == (if r.ts.month_key() == mk {
            match month_peak(s, mk) {
                None => Some(r.energy as int),
                Some(m) => Some(if m >= r.energy { m } else { r.energy as int }),
            }
        } else {
            month_peak(s, mk)
        }),
{
    assert(s.push(r).drop_last() =~= s);
    assert(s.push(r).last() == r);
}

/// The maximum of a month is unique: any two values that are both attained
/// and dominating are equal.
pub proof fn lemma_peak_unique(s1: Seq<Reading>, s2: Seq<Reading>, mk: int, v1: int, v2: int)
    requires
        peak_attained(s1, mk, v1),
        peak_dominates(s1, mk, v1),
        peak_attained(s2, mk, v2),
        peak_dominates(s2, mk, v2),
        forall|r: Reading| s1.contains(r) <==> s2.contains(r),
    ensures
        v1 == v2,
{
    let i1 = choose|i: int|
        0 <= i < s1.len() && #[trigger] s1[i].ts.month_key() == mk && s1[i].energy == v1;
    assert(s1.contains(s1[i1]));
    let j1 = choose|j: int| 0 <= j < s2.len() && s2[j] == s1[i1];
    assert(v1 <= v2);
    let i2 = choose|i: int|
        0 <= i < s2.len() && #[trigger] s2[i].ts.month_key() == mk && s2[i].energy == v2;
    assert(s2.contains(s2[i2]));
    let j2 = choose|j: int| 0 <= j < s1.len() && s1[j] == s2[i2];
    assert(v2 <= v1);
}

/// The per-month maximum does not depend on the order of the readings.
pub proof fn lemma_month_peak_permutation(s1: Seq<Reading>, s2: Seq<Reading>, mk: int)
    requires
        s1.to_multiset() == s2.to_multiset(),
    ensures
        month_peak(s1, mk) == month_peak(s2, mk),
{
    lemma_same_elements(s1, s2);
    lemma_month_peak_characterization(s1, mk);
    lemma_month_peak_characterization(s2, mk);
    if has_month(s1, mk) {
        let i = choose|i: int| 0 <= i < s1.len() && #[trigger] s1[i].ts.month_key() == mk;
        assert(s1.contains(s1[i]));
        let j = choose|j: int| 0 <= j < s2.len() && s2[j] == s1[i];
        assert(has_month(s2, mk));
    }
    if has_month(s2, mk) {
        let i = choose|i: int| 0 <= i < s2.len() && #[trigger] s2[i].ts.month_key() == mk;
        assert(s2.contains(s2[i]));
        let j = choose|j: int| 0 <= j < s1.len() && s1[j] == s2[i];
        assert(has_month(s1, mk));
    }
    if month_peak(s1, mk) is Some {
        lemma_peak_unique(s1, s2, mk, month_peak(s1, mk)->Some_0, month_peak(s2, mk)->Some_0);
    }
}

/// The key sets do not depend on the order of the readings.
pub proof fn lemma_keys_permutation(s1: Seq<Reading>, s2: Seq<Reading>)
    requires
        s1.to_multiset() == s2.to_multiset(),
    ensures
        billing_day_keys(s1) == billing_day_keys(s2),
        month_keys(s1) == month_keys(s2),
{
    lemma_same_elements(s1, s2);
    assert forall|k: int| billing_day_keys(s1).contains(k) == billing_day_keys(s2).contains(
        k,
    ) by {
        lemma_keys_contains(s1, k);
        lemma_keys_contains(s2, k);
        if billing_day_keys(s1).contains(k) {
            let i = choose|i: int| 0 <= i < s1.len() && #[trigger] s1[i].ts.date_key() == k;
            assert(s1.contains(s1[i]));
            let j = choose|j: int| 0 <= j < s2.len() && s2[j] == s1[i];
        }
        if billing_day_keys(s2).contains(k) {
            let i = choose|i: int| 0 <= i < s2.len() && #[trigger] s2[i].ts.date_key() == k;
            assert(s2.contains(s2[i]));
            let j = choose|j: int| 0 <= j < s1.len() && s1[j] == s2[i];
        }
    }
    assert forall|k: int| month_keys(s1).contains(k) == month_keys(s2).contains(k) by {
        lemma_keys_contains(s1, k);
        lemma_keys_contains(s2, k);
        if month_keys(s1).contains(k) {
            let i = choose|i: int| 0 <= i < s1.len() && #[trigger] s1[i].ts.month_key() == k;
            assert(s1.contains(s1[i]));
            let j = choose|j: int| 0 <= j < s2.len() && s2[j] == s1[i];
        }
        if month_keys(s2).contains(k) {
            let i = choose|i: int| 0 <= i < s2.len() && #[trigger] s2[i].ts.month_key() == k;
            assert(s2.contains(s2[i]));
            let j = choose|j: int| 0 <= j < s1.len() && s1[j] == s2[i];
        }
    }
    assert(billing_day_keys(s1) =~= billing_day_keys(s2));
    assert(month_keys(s1) =~= month_keys(s2));
}

/// A filtered sum of in-range readings is bounded by the sequence length
/// times the largest accepted reading.
pub proof fn lemma_sum_where_bound(s: Seq<Reading>, p: spec_fn(Reading) -> bool)
    requires
        forall|i: int| 0 <= i < s.len() ==> reading_ok(#[trigger] s[i]),
    ensures
        -(s.len() as int) * (MAX_READING_ENERGY as int) <= sum_where(s, p) <= (s.len() as int)
            * (MAX_READING_ENERGY as int),
    decreases s.len(),
{
    if s.len() > 0 {
        assert(forall|i: int| 0 <= i < s.len() - 1 ==> s.drop_last()[i] == s[i]);
        lemma_sum_where_bound(s.drop_last(), p);
        assert(reading_ok(s[s.len() - 1]));
        assert((s.len() - 1) as int * (MAX_READING_ENERGY as int) + MAX_READING_ENERGY == (
        s.len() as int) * (MAX_READING_ENERGY as int)) by (nonlinear_arith);
    }
}

} // verus!
