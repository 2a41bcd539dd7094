//! Monthly usage, derived from the daily records: per calendar month, the
//! energy total and the number of billed days.
//!
//! The derivation is proved against the reading series itself: the monthly
//! total equals the filtered sum of the month's readings, and the day count
//! equals the number of distinct billed days falling in the month.

use vstd::prelude::*;

use crate::aggregate::{daily_match, DailyUsage};
use crate::model::{
    billing_day_keys, billing_day_keys_in_month, day_pred, day_total, lemma_keys_contains,
    lemma_sum_where_bound, lemma_sum_where_congruent, lemma_sum_where_none,
    lemma_sum_where_split, month_pred, month_total, month_keys, reading_ok, readings_ok,
    sum_where, Reading, MAX_READINGS,
};
use crate::time::{
    lemma_date_key_month, month_key_of, month_key_of_date_key, pack_month_key,
};

verus! {

/// Usage of one calendar month: total energy in micro-kilowatt-hours and
/// the number of billed days the month contributed.
#[derive(Clone, Copy, Debug, PartialEq, Eq, Structural)]
pub struct MonthlyUsage {
    pub year: i32,
    pub month: u32,
    /// Total energy of the month, in micro-kilowatt-hours.
    pub total_energy: i64,
    /// Number of distinct billed days of the month.
    pub day_count: usize,
}

impl MonthlyUsage {
    /// The packed month key of the record's month.
    pub open spec fn key(self) -> int {
        pack_month_key(self.year as int, self.month as int)
    }

    /// The record names a well-formed month.
    pub open spec fn wf(self) -> bool {
        0 <= self.year <= 9999 && 1 <= self.month <= 12
    }

    /// The packed month key of the record's month, as an executable value.
    pub fn month_key(&self) -> (k: i64)
        requires
            self.wf(),
        ensures
            k == self.key(),
    {
        month_key_of(self.year, self.month)
    }
}

impl DailyUsage {
    /// The packed month key of the month the daily record falls in.
    pub open spec fn mkey(self) -> int {
        pack_month_key(self.year as int, self.month as int)
    }
}

/// Sum of the daily totals of the records that fall in month `mk`.
pub open spec fn days_total_in_month(d: Seq<DailyUsage>, mk: int) -> int
    decreases d.len(),
{
    if d.len() == 0 {
        0
    } else {
        days_total_in_month(d.drop_last(), mk) + if d.last().mkey() == mk {
            d.last().total as int
        } else {
            0int
        }
    }
}

/// Number of daily records that fall in month `mk`.
pub open spec fn days_count_in_month(d: Seq<DailyUsage>, mk: int) -> int
    decreases d.len(),
{
    if d.len() == 0 {
        0
    } else {
        days_count_in_month(d.drop_last(), mk) + if d.last().mkey() == mk {
            1int
        } else {
            0int
        }
    }
}

/// Readings whose day is one of the records of `d` that fall in month `mk`.
pub open spec fn sel_pred(d: Seq<DailyUsage>, mk: int) -> spec_fn(Reading) -> bool {
    |r: Reading| exists|j: int|
        0 <= j < d.len() && r.ts.date_key() == (#[trigger] d[j]).key() && d[j].mkey() == mk
}

/// The date keys of the records of `d` that fall in month `mk`.
pub open spec fn day_keys_in_month_of(d: Seq<DailyUsage>, mk: int) -> Set<int> {
    Set::new(
        |k: int| exists|j: int|
            0 <= j < d.len() && (#[trigger] d[j]).key() == k && d[j].mkey() == mk,
    )
}

/// Daily records with well-formed dates and pairwise distinct days whose
/// totals are the day sums of `s`: what the bridge lemmas below need of the
/// daily list, and what any prefix of a matching daily list provides.
pub open spec fn days_describe(s: Seq<Reading>, d: Seq<DailyUsage>) -> bool {
    &&& forall|j: int| 0 <= j < d.len() ==> (#[trigger] d[j]).wf()
    &&& forall|j: int, jj: int|
        #![trigger d[j].key(), d[jj].key()]
        0 <= j < jj < d.len() ==> d[j].key() != d[jj].key()
    &&& forall|j: int| 0 <= j < d.len() ==> (#[trigger] d[j]).total == day_total(s, d[j].key())
}

/// A month's worth of daily totals is the filtered sum of the readings
/// whose day is one of those records.
pub proof fn lemma_days_total_sel(s: Seq<Reading>, d: Seq<DailyUsage>, mk: int)
    requires
        days_describe(s, d),
    ensures
        sum_where(s, sel_pred(d, mk)) == days_total_in_month(d, mk),
    decreases d.len(),
{
    if d.len() == 0 {
        assert(forall|i: int| 0 <= i < s.len() ==> !(sel_pred(d, mk)(#[trigger] s[i])));
        lemma_sum_where_none(s, sel_pred(d, mk));
    } else {
        let d0 = d.drop_last();
        let last = d.last();
        assert(forall|j: int| 0 <= j < d0.len() ==> d0[j] == d[j]);
        lemma_days_total_sel(s, d0, mk);
        if last.mkey() == mk {
            assert forall|r: Reading| #[trigger] sel_pred(d, mk)(r) == (sel_pred(d0, mk)(r)
                || day_pred(last.key())(r)) by {
                if sel_pred(d, mk)(r) {
                    let j = choose|j: int|
                        0 <= j < d.len() && r.ts.date_key() == (#[trigger] d[j]).key()
                            && d[j].mkey() == mk;
                    if j < d.len() - 1 {
                        assert(sel_pred(d0, mk)(r));
                    } else {
                        assert(day_pred(last.key())(r));
                    }
                }
                if sel_pred(d0, mk)(r) {
                    let j = choose|j: int|
                        0 <= j < d0.len() && r.ts.date_key() == (#[trigger] d0[j]).key()
                            && d0[j].mkey() == mk;
                    assert(d[j].key() == d0[j].key() && d[j].mkey() == d0[j].mkey());
                    assert(sel_pred(d, mk)(r));
                }
                if day_pred(last.key())(r) {
                    assert(d[d.len() - 1].key() == last.key() && d[d.len() - 1].mkey() == mk);
                    assert(sel_pred(d, mk)(r));
                }
            }
            assert forall|r: Reading| !(#[trigger] sel_pred(d0, mk)(r) && day_pred(
                last.key(),
            )(r)) by {
                if sel_pred(d0, mk)(r) && day_pred(last.key())(r) {
                    let j = choose|j: int|
                        0 <= j < d0.len() && r.ts.date_key() == (#[trigger] d0[j]).key()
                            && d0[j].mkey() == mk;
                    assert(d[j].key() == d[d.len() - 1].key());
                    assert(false);
                }
            }
            lemma_sum_where_split(s, sel_pred(d, mk), sel_pred(d0, mk), day_pred(last.key()));
            assert(last.total == day_total(s, last.key()));
        } else {
            assert forall|i: int| 0 <= i < s.len() implies sel_pred(d, mk)(
                #[trigger] s[i],
            ) == sel_pred(d0, mk)(s[i]) by {
                let r = s[i];
                if sel_pred(d, mk)(r) {
                    let j = choose|j: int|
                        0 <= j < d.len() && r.ts.date_key() == (#[trigger] d[j]).key()
                            && d[j].mkey() == mk;
                    assert(j < d.len() - 1);
                    assert(sel_pred(d0, mk)(r));
                }
                if sel_pred(d0, mk)(r) {
                    let j = choose|j: int|
                        0 <= j < d0.len() && r.ts.date_key() == (#[trigger] d0[j]).key()
                            && d0[j].mkey() == mk;
                    assert(d[j].key() == d0[j].key() && d[j].mkey() == d0[j].mkey());
                    assert(sel_pred(d, mk)(r));
                }
            }
            lemma_sum_where_congruent(s, sel_pred(d, mk), sel_pred(d0, mk));
        }
    }
}

/// A month with no daily record has zero total and zero count.
pub proof fn lemma_days_month_none(d: Seq<DailyUsage>, mk: int)
    requires
        forall|j: int| 0 <= j < d.len() ==> (#[trigger] d[j]).mkey() != mk,
    ensures
        days_total_in_month(d, mk) == 0,
        days_count_in_month(d, mk) == 0,
    decreases d.len(),
{
    if d.len() > 0 {
        assert(forall|j: int| 0 <= j < d.len() - 1 ==> d.drop_last()[j] == d[j]);
        lemma_days_month_none(d.drop_last(), mk);
        assert(d[d.len() - 1].mkey() != mk);
    }
}

/// The monthly total of the daily records equals the month's filtered sum
/// over the readings, when the daily records describe the readings.
pub proof fn lemma_days_total_bridge(s: Seq<Reading>, d: Seq<DailyUsage>, mk: int)
    requires
        readings_ok(s),
        daily_match(s, d),
    ensures
        days_total_in_month(d, mk) == month_total(s, mk),
{
    lemma_days_total_sel(s, d, mk);
    assert forall|i: int| 0 <= i < s.len() implies sel_pred(d, mk)(#[trigger] s[i])
        == month_pred(mk)(s[i]) by {
        let r = s[i];
        assert(reading_ok(r));
        lemma_date_key_month(r.ts.year as int, r.ts.month as int, r.ts.day as int);
        if sel_pred(d, mk)(r) {
            let j = choose|j: int|
                0 <= j < d.len() && r.ts.date_key() == (#[trigger] d[j]).key() && d[j].mkey()
                    == mk;
            lemma_date_key_month(d[j].year as int, d[j].month as int, d[j].day as int);
            assert(r.ts.month_key() == mk);
        }
        if month_pred(mk)(r) {
            lemma_keys_contains(s, r.ts.date_key());
            assert(billing_day_keys(s).contains(r.ts.date_key()));
            let j = choose|j: int| 0 <= j < d.len() && (#[trigger] d[j]).key()
                == r.ts.date_key();
            lemma_date_key_month(d[j].year as int, d[j].month as int, d[j].day as int);
            assert(d[j].mkey() == mk);
            assert(sel_pred(d, mk)(r));
        }
    }
    lemma_sum_where_congruent(s, sel_pred(d, mk), month_pred(mk));
}

/// The count of daily records in a month equals the size of the set of
/// their date keys, and that set is finite.
pub proof fn lemma_days_count_set(d: Seq<DailyUsage>, mk: int)
    requires
        forall|j: int, jj: int|
            #![trigger d[j].key(), d[jj].key()]
            0 <= j < jj < d.len() ==> d[j].key() != d[jj].key(),
    ensures
        day_keys_in_month_of(d, mk).finite(),
        day_keys_in_month_of(d, mk).len() == days_count_in_month(d, mk),
    decreases d.len(),
{
    broadcast use vstd::set::group_set_axioms;

    if d.len() == 0 {
        assert(day_keys_in_month_of(d, mk) =~= Set::empty());
    } else {
        let d0 = d.drop_last();
        let last = d.last();
        assert(forall|j: int| 0 <= j < d0.len() ==> d0[j] == d[j]);
        lemma_days_count_set(d0, mk);
        if last.mkey() == mk {
            assert forall|k: int|
                day_keys_in_month_of(d, mk).contains(k) == day_keys_in_month_of(
                d0,
                mk,
            ).insert(last.key()).contains(k) by {
                if day_keys_in_month_of(d, mk).contains(k) {
                    let j = choose|j: int|
                        0 <= j < d.len() && (#[trigger] d[j]).key() == k && d[j].mkey() == mk;
                    if j < d.len() - 1 {
                        assert(d0[j].key() == k && d0[j].mkey() == mk);
                        assert(day_keys_in_month_of(d0, mk).contains(k));
                    }
                }
                if day_keys_in_month_of(d0, mk).contains(k) {
                    let j = choose|j: int|
                        0 <= j < d0.len() && (#[trigger] d0[j]).key() == k && d0[j].mkey()
                            == mk;
                    assert(d[j].key() == k && d[j].mkey() == mk);
                    assert(day_keys_in_month_of(d, mk).contains(k));
                }
                if k == last.key() {
                    assert(d[d.len() - 1].key() == k && d[d.len() - 1].mkey() == mk);
                    assert(day_keys_in_month_of(d, mk).contains(k));
                }
            }
            assert(day_keys_in_month_of(d, mk) =~= day_keys_in_month_of(d0, mk).insert(
                last.key(),
            ));
            if day_keys_in_month_of(d0, mk).contains(last.key()) {
                let j = choose|j: int|
                    0 <= j < d0.len() && (#[trigger] d0[j]).key() == last.key() && d0[j].mkey()
                        == mk;
                assert(d[j].key() == d[d.len() - 1].key());
                assert(false);
            }
        } else {
            assert forall|k: int|
                day_keys_in_month_of(d, mk).contains(k) == day_keys_in_month_of(
                d0,
                mk,
            ).contains(k) by {
                if day_keys_in_month_of(d, mk).contains(k) {
                    let j = choose|j: int|
                        0 <= j < d.len() && (#[trigger] d[j]).key() == k && d[j].mkey() == mk;
                    assert(j < d.len() - 1);
                    assert(d0[j].key() == k && d0[j].mkey() == mk);
                }
                if day_keys_in_month_of(d0, mk).contains(k) {
                    let j = choose|j: int|
                        0 <= j < d0.len() && (#[trigger] d0[j]).key() == k && d0[j].mkey()
                            == mk;
                    assert(d[j].key() == k && d[j].mkey() == mk);
                }
            }
            assert(day_keys_in_month_of(d, mk) =~= day_keys_in_month_of(d0, mk));
        }
    }
}

/// The day count of a month among the daily records equals the number of
/// distinct billed days of the readings falling in that month.
pub proof fn lemma_days_count_bridge(s: Seq<Reading>, d: Seq<DailyUsage>, mk: int)
    requires
        readings_ok(s),
        daily_match(s, d),
    ensures
        days_count_in_month(d, mk) == billing_day_keys_in_month(s, mk).len(),
{
    lemma_days_count_set(d, mk);
    assert forall|k: int|
        day_keys_in_month_of(d, mk).contains(k) == billing_day_keys_in_month(s, mk).contains(
        k,
    ) by {
        if day_keys_in_month_of(d, mk).contains(k) {
            let j = choose|j: int|
                0 <= j < d.len() && (#[trigger] d[j]).key() == k && d[j].mkey() == mk;
            lemma_date_key_month(d[j].year as int, d[j].month as int, d[j].day as int);
            assert(billing_day_keys(s).contains(k));
            assert(month_key_of_date_key(k) == mk);
        }
        if billing_day_keys_in_month(s, mk).contains(k) {
            assert(billing_day_keys(s).contains(k));
            let j = choose|j: int| 0 <= j < d.len() && (#[trigger] d[j]).key() == k;
            lemma_date_key_month(d[j].year as int, d[j].month as int, d[j].day as int);
            assert(d[j].mkey() == mk);
            assert(day_keys_in_month_of(d, mk).contains(k));
        }
    }
    assert(day_keys_in_month_of(d, mk) =~= billing_day_keys_in_month(s, mk));
}

/// The monthly records that describe a reading sequence: strictly sorted
/// by month, one record per month with a reading, the energy total and the
/// billed-day count of each equal to the month's values over the readings.
pub open spec fn months_match(s: Seq<Reading>, m: Seq<MonthlyUsage>) -> bool {
    &&& forall|j: int, k: int|
        #![trigger m[j].key(), m[k].key()]
        0 <= j < k < m.len() ==> m[j].key() < m[k].key()
    &&& forall|j: int| 0 <= j < m.len() ==> (#[trigger] m[j]).wf()
    &&& forall|j: int| 0 <= j < m.len() ==> month_keys(s).contains(#[trigger] m[j].key())
    &&& forall|k: int|
        month_keys(s).contains(k) ==> exists|j: int| 0 <= j < m.len() && #[trigger] m[j].key()
            == k
    &&& forall|j: int|
        0 <= j < m.len() ==> (#[trigger] m[j]).total_energy == month_total(s, m[j].key())
    &&& forall|j: int|
        0 <= j < m.len() ==> (#[trigger] m[j]).day_count == billing_day_keys_in_month(
            s,
            m[j].key(),
        ).len()
}

/// Once every daily record is folded in, the day-level description of the
/// monthly records becomes the reading-level one.
proof fn lemma_months_finalize(s: Seq<Reading>, d: Seq<DailyUsage>, m: Seq<MonthlyUsage>)
    requires
        readings_ok(s),
        daily_match(s, d),
        months_partial(d, m),
    ensures
        months_match(s, m),
{
    assert forall|j: int| 0 <= j < m.len() implies month_keys(s).contains(
        #[trigger] m[j].key(),
    ) by {
        let jj = choose|jj: int|
            0 <= jj < d.len() && (#[trigger] d[jj]).mkey() == m[j].key();
        lemma_keys_contains(s, d[jj].key());
        let ri = choose|ri: int|
            0 <= ri < s.len() && #[trigger] s[ri].ts.date_key() == d[jj].key();
        lemma_date_key_month(d[jj].year as int, d[jj].month as int, d[jj].day as int);
        lemma_date_key_month(
            s[ri].ts.year as int,
            s[ri].ts.month as int,
            s[ri].ts.day as int,
        );
        assert(s[ri].ts.month_key() == m[j].key());
        lemma_keys_contains(s, m[j].key());
    }
    assert forall|k: int| month_keys(s).contains(k) implies exists|j: int|
        0 <= j < m.len() && #[trigger] m[j].key() == k by {
        lemma_keys_contains(s, k);
        let ri = choose|ri: int|
            0 <= ri < s.len() && #[trigger] s[ri].ts.month_key() == k;
        lemma_keys_contains(s, s[ri].ts.date_key());
        assert(billing_day_keys(s).contains(s[ri].ts.date_key()));
        let jj = choose|jj: int|
            0 <= jj < d.len() && (#[trigger] d[jj]).key() == s[ri].ts.date_key();
        lemma_date_key_month(d[jj].year as int, d[jj].month as int, d[jj].day as int);
        lemma_date_key_month(
            s[ri].ts.year as int,
            s[ri].ts.month as int,
            s[ri].ts.day as int,
        );
        assert(d[jj].mkey() == k);
        let j = choose|j: int| 0 <= j < m.len() && #[trigger] m[j].key() == (d[jj]).mkey();
        assert(m[j].key() == k);
    }
    assert forall|j: int| 0 <= j < m.len() implies (#[trigger] m[j]).total_energy
        == month_total(s, m[j].key()) && (m[j]).day_count == billing_day_keys_in_month(
        s,
        m[j].key(),
    ).len() by {
        lemma_days_total_bridge(s, d, m[j].key());
        lemma_days_count_bridge(s, d, m[j].key());
    }
}

/// Some daily record of `dp` falls in the month with key `k`.
pub open spec fn has_day_month(dp: Seq<DailyUsage>, k: int) -> bool {
    exists|jj: int| 0 <= jj < dp.len() && #[trigger] dp[jj].mkey() == k
}

/// Some monthly record of `m` carries the month key `k`.
pub open spec fn has_month_rec(m: Seq<MonthlyUsage>, k: int) -> bool {
    exists|j: int| 0 <= j < m.len() && #[trigger] m[j].key() == k
}

/// Partial description used while folding: the monthly records agree with
/// the daily records seen so far.
pub open spec fn months_partial(dp: Seq<DailyUsage>, m: Seq<MonthlyUsage>) -> bool {
    &&& forall|j: int, k: int|
        #![trigger m[j].key(), m[k].key()]
        0 <= j < k < m.len() ==> m[j].key() < m[k].key()
    &&& forall|j: int| 0 <= j < m.len() ==> (#[trigger] m[j]).wf()
    &&& forall|j: int|
        0 <= j < m.len() ==> has_day_month(dp, (#[trigger] m[j]).key())
    &&& forall|jj: int|
        0 <= jj < dp.len() ==> has_month_rec(m, (#[trigger] dp[jj]).mkey())
    &&& forall|j: int|
        0 <= j < m.len() ==> (#[trigger] m[j]).total_energy == days_total_in_month(
            dp,
            m[j].key(),
        )
    &&& forall|j: int|
        0 <= j < m.len() ==> (#[trigger] m[j]).day_count == days_count_in_month(
            dp,
            m[j].key(),
        )
    &&& forall|j: int| 0 <= j < m.len() ==> (#[trigger] m[j]).day_count <= dp.len()
}

/// Folding one more daily record into an existing monthly record keeps the
/// day-level description.
#[verifier::spinoff_prover]
#[verifier::rlimit(100)]
proof fn lemma_months_update(
    dprefix: Seq<DailyUsage>,
    nextd: DailyUsage,
    mold: Seq<MonthlyUsage>,
    mnew: Seq<MonthlyUsage>,
    idx: int,
    u1: MonthlyUsage,
    k: int,
)
    requires
        months_partial(dprefix, mold),
        0 <= idx < mold.len(),
        mold[idx].key() == k,
        nextd.mkey() == k,
        u1.year == mold[idx].year && u1.month == mold[idx].month,
        u1.total_energy == mold[idx].total_energy + nextd.total,
        u1.day_count == mold[idx].day_count + 1,
        mnew == mold.update(idx, u1),
    ensures
        months_partial(dprefix.push(nextd), mnew),
{
    let dp2 = dprefix.push(nextd);
    assert(dp2.drop_last() =~= dprefix);
    assert(dp2.last() == nextd);
    assert(u1.key() == k);
    assert forall|j: int| 0 <= j < mold.len() && j != idx implies (#[trigger] mold[j]).key()
        != k by {
        if j < idx {
            assert(mold[j].key() < mold[idx].key());
        } else {
            assert(mold[idx].key() < mold[j].key());
        }
    }
    assert forall|jj: int|
        #![trigger dp2[jj].mkey()]
        0 <= jj < dp2.len() implies exists|j: int| 0 <= j < mnew.len()
            && #[trigger] mnew[j].key() == dp2[jj].mkey() by {
        if jj < dprefix.len() {
            assert(dp2[jj] == dprefix[jj]);
            let j = choose|j: int|
                0 <= j < mold.len() && #[trigger] mold[j].key() == (dprefix[jj]).mkey();
            assert(mnew[j].key() == mold[j].key());
        } else {
            assert(mnew[idx].key() == nextd.mkey());
        }
    }
    assert forall|j: int|
        #![trigger mnew[j].key()]
        0 <= j < mnew.len() implies exists|jj: int| 0 <= jj < dp2.len()
            && (#[trigger] dp2[jj]).mkey() == mnew[j].key() by {
        if j == idx {
            assert(dp2[dprefix.len() as int].mkey() == mnew[j].key());
        } else {
            assert(mnew[j] == mold[j]);
            let jj = choose|jj: int|
                0 <= jj < dprefix.len() && (#[trigger] dprefix[jj]).mkey() == mold[j].key();
            assert(dp2[jj].mkey() == mnew[j].key());
        }
    }
    assert forall|j: int| 0 <= j < mnew.len() implies (#[trigger] mnew[j]).total_energy
        == days_total_in_month(dp2, mnew[j].key()) && mnew[j].day_count
        == days_count_in_month(dp2, mnew[j].key()) && mnew[j].day_count <= dp2.len() by {
        if j == idx {
            assert(mnew[j] == u1);
            assert(days_total_in_month(dp2, k) == days_total_in_month(dprefix, k)
                + nextd.total as int);
            assert(days_count_in_month(dp2, k) == days_count_in_month(dprefix, k) + 1);
        } else {
            assert(mnew[j] == mold[j]);
            assert(mold[j].key() != k);
            assert(days_total_in_month(dp2, mold[j].key()) == days_total_in_month(
                dprefix,
                mold[j].key(),
            ));
            assert(days_count_in_month(dp2, mold[j].key()) == days_count_in_month(
                dprefix,
                mold[j].key(),
            ));
        }
    }
}

/// After inserting a record with key `k` at `idx`, the monthly list is
/// still strictly sorted and well-formed.
#[verifier::spinoff_prover]
#[verifier::rlimit(100)]
proof fn lemma_months_insert_order(
    mold: Seq<MonthlyUsage>,
    mnew: Seq<MonthlyUsage>,
    idx: int,
    u1: MonthlyUsage,
    k: int,
)
    requires
        forall|j: int, kk: int|
            #![trigger mold[j].key(), mold[kk].key()]
            0 <= j < kk < mold.len() ==> mold[j].key() < mold[kk].key(),
        forall|j: int| 0 <= j < mold.len() ==> (#[trigger] mold[j]).wf(),
        0 <= idx <= mold.len(),
        forall|j: int| 0 <= j < idx ==> (#[trigger] mold[j]).key() < k,
        forall|j: int| idx <= j < mold.len() ==> (#[trigger] mold[j]).key() > k,
        u1.wf(),
        u1.key() == k,
        mnew == mold.insert(idx, u1),
    ensures
        forall|j: int, kk: int|
            #![trigger mnew[j].key(), mnew[kk].key()]
            0 <= j < kk < mnew.len() ==> mnew[j].key() < mnew[kk].key(),
        forall|j: int| 0 <= j < mnew.len() ==> (#[trigger] mnew[j]).wf(),
{
    assert(forall|m: int| 0 <= m < idx ==> mnew[m] == mold[m]);
    assert(mnew[idx] == u1);
    assert(forall|m: int| idx < m < mnew.len() ==> mnew[m] == mold[m - 1]);
    assert forall|j: int, jj: int|
        #![trigger mnew[j].key(), mnew[jj].key()]
        0 <= j < jj < mnew.len() implies mnew[j].key() < mnew[jj].key() by {
        if jj < idx {
        } else if j == idx {
            assert(mnew[jj] == mold[jj - 1]);
            assert(mold[jj - 1].key() > k);
        } else if jj == idx {
            assert(mnew[j] == mold[j]);
        } else if j < idx {
            assert(mnew[j] == mold[j] && mnew[jj] == mold[jj - 1]);
            if jj - 1 == j {
                assert(mold[j].key() < k && mold[jj - 1].key() > k);
            }
        } else {
            assert(mnew[j] == mold[j - 1] && mnew[jj] == mold[jj - 1]);
        }
    }
}

/// After inserting the new month's record, months and daily records still
/// cover each other.
#[verifier::spinoff_prover]
#[verifier::rlimit(100)]
proof fn lemma_months_insert_cover(
    dprefix: Seq<DailyUsage>,
    nextd: DailyUsage,
    mold: Seq<MonthlyUsage>,
    mnew: Seq<MonthlyUsage>,
    idx: int,
    u1: MonthlyUsage,
    k: int,
)
    requires
        months_partial(dprefix, mold),
        0 <= idx <= mold.len(),
        nextd.mkey() == k,
        u1.key() == k,
        mnew == mold.insert(idx, u1),
    ensures
        forall|j: int|
            #![trigger mnew[j].key()]
            0 <= j < mnew.len() ==> exists|jj: int|
                0 <= jj < dprefix.push(nextd).len() && (#[trigger] dprefix.push(
                nextd,
                )[jj]).mkey() == mnew[j].key(),
        forall|jj: int|
            #![trigger dprefix.push(nextd)[jj].mkey()]
            0 <= jj < dprefix.push(nextd).len() ==> exists|j: int|
                0 <= j < mnew.len() && #[trigger] mnew[j].key() == (dprefix.push(
                nextd,
                )[jj]).mkey(),
{
    let dp2 = dprefix.push(nextd);
    assert(forall|m: int| 0 <= m < idx ==> mnew[m] == mold[m]);
    assert(mnew[idx] == u1);
    assert(forall|m: int| idx < m < mnew.len() ==> mnew[m] == mold[m - 1]);
    assert forall|jj: int|
        #![trigger dp2[jj].mkey()]
        0 <= jj < dp2.len() implies exists|j: int| 0 <= j < mnew.len()
            && #[trigger] mnew[j].key() == dp2[jj].mkey() by {
        if jj < dprefix.len() {
            assert(dp2[jj] == dprefix[jj]);
            let j = choose|j: int|
                0 <= j < mold.len() && #[trigger] mold[j].key() == (dprefix[jj]).mkey();
            if j < idx {
                assert(mnew[j].key() == (dprefix[jj]).mkey());
            } else {
                assert(mnew[j + 1].key() == (dprefix[jj]).mkey());
            }
        } else {
            assert(mnew[idx].key() == nextd.mkey());
        }
    }
    assert forall|j: int|
        #![trigger mnew[j].key()]
        0 <= j < mnew.len() implies exists|jj: int| 0 <= jj < dp2.len()
            && (#[trigger] dp2[jj]).mkey() == mnew[j].key() by {
        if j == idx {
            assert(dp2[dprefix.len() as int].mkey() == mnew[j].key());
        } else {
            let jold: int = if j < idx {
                j
            } else {
                j - 1
            };
            assert(mnew[j] == mold[jold]);
            let jj = choose|jj: int|
                0 <= jj < dprefix.len() && (#[trigger] dprefix[jj]).mkey() == mold[
                    jold].key();
            assert(dp2[jj].mkey() == mnew[j].key());
        }
    }
}

/// After inserting the new month's record, every record still holds its
/// month's total and day count.
#[verifier::spinoff_prover]
#[verifier::rlimit(100)]
proof fn lemma_months_insert_values(
    dprefix: Seq<DailyUsage>,
    nextd: DailyUsage,
    mold: Seq<MonthlyUsage>,
    mnew: Seq<MonthlyUsage>,
    idx: int,
    u1: MonthlyUsage,
    k: int,
)
    requires
        months_partial(dprefix, mold),
        0 <= idx <= mold.len(),
        forall|j: int| 0 <= j < idx ==> (#[trigger] mold[j]).key() < k,
        forall|j: int| idx <= j < mold.len() ==> (#[trigger] mold[j]).key() > k,
        nextd.mkey() == k,
        u1.key() == k,
        u1.total_energy == nextd.total,
        u1.day_count == 1,
        mnew == mold.insert(idx, u1),
    ensures
        forall|j: int|
            0 <= j < mnew.len() ==> (#[trigger] mnew[j]).total_energy
                == days_total_in_month(dprefix.push(nextd), mnew[j].key()),
        forall|j: int|
            0 <= j < mnew.len() ==> (#[trigger] mnew[j]).day_count == days_count_in_month(
                dprefix.push(nextd),
                mnew[j].key(),
            ),
        forall|j: int|
            0 <= j < mnew.len() ==> (#[trigger] mnew[j]).day_count <= dprefix.push(
                nextd,
            ).len(),
{
    let dp2 = dprefix.push(nextd);
    assert(dp2.drop_last() =~= dprefix);
    assert(dp2.last() == nextd);
    assert(forall|m: int| 0 <= m < idx ==> mnew[m] == mold[m]);
    assert(mnew[idx] == u1);
    assert(forall|m: int| idx < m < mnew.len() ==> mnew[m] == mold[m - 1]);
    assert forall|jj: int| 0 <= jj < dprefix.len() implies (#[trigger] dprefix[jj]).mkey()
        != k by {
        if dprefix[jj].mkey() == k {
            let j = choose|j: int|
                0 <= j < mold.len() && #[trigger] mold[j].key() == (dprefix[jj]).mkey();
            assert(false);
        }
    }
    lemma_days_month_none(dprefix, k);
    assert forall|j: int| 0 <= j < mnew.len() implies (#[trigger] mnew[j]).total_energy
        == days_total_in_month(dp2, mnew[j].key()) && mnew[j].day_count
        == days_count_in_month(dp2, mnew[j].key()) && mnew[j].day_count <= dp2.len() by {
        if j == idx {
            assert(days_total_in_month(dp2, k) == days_total_in_month(dprefix, k)
                + nextd.total as int);
            assert(days_count_in_month(dp2, k) == days_count_in_month(dprefix, k) + 1);
        } else {
            let jold: int = if j < idx {
                j
            } else {
                j - 1
            };
            assert(mnew[j] == mold[jold]);
            assert(mold[jold].key() != k);
            assert(days_total_in_month(dp2, mold[jold].key()) == days_total_in_month(
                dprefix,
                mold[jold].key(),
            ));
            assert(days_count_in_month(dp2, mold[jold].key()) == days_count_in_month(
                dprefix,
                mold[jold].key(),
            ));
        }
    }
}

/// Opening a new monthly record for a daily record of a month not seen yet
/// keeps the day-level description.
#[verifier::spinoff_prover]
proof fn lemma_months_insert(
    dprefix: Seq<DailyUsage>,
    nextd: DailyUsage,
    mold: Seq<MonthlyUsage>,
    mnew: Seq<MonthlyUsage>,
    idx: int,
    u1: MonthlyUsage,
    k: int,
)
    requires
        months_partial(dprefix, mold),
        0 <= idx <= mold.len(),
        forall|j: int| 0 <= j < idx ==> (#[trigger] mold[j]).key() < k,
        forall|j: int| idx <= j < mold.len() ==> (#[trigger] mold[j]).key() > k,
        nextd.mkey() == k,
        nextd.wf(),
        u1.year == nextd.year && u1.month == nextd.month,
        u1.total_energy == nextd.total,
        u1.day_count == 1,
        mnew == mold.insert(idx, u1),
    ensures
        months_partial(dprefix.push(nextd), mnew),
{
    assert(u1.key() == k);
    assert(u1.wf());
    lemma_months_insert_order(mold, mnew, idx, u1, k);
    lemma_months_insert_cover(dprefix, nextd, mold, mnew, idx, u1, k);
    lemma_months_insert_values(dprefix, nextd, mold, mnew, idx, u1, k);
    let dp2 = dprefix.push(nextd);
    assert(forall|j: int, kk: int|
        #![trigger mnew[j].key(), mnew[kk].key()]
        0 <= j < kk < mnew.len() ==> mnew[j].key() < mnew[kk].key());
    assert(forall|j: int| 0 <= j < mnew.len() ==> (#[trigger] mnew[j]).wf());
    assert forall|j: int|
        #![trigger mnew[j].key()]
        0 <= j < mnew.len() implies exists|jj: int|
        0 <= jj < dprefix.push(nextd).len() && (#[trigger] dprefix.push(
        nextd,
    )[jj]).mkey() == mnew[j].key() by {
        let kj = mnew[j].key();
        assert(0 <= j < mnew.len());
    }
    assert forall|jj: int|
        #![trigger dprefix.push(nextd)[jj].mkey()]
        0 <= jj < dprefix.push(nextd).len() implies exists|j: int|
        0 <= j < mnew.len() && #[trigger] mnew[j].key() == (dprefix.push(
        nextd,
    )[jj]).mkey() by {
        let kj = dprefix.push(nextd)[jj].mkey();
        assert(0 <= jj < dprefix.push(nextd).len());
    }
    assert(forall|j: int|
        0 <= j < mnew.len() ==> (#[trigger] mnew[j]).total_energy == days_total_in_month(
            dp2,
            mnew[j].key(),
        ));
    assert(forall|j: int|
        0 <= j < mnew.len() ==> (#[trigger] mnew[j]).day_count == days_count_in_month(
            dp2,
            mnew[j].key(),
        ));
    assert(forall|j: int| 0 <= j < mnew.len() ==> (#[trigger] mnew[j]).day_count
        <= dp2.len());
}

/// Finds where the month with month key `k` stands, or should stand, in
/// the sorted monthly list: the first position whose key is not below `k`.
fn find_usage_slot(m: &Vec<MonthlyUsage>, k: i64) -> (r: (usize, bool))
    requires
        forall|j: int, jj: int|
            #![trigger m@[j].key(), m@[jj].key()]
            0 <= j < jj < m@.len() ==> m@[j].key() < m@[jj].key(),
        forall|j: int| 0 <= j < m@.len() ==> (#[trigger] m@[j]).wf(),
    ensures
        r.0 <= m@.len(),
        forall|j: int| 0 <= j < r.0 ==> (#[trigger] m@[j]).key() < k,
        r.1 <==> (r.0 < m@.len() && m@[r.0 as int].key() == k),
        !r.1 && r.0 < m@.len() ==> m@[r.0 as int].key() > k,
{
    let mut idx: usize = 0;
    while idx < m.len() && m[idx].month_key() < k
        invariant
            idx <= m@.len(),
            forall|j: int| 0 <= j < idx ==> (#[trigger] m@[j]).key() < k,
            forall|j: int| 0 <= j < m@.len() ==> (#[trigger] m@[j]).wf(),
        decreases m@.len() - idx,
    {
        idx = idx + 1;
    }
    let found = idx < m.len() && m[idx].month_key() == k;
    (idx, found)
}

/// Groups the daily records by calendar month: energy totals summed, the
/// days counted, sorted chronologically. The result is pinned to the
/// reading series the daily records describe.
#[verifier::spinoff_prover]
#[verifier::rlimit(100)]
pub fn monthly_usage(d: &Vec<DailyUsage>, Ghost(s): Ghost<Seq<Reading>>) -> (m: Vec<
    MonthlyUsage,
>)
    requires
        readings_ok(s),
        daily_match(s, d@),
        d@.len() <= s.len(),
    ensures
        months_match(s, m@),
        m@.len() <= d@.len(),
{
    let mut m: Vec<MonthlyUsage> = Vec::new();
    let mut i: usize = 0;
    while i < d.len()
        invariant
            readings_ok(s),
            daily_match(s, d@),
            d@.len() <= s.len(),
            0 <= i <= d@.len(),
            months_partial(d@.take(i as int), m@),
            m@.len() <= i,
        decreases d@.len() - i,
    {
        let ghost dprefix = d@.take(i as int);
        let ghost nextd = d@[i as int];
        proof {
            assert(dprefix.push(nextd) =~= d@.take(i + 1));
            assert(forall|j: int| 0 <= j < dprefix.len() ==> dprefix[j] == d@[j]);
            assert(nextd.wf());
            assert(days_describe(s, dprefix));
        }
        let e = d[i];
        let k = month_key_of(e.year, e.month);
        let (idx, found) = find_usage_slot(&m, k);
        if found {
            proof {
                // Bound the running month total through the readings.
                lemma_days_total_sel(s, dprefix, k as int);
                lemma_sum_where_bound(s, sel_pred(dprefix, k as int));
                lemma_sum_where_bound(s, day_pred(nextd.key()));
                assert(nextd.total == day_total(s, nextd.key()));
            }
            let u0 = m[idx];
            let mut u1 = u0;
            u1.total_energy = u0.total_energy + e.total;
            u1.day_count = u0.day_count + 1;
            let ghost mold = m@;
            m[idx] = u1;
            proof {
                lemma_months_update(dprefix, nextd, mold, m@, idx as int, u1, k as int);
            }
        } else {
            let u1 = MonthlyUsage {
                year: e.year,
                month: e.month,
                total_energy: e.total,
                day_count: 1,
            };
            let ghost mold = m@;
            m.insert(idx, u1);
            proof {
                lemma_months_insert(dprefix, nextd, mold, m@, idx as int, u1, k as int);
            }
        }
        i = i + 1;
    }
    proof {
        assert(d@.take(d@.len() as int) =~= d@);
        lemma_months_finalize(s, d@, m@);
    }
    m
}

} // verus!
