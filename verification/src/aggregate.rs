//! The aggregator: one fold of the reading series into daily usage records,
//! per-month peak readings, per-month usage, and window-wide period totals.
//!
//! Every result is pinned to the spec functions of [`crate::model`], which
//! are proved order-independent there: the fold commutes with any
//! permutation of its input.

use vstd::prelude::*;

use crate::model::{
    b_pred, billing_day_keys, day_b, day_b_pred, day_off_a, day_off_a_pred, day_on_a,
    day_on_a_pred, day_pred, day_total, lemma_keys_push, lemma_sum_where_bound,
    lemma_sum_where_none, lemma_sum_where_push, month_keys, month_peak, off_a_pred,
    on_a_pred, reading_ok, readings_ok, sum_where, Reading, MAX_READINGS,
    MAX_READING_ENERGY,
};
use crate::period::{is_on_peak, is_super_off_peak, on_peak_spec, period_b_spec, PeriodB};
use crate::time::{date_key_of, date_valid, month_key_of, pack_date_key, pack_month_key};

verus! {

/// Largest magnitude a filtered sum of accepted readings can reach, in
/// micro-kilowatt-hours.
pub const MAX_TOTAL_ENERGY: i64 = 1_000_000_000_000_000_000;

/// Usage of one billed day, split by billing period under both schemes.
/// All energies are micro-kilowatt-hours.
#[derive(Clone, Copy, Debug, PartialEq, Eq, Structural)]
pub struct DailyUsage {
    pub year: i32,
    pub month: u32,
    pub day: u32,
    /// Scheme A on-peak energy of the day.
    pub tou_reo_on: i64,
    /// Scheme A off-peak energy of the day.
    pub tou_reo_off: i64,
    /// Scheme B on-peak energy of the day.
    pub tou_oa_on: i64,
    /// Scheme B off-peak energy of the day.
    pub tou_oa_off: i64,
    /// Scheme B super-off-peak energy of the day.
    pub tou_oa_super: i64,
    /// Total energy of the day.
    pub total: i64,
}

impl DailyUsage {
    /// The packed date key of the record's day.
    pub open spec fn key(self) -> int {
        pack_date_key(self.year as int, self.month as int, self.day as int)
    }

    /// The record names a well-formed calendar date.
    pub open spec fn wf(self) -> bool {
        date_valid(self.year as int, self.month as int, self.day as int)
    }

    /// A fresh record of a day with no energy accumulated yet.
    pub fn new(year: i32, month: u32, day: u32) -> (e: DailyUsage)
        requires
            date_valid(year as int, month as int, day as int),
        ensures
            e.wf(),
            e.year == year && e.month == month && e.day == day,
            e.tou_reo_on == 0 && e.tou_reo_off == 0,
            e.tou_oa_on == 0 && e.tou_oa_off == 0 && e.tou_oa_super == 0,
            e.total == 0,
    {
        DailyUsage {
            year,
            month,
            day,
            tou_reo_on: 0,
            tou_reo_off: 0,
            tou_oa_on: 0,
            tou_oa_off: 0,
            tou_oa_super: 0,
            total: 0,
        }
    }
}

/// The maximum single reading of one month, in micro-kilowatt-hours.
#[derive(Clone, Copy, Debug, PartialEq, Eq, Structural)]
pub struct MonthlyPeak {
    pub year: i32,
    pub month: u32,
    pub peak: i64,
}

impl MonthlyPeak {
    /// The packed month key of the record's month.
    pub open spec fn key(self) -> int {
        pack_month_key(self.year as int, self.month as int)
    }

    /// The record names a well-formed month.
    pub open spec fn wf(self) -> bool {
        0 <= self.year <= 9999 && 1 <= self.month <= 12
    }
}

/// Energy totals of the whole billing window, split by period under both
/// schemes, in micro-kilowatt-hours.
#[derive(Clone, Copy, Debug, PartialEq, Eq, Structural)]
pub struct PeriodTotals {
    /// Scheme A on-peak total.
    pub tou_reo_on: i64,
    /// Scheme A off-peak total.
    pub tou_reo_off: i64,
    /// Scheme B on-peak total.
    pub tou_oa_on: i64,
    /// Scheme B off-peak total.
    pub tou_oa_off: i64,
    /// Scheme B super-off-peak total.
    pub tou_oa_super: i64,
}

/// The daily records that describe a reading sequence: strictly sorted by
/// date, one record for each billed day, every period field equal to the
/// matching filtered sum over the readings.
pub open spec fn daily_match(s: Seq<Reading>, d: Seq<DailyUsage>) -> bool {
    &&& forall|j: int, k: int|
        #![trigger d[j].key(), d[k].key()]
        0 <= j < k < d.len() ==> d[j].key() < d[k].key()
    &&& forall|j: int| 0 <= j < d.len() ==> (#[trigger] d[j]).wf()
    &&& forall|j: int|
        0 <= j < d.len() ==> billing_day_keys(s).contains(#[trigger] d[j].key())
    &&& forall|k: int|
        billing_day_keys(s).contains(k) ==> exists|j: int|
            0 <= j < d.len() && #[trigger] d[j].key() == k
    &&& forall|j: int| 0 <= j < d.len() ==> daily_values(s, #[trigger] d[j])
}

/// The period fields of one daily record equal the filtered sums of its day.
pub open spec fn daily_values(s: Seq<Reading>, e: DailyUsage) -> bool {
    &&& e.total == day_total(s, e.key())
    &&& e.tou_reo_on == day_on_a(s, e.key())
    &&& e.tou_reo_off == day_off_a(s, e.key())
    &&& e.tou_oa_on == day_b(s, e.key(), PeriodB::OnPeak)
    &&& e.tou_oa_off == day_b(s, e.key(), PeriodB::OffPeak)
    &&& e.tou_oa_super == day_b(s, e.key(), PeriodB::SuperOffPeak)
}

/// The peak records that describe a reading sequence: strictly sorted by
/// month, one record per month with a reading, each holding that month's
/// largest single reading.
pub open spec fn peaks_match(s: Seq<Reading>, p: Seq<MonthlyPeak>) -> bool {
    &&& forall|j: int, k: int|
        #![trigger p[j].key(), p[k].key()]
        0 <= j < k < p.len() ==> p[j].key() < p[k].key()
    &&& forall|j: int| 0 <= j < p.len() ==> (#[trigger] p[j]).wf()
    &&& forall|j: int| 0 <= j < p.len() ==> month_keys(s).contains(#[trigger] p[j].key())
    &&& forall|k: int|
        month_keys(s).contains(k) ==> exists|j: int| 0 <= j < p.len() && #[trigger] p[j].key()
            == k
    &&& forall|j: int|
        0 <= j < p.len() ==> month_peak(s, (#[trigger] p[j]).key()) == Some(p[j].peak as int)
}

/// The peak list also keeps every stored peak within the accepted range of
/// one reading, which the demand-charge pricing needs for its arithmetic.
pub open spec fn peaks_bounded(p: Seq<MonthlyPeak>) -> bool {
    forall|j: int|
        0 <= j < p.len() ==> -MAX_READING_ENERGY <= (#[trigger] p[j]).peak
            <= MAX_READING_ENERGY
}

/// The window-wide period totals of a reading sequence.
pub open spec fn totals_match(s: Seq<Reading>, t: PeriodTotals) -> bool {
    &&& t.tou_reo_on == sum_where(s, on_a_pred())
    &&& t.tou_reo_off == sum_where(s, off_a_pred())
    &&& t.tou_oa_on == sum_where(s, b_pred(PeriodB::OnPeak))
    &&& t.tou_oa_off == sum_where(s, b_pred(PeriodB::OffPeak))
    &&& t.tou_oa_super == sum_where(s, b_pred(PeriodB::SuperOffPeak))
}

/// Sums the energy of the window, split by period under both schemes, in
/// one forward pass.
pub fn aggregate_totals(rs: &Vec<Reading>) -> (t: PeriodTotals)
    requires
        readings_ok(rs@),
    ensures
        totals_match(rs@, t),
{
    let mut t = PeriodTotals {
        tou_reo_on: 0,
        tou_reo_off: 0,
        tou_oa_on: 0,
        tou_oa_off: 0,
        tou_oa_super: 0,
    };
    let mut i: usize = 0;
    while i < rs.len()
        invariant
            readings_ok(rs@),
            0 <= i <= rs@.len(),
            totals_match(rs@.take(i as int), t),
        decreases rs@.len() - i,
    {
        let ghost prefix = rs@.take(i as int);
        proof {
            assert forall|j: int| 0 <= j < prefix.len() implies reading_ok(
                #[trigger] prefix[j],
            ) by {
                assert(prefix[j] == rs@[j]);
            }
            assert(prefix.len() <= MAX_READINGS);
            assert(reading_ok(rs@[i as int]));
            lemma_sum_where_bound(prefix, on_a_pred());
            lemma_sum_where_bound(prefix, off_a_pred());
            lemma_sum_where_bound(prefix, b_pred(PeriodB::OnPeak));
            lemma_sum_where_bound(prefix, b_pred(PeriodB::OffPeak));
            lemma_sum_where_bound(prefix, b_pred(PeriodB::SuperOffPeak));
            lemma_sum_where_push(prefix, rs@[i as int], on_a_pred());
            lemma_sum_where_push(prefix, rs@[i as int], off_a_pred());
            lemma_sum_where_push(prefix, rs@[i as int], b_pred(PeriodB::OnPeak));
            lemma_sum_where_push(prefix, rs@[i as int], b_pred(PeriodB::OffPeak));
            lemma_sum_where_push(prefix, rs@[i as int], b_pred(PeriodB::SuperOffPeak));
            assert(prefix.push(rs@[i as int]) =~= rs@.take(i + 1));
        }
        let r = rs[i];
        let e = r.energy;
        proof {
            assert((prefix.len() as int) * (MAX_READING_ENERGY as int)
                <= 1_000_000_000_000_000_000int) by (nonlinear_arith)
                requires
                    prefix.len() <= 1_000_000,
                    (MAX_READING_ENERGY as int) == 1_000_000_000_000int,
            ;
            assert(-MAX_READING_ENERGY <= e <= MAX_READING_ENERGY);
            assert(-1_000_000_000_000_000_000 <= t.tou_reo_on <= 1_000_000_000_000_000_000);
            assert(-1_000_000_000_000_000_000 <= t.tou_reo_off <= 1_000_000_000_000_000_000);
            assert(-1_000_000_000_000_000_000 <= t.tou_oa_on <= 1_000_000_000_000_000_000);
            assert(-1_000_000_000_000_000_000 <= t.tou_oa_off <= 1_000_000_000_000_000_000);
            assert(-1_000_000_000_000_000_000 <= t.tou_oa_super <= 1_000_000_000_000_000_000);
        }
        if is_on_peak(&r.ts) {
            t.tou_reo_on = t.tou_reo_on + e;
        } else {
            t.tou_reo_off = t.tou_reo_off + e;
        }
        match crate::period::period_tou_oa(&r.ts) {
            PeriodB::OnPeak => { t.tou_oa_on = t.tou_oa_on + e; },
            PeriodB::OffPeak => { t.tou_oa_off = t.tou_oa_off + e; },
            PeriodB::SuperOffPeak => { t.tou_oa_super = t.tou_oa_super + e; },
        }
        i = i + 1;
    }
    proof {
        assert(rs@.take(rs@.len() as int) =~= rs@);
    }
    t
}

/// Finds where the day with date key `k` stands, or should stand, in the
/// sorted daily list: the first position whose key is not below `k`.
fn find_day_slot(d: &Vec<DailyUsage>, k: i64) -> (r: (usize, bool))
    requires
        forall|j: int, jj: int|
            #![trigger d@[j].key(), d@[jj].key()]
            0 <= j < jj < d@.len() ==> d@[j].key() < d@[jj].key(),
        forall|j: int| 0 <= j < d@.len() ==> (#[trigger] d@[j]).wf(),
    ensures
        r.0 <= d@.len(),
        forall|j: int| 0 <= j < r.0 ==> (#[trigger] d@[j]).key() < k,
        r.1 <==> (r.0 < d@.len() && d@[r.0 as int].key() == k),
        !r.1 && r.0 < d@.len() ==> d@[r.0 as int].key() > k,
{
    let mut idx: usize = 0;
    while idx < d.len() && d[idx].date_key() < k
        invariant
            idx <= d@.len(),
            forall|j: int| 0 <= j < idx ==> (#[trigger] d@[j]).key() < k,
            forall|j: int| 0 <= j < d@.len() ==> (#[trigger] d@[j]).wf(),
        decreases d@.len() - idx,
    {
        idx = idx + 1;
    }
    let found = idx < d.len() && d[idx].date_key() == k;
    (idx, found)
}

impl DailyUsage {
    /// The packed date key of the record's day, as an executable value.
    pub fn date_key(&self) -> (k: i64)
        requires
            self.wf(),
        ensures
            k == self.key(),
    {
        date_key_of(self.year, self.month, self.day)
    }
}

/// Folds the readings into one usage record per billed day, sorted by date.
#[verifier::spinoff_prover]
#[verifier::rlimit(100)]
pub fn aggregate_daily(rs: &Vec<Reading>) -> (d: Vec<DailyUsage>)
    requires
        readings_ok(rs@),
    ensures
        daily_match(rs@, d@),
        d@.len() <= rs@.len(),
{
    let mut d: Vec<DailyUsage> = Vec::new();
    let mut i: usize = 0;
    while i < rs.len()
        invariant
            readings_ok(rs@),
            0 <= i <= rs@.len(),
            daily_match(rs@.take(i as int), d@),
            d@.len() <= i,
        decreases rs@.len() - i,
    {
        let ghost prefix = rs@.take(i as int);
        let ghost next = rs@[i as int];
        proof {
            assert forall|j: int| 0 <= j < prefix.len() implies reading_ok(
                #[trigger] prefix[j],
            ) by {
                assert(prefix[j] == rs@[j]);
            }
            assert(prefix.len() <= MAX_READINGS);
            assert(reading_ok(next));
            assert(prefix.push(next) =~= rs@.take(i + 1));
            lemma_keys_push(prefix, next);
        }
        let r = rs[i];
        let k = date_key_of(r.ts.year, r.ts.month, r.ts.day);
        let on_a = is_on_peak(&r.ts);
        let period = crate::period::period_tou_oa(&r.ts);
        let (idx, found) = find_day_slot(&d, k);
        proof {
            // The reading lands on day `k`; its contribution to every other
            // day's sums is nil.
            assert(next.ts.date_key() == k);
            assert forall|e: DailyUsage| #[trigger] e.key() != k implies {
                &&& day_total(prefix.push(next), e.key()) == day_total(prefix, e.key())
                &&& day_on_a(prefix.push(next), e.key()) == day_on_a(prefix, e.key())
                &&& day_off_a(prefix.push(next), e.key()) == day_off_a(prefix, e.key())
                &&& day_b(prefix.push(next), e.key(), PeriodB::OnPeak) == day_b(
                    prefix,
                    e.key(),
                    PeriodB::OnPeak,
                )
                &&& day_b(prefix.push(next), e.key(), PeriodB::OffPeak) == day_b(
                    prefix,
                    e.key(),
                    PeriodB::OffPeak,
                )
                &&& day_b(prefix.push(next), e.key(), PeriodB::SuperOffPeak) == day_b(
                    prefix,
                    e.key(),
                    PeriodB::SuperOffPeak,
                )
            } by {
                lemma_sum_where_push(prefix, next, day_pred(e.key()));
                lemma_sum_where_push(prefix, next, day_on_a_pred(e.key()));
                lemma_sum_where_push(prefix, next, day_off_a_pred(e.key()));
                lemma_sum_where_push(prefix, next, day_b_pred(e.key(), PeriodB::OnPeak));
                lemma_sum_where_push(prefix, next, day_b_pred(e.key(), PeriodB::OffPeak));
                lemma_sum_where_push(prefix, next, day_b_pred(e.key(), PeriodB::SuperOffPeak));
            }
            lemma_sum_where_push(prefix, next, day_pred(k as int));
            lemma_sum_where_push(prefix, next, day_on_a_pred(k as int));
            lemma_sum_where_push(prefix, next, day_off_a_pred(k as int));
            lemma_sum_where_push(prefix, next, day_b_pred(k as int, PeriodB::OnPeak));
            lemma_sum_where_push(prefix, next, day_b_pred(k as int, PeriodB::OffPeak));
            lemma_sum_where_push(prefix, next, day_b_pred(k as int, PeriodB::SuperOffPeak));
        }
        if found {
            proof {
                lemma_sum_where_bound(prefix, day_pred(k as int));
                lemma_sum_where_bound(prefix, day_on_a_pred(k as int));
                lemma_sum_where_bound(prefix, day_off_a_pred(k as int));
                lemma_sum_where_bound(prefix, day_b_pred(k as int, PeriodB::OnPeak));
                lemma_sum_where_bound(prefix, day_b_pred(k as int, PeriodB::OffPeak));
                lemma_sum_where_bound(prefix, day_b_pred(k as int, PeriodB::SuperOffPeak));
            }
            let e0 = d[idx];
            let mut e1 = e0;
            e1.total = e0.total + r.energy;
            if on_a {
                e1.tou_reo_on = e0.tou_reo_on + r.energy;
            } else {
                e1.tou_reo_off = e0.tou_reo_off + r.energy;
            }
            match period {
                PeriodB::OnPeak => { e1.tou_oa_on = e0.tou_oa_on + r.energy; },
                PeriodB::OffPeak => { e1.tou_oa_off = e0.tou_oa_off + r.energy; },
                PeriodB::SuperOffPeak => { e1.tou_oa_super = e0.tou_oa_super + r.energy; },
            }
            let ghost dold = d@;
            d[idx] = e1;
            proof {
                assert(d@ == dold.update(idx as int, e1));
                assert(e1.key() == k as int);
                // Strict sortedness makes the key unique, so every other
                // entry keeps both its key and its sums.
                assert forall|j: int| 0 <= j < dold.len() && j != idx implies (
                #[trigger] dold[j]).key() != k as int by {
                    if j < idx {
                        assert(dold[j].key() < dold[idx as int].key());
                    } else {
                        assert(dold[idx as int].key() < dold[j].key());
                    }
                }
                assert(daily_values(prefix.push(next), e1));
                assert forall|kk: int|
                    billing_day_keys(prefix.push(next)).contains(kk) implies exists|j: int|
                    0 <= j < d@.len() && #[trigger] d@[j].key() == kk by {
                    if kk == k as int {
                        assert(d@[idx as int].key() == kk);
                    } else {
                        assert(billing_day_keys(prefix).contains(kk));
                        let j = choose|j: int|
                            0 <= j < dold.len() && #[trigger] dold[j].key() == kk;
                        assert(d@[j].key() == kk);
                    }
                }
                assert(daily_match(prefix.push(next), d@));
            }
        } else {
            proof {
                // Day `k` is new: no earlier reading carries it, so every
                // sum of day `k` over the prefix is zero.
                if billing_day_keys(prefix).contains(k as int) {
                    let j = choose|j: int|
                        0 <= j < d@.len() && #[trigger] d@[j].key() == k as int;
                    assert(false);
                }
                crate::model::lemma_keys_contains(prefix, k as int);
                assert(forall|j: int|
                    0 <= j < prefix.len() ==> !(#[trigger] day_pred(k as int)(prefix[j])));
                lemma_sum_where_none(prefix, day_pred(k as int));
                lemma_sum_where_none(prefix, day_on_a_pred(k as int));
                lemma_sum_where_none(prefix, day_off_a_pred(k as int));
                lemma_sum_where_none(prefix, day_b_pred(k as int, PeriodB::OnPeak));
                lemma_sum_where_none(prefix, day_b_pred(k as int, PeriodB::OffPeak));
                lemma_sum_where_none(prefix, day_b_pred(k as int, PeriodB::SuperOffPeak));
            }
            let mut e1 = DailyUsage::new(r.ts.year, r.ts.month, r.ts.day);
            e1.total = r.energy;
            if on_a {
                e1.tou_reo_on = r.energy;
            } else {
                e1.tou_reo_off = r.energy;
            }
            match period {
                PeriodB::OnPeak => { e1.tou_oa_on = r.energy; },
                PeriodB::OffPeak => { e1.tou_oa_off = r.energy; },
                PeriodB::SuperOffPeak => { e1.tou_oa_super = r.energy; },
            }
            let ghost dold = d@;
            d.insert(idx, e1);
            proof {
                assert(d@ == dold.insert(idx as int, e1));
                assert(e1.key() == k as int);
                assert(forall|m: int| 0 <= m < idx ==> d@[m] == dold[m]);
                assert(d@[idx as int] == e1);
                assert(forall|m: int| idx < m < d@.len() ==> d@[m] == dold[m - 1]);
                // Old entries keep keys other than `k`, so their sums stand.
                assert forall|j: int| 0 <= j < dold.len() implies (#[trigger] dold[j]).key()
                    != k as int by {
                    if idx < dold.len() {
                        if j < idx {
                            assert(dold[j].key() < k as int);
                        } else if j > idx {
                            assert(dold[idx as int].key() < dold[j].key());
                        }
                    } else {
                        assert(dold[j].key() < k as int);
                    }
                }
                assert(daily_values(prefix.push(next), e1));
                assert forall|j: int, jj: int|
                    #![trigger d@[j].key(), d@[jj].key()]
                    0 <= j < jj < d@.len() implies d@[j].key() < d@[jj].key() by {
                    if jj < idx {
                    } else if j == idx {
                        assert(d@[jj] == dold[jj - 1]);
                        assert(dold[jj - 1].key() > k as int);
                    } else if jj == idx {
                        assert(d@[j] == dold[j]);
                    } else if j < idx {
                        assert(d@[j] == dold[j] && d@[jj] == dold[jj - 1]);
                        if jj - 1 == j {
                            assert(dold[j].key() < k as int && dold[jj - 1].key() > k as int);
                        }
                    } else {
                        assert(d@[j] == dold[j - 1] && d@[jj] == dold[jj - 1]);
                    }
                }
                assert forall|kk: int|
                    billing_day_keys(prefix.push(next)).contains(kk) implies exists|j: int|
                    0 <= j < d@.len() && #[trigger] d@[j].key() == kk by {
                    if kk == k as int {
                        assert(d@[idx as int].key() == kk);
                    } else {
                        assert(billing_day_keys(prefix).contains(kk));
                        let j = choose|j: int|
                            0 <= j < dold.len() && #[trigger] dold[j].key() == kk;
                        if j < idx {
                            assert(d@[j].key() == kk);
                        } else {
                            assert(d@[j + 1].key() == kk);
                        }
                    }
                }
                assert(daily_match(prefix.push(next), d@));
            }
        }
        i = i + 1;
    }
    proof {
        assert(rs@.take(rs@.len() as int) =~= rs@);
    }
    d
}

impl MonthlyPeak {
    /// The packed month key of the record's month, as an executable value.
    pub fn month_key(&self) -> (k: i64)
        requires
            self.wf(),
        ensures
            k == self.key(),
    {
        month_key_of(self.year, self.month)
    }
}

/// Finds where the month with month key `k` stands, or should stand, in the
/// sorted peak list: the first position whose key is not below `k`.
fn find_month_slot(p: &Vec<MonthlyPeak>, k: i64) -> (r: (usize, bool))
    requires
        forall|j: int, jj: int|
            #![trigger p@[j].key(), p@[jj].key()]
            0 <= j < jj < p@.len() ==> p@[j].key() < p@[jj].key(),
        forall|j: int| 0 <= j < p@.len() ==> (#[trigger] p@[j]).wf(),
    ensures
        r.0 <= p@.len(),
        forall|j: int| 0 <= j < r.0 ==> (#[trigger] p@[j]).key() < k,
        r.1 <==> (r.0 < p@.len() && p@[r.0 as int].key() == k),
        !r.1 && r.0 < p@.len() ==> p@[r.0 as int].key() > k,
{
    let mut idx: usize = 0;
    while idx < p.len() && p[idx].month_key() < k
        invariant
            idx <= p@.len(),
            forall|j: int| 0 <= j < idx ==> (#[trigger] p@[j]).key() < k,
            forall|j: int| 0 <= j < p@.len() ==> (#[trigger] p@[j]).wf(),
        decreases p@.len() - idx,
    {
        idx = idx + 1;
    }
    let found = idx < p.len() && p[idx].month_key() == k;
    (idx, found)
}

/// Folds the readings into one record per month holding that month's
/// largest single reading, sorted by month.
#[verifier::spinoff_prover]
#[verifier::rlimit(100)]
pub fn aggregate_peaks(rs: &Vec<Reading>) -> (p: Vec<MonthlyPeak>)
    requires
        readings_ok(rs@),
    ensures
        peaks_match(rs@, p@),
        peaks_bounded(p@),
        p@.len() <= rs@.len(),
{
    let mut p: Vec<MonthlyPeak> = Vec::new();
    let mut i: usize = 0;
    while i < rs.len()
        invariant
            readings_ok(rs@),
            0 <= i <= rs@.len(),
            peaks_match(rs@.take(i as int), p@),
            peaks_bounded(p@),
            p@.len() <= i,
        decreases rs@.len() - i,
    {
        let ghost prefix = rs@.take(i as int);
        let ghost next = rs@[i as int];
        proof {
            assert(reading_ok(next));
            assert(prefix.push(next) =~= rs@.take(i + 1));
            lemma_keys_push(prefix, next);
            assert(next.ts.month_key() == pack_month_key(
                next.ts.year as int,
                next.ts.month as int,
            ));
            assert forall|mk: int| mk != next.ts.month_key() implies #[trigger] month_peak(
                prefix.push(next),
                mk,
            ) == month_peak(prefix, mk) by {
                crate::model::lemma_month_peak_push(prefix, next, mk);
            }
            crate::model::lemma_month_peak_push(prefix, next, next.ts.month_key());
        }
        let r = rs[i];
        let k = month_key_of(r.ts.year, r.ts.month);
        let (idx, found) = find_month_slot(&p, k);
        if found {
            let p0 = p[idx];
            let mut p1 = p0;
            if r.energy > p0.peak {
                p1.peak = r.energy;
            }
            let ghost pold = p@;
            p[idx] = p1;
            proof {
                assert(p@ == pold.update(idx as int, p1));
                assert forall|j: int| 0 <= j < pold.len() && j != idx implies (
                #[trigger] pold[j]).key() != k as int by {
                    if j < idx {
                        assert(pold[j].key() < pold[idx as int].key());
                    } else {
                        assert(pold[idx as int].key() < pold[j].key());
                    }
                }
                assert(month_peak(prefix.push(next), k as int) == Some(p1.peak as int));
                assert forall|kk: int|
                    month_keys(prefix.push(next)).contains(kk) implies exists|j: int|
                    0 <= j < p@.len() && #[trigger] p@[j].key() == kk by {
                    if kk == k as int {
                        assert(p@[idx as int].key() == kk);
                    } else {
                        assert(month_keys(prefix).contains(kk));
                        let j = choose|j: int|
                            0 <= j < pold.len() && #[trigger] pold[j].key() == kk;
                        assert(p@[j].key() == kk);
                    }
                }
                assert(peaks_match(prefix.push(next), p@));
            }
        } else {
            proof {
                // The month is new: nothing was metered in it yet, so its
                // peak over the prefix is absent.
                if month_keys(prefix).contains(k as int) {
                    let j = choose|j: int|
                        0 <= j < p@.len() && #[trigger] p@[j].key() == k as int;
                    assert(false);
                }
                crate::model::lemma_keys_contains(prefix, k as int);
                crate::model::lemma_month_peak_characterization(prefix, k as int);
                assert(!crate::model::has_month(prefix, k as int));
                assert(month_peak(prefix, k as int) is None);
            }
            let p1 = MonthlyPeak { year: r.ts.year, month: r.ts.month, peak: r.energy };
            let ghost pold = p@;
            p.insert(idx, p1);
            proof {
                assert(p@ == pold.insert(idx as int, p1));
                assert(p1.key() == k as int);
                assert(forall|m: int| 0 <= m < idx ==> p@[m] == pold[m]);
                assert(p@[idx as int] == p1);
                assert(forall|m: int| idx < m < p@.len() ==> p@[m] == pold[m - 1]);
                assert forall|j: int| 0 <= j < pold.len() implies (#[trigger] pold[j]).key()
                    != k as int by {
                    if idx < pold.len() {
                        if j < idx {
                            assert(pold[j].key() < k as int);
                        } else if j > idx {
                            assert(pold[idx as int].key() < pold[j].key());
                        }
                    } else {
                        assert(pold[j].key() < k as int);
                    }
                }
                assert(month_peak(prefix.push(next), k as int) == Some(p1.peak as int));
                assert forall|j: int, jj: int|
                    #![trigger p@[j].key(), p@[jj].key()]
                    0 <= j < jj < p@.len() implies p@[j].key() < p@[jj].key() by {
                    if jj < idx {
                    } else if j == idx {
                        assert(p@[jj] == pold[jj - 1]);
                        assert(pold[jj - 1].key() > k as int);
                    } else if jj == idx {
                        assert(p@[j] == pold[j]);
                    } else if j < idx {
                        assert(p@[j] == pold[j] && p@[jj] == pold[jj - 1]);
                        if jj - 1 == j {
                            assert(pold[j].key() < k as int && pold[jj - 1].key() > k as int);
                        }
                    } else {
                        assert(p@[j] == pold[j - 1] && p@[jj] == pold[jj - 1]);
                    }
                }
                assert forall|kk: int|
                    month_keys(prefix.push(next)).contains(kk) implies exists|j: int|
                    0 <= j < p@.len() && #[trigger] p@[j].key() == kk by {
                    if kk == k as int {
                        assert(p@[idx as int].key() == kk);
                    } else {
                        assert(month_keys(prefix).contains(kk));
                        let j = choose|j: int|
                            0 <= j < pold.len() && #[trigger] pold[j].key() == kk;
                        if j < idx {
                            assert(p@[j].key() == kk);
                        } else {
                            assert(p@[j + 1].key() == kk);
                        }
                    }
                }
                assert(peaks_match(prefix.push(next), p@));
            }
        }
        i = i + 1;
    }
    proof {
        assert(rs@.take(rs@.len() as int) =~= rs@);
    }
    p
}

/// The daily list has exactly one record per billed day, so its length is
/// the number of billed days.
pub proof fn lemma_daily_len(s: Seq<Reading>, d: Seq<DailyUsage>)
    requires
        daily_match(s, d),
    ensures
        d.len() == billing_day_keys(s).len(),
{
    let kf = |e: DailyUsage| e.key();
    let kseq = d.map_values(kf);
    assert forall|i: int, j: int|
        #![trigger kseq[i], kseq[j]]
        0 <= i < j < kseq.len() implies kseq[i] != kseq[j] by {
        assert(d[i].key() < d[j].key());
    }
    assert(kseq.no_duplicates());
    assert forall|k: int| kseq.to_set().contains(k) == billing_day_keys(s).contains(k) by {
        if kseq.to_set().contains(k) {
            let j = choose|j: int| 0 <= j < kseq.len() && kseq[j] == k;
            assert(d[j].key() == k);
            assert(billing_day_keys(s).contains(k));
        }
        if billing_day_keys(s).contains(k) {
            let j = choose|j: int| 0 <= j < d.len() && #[trigger] d[j].key() == k;
            assert(kseq[j] == k);
            assert(kseq.contains(k));
        }
    }
    assert(kseq.to_set() =~= billing_day_keys(s));
    kseq.unique_seq_to_set();
}

} // verus!
