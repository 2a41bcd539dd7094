//! The rate engine: four alternative rate plans priced over the aggregates,
//! and the pipeline that runs classification, aggregation and pricing over
//! one reading series.
//!
//! Money is a signed count of pico-dollars: an energy in micro-kilowatt-
//! hours times a rate in micro-dollars per kilowatt-hour is exact in that
//! unit, and so is every charge of the four plans.

use vstd::prelude::*;

use crate::aggregate::{
    aggregate_daily, aggregate_peaks, aggregate_totals, daily_match, peaks_bounded,
    peaks_match, totals_match, DailyUsage, MonthlyPeak, PeriodTotals,
};
use crate::model::{
    b_pred, billing_day_keys, billing_day_keys_in_month, lemma_sum_where_bound, month_keys,
    month_peak, month_pred, month_total, off_a_pred, on_a_pred, reading_ok, readings_ok,
    sum_where, Reading, MAX_READINGS, MAX_READING_ENERGY,
};
use crate::monthly::{monthly_usage, months_match, MonthlyUsage};
use crate::period::PeriodB;
use crate::time::{date_key_of, pack_date_key, pack_month_key, Date};

verus! {

/// Fixed charge per billed day, in pico-dollars.
pub const FIXED_PICO: i128 = 460_300_000_000;

/// Plan 1 on-peak rate, micro-dollars per kilowatt-hour.
pub const RATE_ON_1: i128 = 297_868;

/// Plan 1 off-peak rate, micro-dollars per kilowatt-hour.
pub const RATE_OFF_1: i128 = 76_281;

/// Plan 2 off-peak rate, micro-dollars per kilowatt-hour.
pub const RATE_OFF_2: i128 = 101_676;

/// Plan 2 super-off-peak rate, micro-dollars per kilowatt-hour.
pub const RATE_SUPER: i128 = 21_859;

/// Plan 3 on-peak rate, micro-dollars per kilowatt-hour.
pub const RATE_ON_3: i128 = 142_986;

/// Plan 3 off-peak rate, micro-dollars per kilowatt-hour.
pub const RATE_OFF_3: i128 = 15_288;

/// Plan 3 demand rate, micro-dollars per kilowatt of monthly peak.
pub const RATE_DEMAND: i128 = 12_210_000;

/// Plan 4 summer tier rates, micro-dollars per kilowatt-hour.
pub const RATE_TIER_1: i128 = 86_121;

/// Plan 4 summer second-tier rate, micro-dollars per kilowatt-hour.
pub const RATE_TIER_2: i128 = 143_047;

/// Plan 4 summer third-tier rate, micro-dollars per kilowatt-hour.
pub const RATE_TIER_3: i128 = 148_051;

/// Plan 4 winter rate, micro-dollars per kilowatt-hour.
pub const RATE_WINTER: i128 = 80_602;

/// First tier boundary of plan 4, in micro-kilowatt-hours.
pub const TIER_1_LIMIT: i64 = 650_000_000;

/// Second tier boundary of plan 4, in micro-kilowatt-hours.
pub const TIER_2_LIMIT: i64 = 1_000_000_000;

/// Whether a month number is a summer month.
pub open spec fn is_summer_month(m: int) -> bool {
    6 <= m <= 9
}

/// Plan 1, time-of-use energy-only: fixed charge plus scheme A energy.
#[derive(Clone, Copy, Debug, PartialEq, Eq)]
pub struct Plan1Bill {
    pub billing_days: usize,
    pub fixed_charge: i128,
    pub on_peak_energy: i64,
    pub on_peak_cost: i128,
    pub off_peak_energy: i64,
    pub off_peak_cost: i128,
    pub total: i128,
}

/// Plan 2, time-of-use with a super-off-peak tier: scheme B energy.
#[derive(Clone, Copy, Debug, PartialEq, Eq)]
pub struct Plan2Bill {
    pub billing_days: usize,
    pub fixed_charge: i128,
    pub on_peak_energy: i64,
    pub on_peak_cost: i128,
    pub off_peak_energy: i64,
    pub off_peak_cost: i128,
    pub super_off_peak_energy: i64,
    pub super_off_peak_cost: i128,
    pub total: i128,
}

/// One month's demand charge of plan 3.
#[derive(Clone, Copy, Debug, PartialEq, Eq)]
pub struct DemandCharge {
    pub year: i32,
    pub month: u32,
    /// The month's largest single reading, micro-kilowatt-hours.
    pub peak: i64,
    /// `peak` times the demand rate, pico-dollars.
    pub charge: i128,
}

/// Plan 3, time-of-use with demand charges: scheme A energy plus a charge
/// per month proportional to the month's peak reading.
#[derive(Clone, Debug, PartialEq, Eq)]
pub struct Plan3Bill {
    pub billing_days: usize,
    pub fixed_charge: i128,
    pub on_peak_energy: i64,
    pub on_peak_cost: i128,
    pub off_peak_energy: i64,
    pub off_peak_cost: i128,
    pub energy_subtotal: i128,
    pub demand_charges: Vec<DemandCharge>,
    pub total_demand_charge: i128,
    pub total: i128,
}

/// One month of plan 4's breakdown.
#[derive(Clone, Copy, Debug, PartialEq, Eq)]
pub struct MonthBreakdown {
    pub year: i32,
    pub month: u32,
    pub is_summer: bool,
    /// Tier energies, micro-kilowatt-hours; all zero in winter months.
    pub tier1: i64,
    pub tier2: i64,
    pub tier3: i64,
    pub fixed_charge: i128,
    pub energy_cost: i128,
    pub monthly_total: i128,
    /// The month's total energy, micro-kilowatt-hours.
    pub total_usage: i64,
    /// Billed days of the month.
    pub day_count: usize,
}

/// Plan 4, tiered seasonal flat rate, priced per calendar month.
#[derive(Clone, Debug, PartialEq, Eq)]
pub struct Plan4Bill {
    pub months: Vec<MonthBreakdown>,
    pub total: i128,
}

/// The four bills of one run, over the same aggregates.
#[derive(Clone, Debug, PartialEq, Eq)]
pub struct Bills {
    pub plan1: Plan1Bill,
    pub plan2: Plan2Bill,
    pub plan3: Plan3Bill,
    pub plan4: Plan4Bill,
}

/// Sum of the demand charges of a list.
pub open spec fn demand_sum(q: Seq<DemandCharge>) -> int
    decreases q.len(),
{
    if q.len() == 0 {
        0
    } else {
        demand_sum(q.drop_last()) + q.last().charge as int
    }
}

/// Sum of the monthly totals of a plan 4 breakdown.
pub open spec fn months_sum(q: Seq<MonthBreakdown>) -> int
    decreases q.len(),
{
    if q.len() == 0 {
        0
    } else {
        months_sum(q.drop_last()) + q.last().monthly_total as int
    }
}

/// The plan 1 bill a reading series owes.
pub open spec fn plan1_match(s: Seq<Reading>, b: Plan1Bill) -> bool {
    &&& b.billing_days == billing_day_keys(s).len()
    &&& b.fixed_charge == FIXED_PICO * billing_day_keys(s).len()
    &&& b.on_peak_energy == sum_where(s, on_a_pred())
    &&& b.off_peak_energy == sum_where(s, off_a_pred())
    &&& b.on_peak_cost == RATE_ON_1 * sum_where(s, on_a_pred())
    &&& b.off_peak_cost == RATE_OFF_1 * sum_where(s, off_a_pred())
    &&& b.total == b.fixed_charge + b.on_peak_cost + b.off_peak_cost
}

/// The plan 2 bill a reading series owes.
pub open spec fn plan2_match(s: Seq<Reading>, b: Plan2Bill) -> bool {
    &&& b.billing_days == billing_day_keys(s).len()
    &&& b.fixed_charge == FIXED_PICO * billing_day_keys(s).len()
    &&& b.on_peak_energy == sum_where(s, b_pred(PeriodB::OnPeak))
    &&& b.off_peak_energy == sum_where(s, b_pred(PeriodB::OffPeak))
    &&& b.super_off_peak_energy == sum_where(s, b_pred(PeriodB::SuperOffPeak))
    &&& b.on_peak_cost == RATE_ON_1 * sum_where(s, b_pred(PeriodB::OnPeak))
    &&& b.off_peak_cost == RATE_OFF_2 * sum_where(s, b_pred(PeriodB::OffPeak))
    &&& b.super_off_peak_cost == RATE_SUPER * sum_where(s, b_pred(PeriodB::SuperOffPeak))
    &&& b.total == b.fixed_charge + b.on_peak_cost + b.off_peak_cost + b.super_off_peak_cost
}

/// The plan 3 bill a reading series owes. The demand list holds one entry
/// per month with a reading, in chronological order; each charge is that
/// month's largest single reading times the demand rate, and the total
/// demand charge is their sum.
pub open spec fn plan3_match(s: Seq<Reading>, b: Plan3Bill) -> bool {
    &&& b.billing_days == billing_day_keys(s).len()
    &&& b.fixed_charge == FIXED_PICO * billing_day_keys(s).len()
    &&& b.on_peak_energy == sum_where(s, on_a_pred())
    &&& b.off_peak_energy == sum_where(s, off_a_pred())
    &&& b.on_peak_cost == RATE_ON_3 * sum_where(s, on_a_pred())
    &&& b.off_peak_cost == RATE_OFF_3 * sum_where(s, off_a_pred())
    &&& b.energy_subtotal == b.fixed_charge + b.on_peak_cost + b.off_peak_cost
    &&& forall|j: int, k: int|
        #![trigger b.demand_charges@[j], b.demand_charges@[k]]
        0 <= j < k < b.demand_charges@.len() ==> pack_month_key(
            b.demand_charges@[j].year as int,
            b.demand_charges@[j].month as int,
        ) < pack_month_key(
            b.demand_charges@[k].year as int,
            b.demand_charges@[k].month as int,
        )
    &&& forall|j: int|
        0 <= j < b.demand_charges@.len() ==> month_keys(s).contains(pack_month_key(
            (#[trigger] b.demand_charges@[j]).year as int,
            b.demand_charges@[j].month as int,
        ))
    &&& forall|k: int|
        month_keys(s).contains(k) ==> exists|j: int|
            0 <= j < b.demand_charges@.len() && pack_month_key(
                (#[trigger] b.demand_charges@[j]).year as int,
                b.demand_charges@[j].month as int,
            ) == k
    &&& forall|j: int|
        0 <= j < b.demand_charges@.len() ==> month_peak(
            s,
            pack_month_key(
                (#[trigger] b.demand_charges@[j]).year as int,
                b.demand_charges@[j].month as int,
            ),
        ) == Some(b.demand_charges@[j].peak as int)
    &&& forall|j: int|
        0 <= j < b.demand_charges@.len() ==> (#[trigger] b.demand_charges@[j]).charge
            == RATE_DEMAND * b.demand_charges@[j].peak
    &&& b.total_demand_charge == demand_sum(b.demand_charges@)
    &&& b.total == b.energy_subtotal + b.total_demand_charge
}

/// The tier fields one month of plan 4 owes for a total energy `e`.
pub open spec fn tier_fields_match(e: int, mb: MonthBreakdown) -> bool {
    &&& mb.is_summer == is_summer_month(mb.month as int)
    &&& mb.is_summer ==> {
        &&& mb.tier1 == if e <= TIER_1_LIMIT {
            e
        } else {
            TIER_1_LIMIT as int
        }
        &&& mb.tier2 == if e <= TIER_1_LIMIT {
            0int
        } else if e <= TIER_2_LIMIT {
            e - TIER_1_LIMIT
        } else {
            (TIER_2_LIMIT - TIER_1_LIMIT) as int
        }
        &&& mb.tier3 == if e <= TIER_2_LIMIT {
            0int
        } else {
            e - TIER_2_LIMIT
        }
        &&& mb.energy_cost == RATE_TIER_1 * mb.tier1 + RATE_TIER_2 * mb.tier2 + RATE_TIER_3
            * mb.tier3
    }
    &&& !mb.is_summer ==> {
        &&& mb.tier1 == 0 && mb.tier2 == 0 && mb.tier3 == 0
        &&& mb.energy_cost == RATE_WINTER * e
    }
}

/// The plan 4 bill a reading series owes: one breakdown per month with a
/// reading, in chronological order, summed into the plan total.
pub open spec fn plan4_match(s: Seq<Reading>, b: Plan4Bill) -> bool {
    &&& forall|j: int, k: int|
        #![trigger b.months@[j], b.months@[k]]
        0 <= j < k < b.months@.len() ==> pack_month_key(
            b.months@[j].year as int,
            b.months@[j].month as int,
        ) < pack_month_key(b.months@[k].year as int, b.months@[k].month as int)
    &&& forall|j: int|
        0 <= j < b.months@.len() ==> month_keys(s).contains(pack_month_key(
            (#[trigger] b.months@[j]).year as int,
            b.months@[j].month as int,
        ))
    &&& forall|k: int|
        month_keys(s).contains(k) ==> exists|j: int|
            0 <= j < b.months@.len() && pack_month_key(
                (#[trigger] b.months@[j]).year as int,
                b.months@[j].month as int,
            ) == k
    &&& forall|j: int|
        0 <= j < b.months@.len() ==> (#[trigger] b.months@[j]).total_usage == month_total(
            s,
            pack_month_key(b.months@[j].year as int, b.months@[j].month as int),
        )
    &&& forall|j: int|
        0 <= j < b.months@.len() ==> (#[trigger] b.months@[j]).day_count
            == billing_day_keys_in_month(
            s,
            pack_month_key(b.months@[j].year as int, b.months@[j].month as int),
        ).len()
    &&& forall|j: int|
        0 <= j < b.months@.len() ==> tier_fields_match(
            (#[trigger] b.months@[j]).total_usage as int,
            b.months@[j],
        )
    &&& forall|j: int|
        0 <= j < b.months@.len() ==> (#[trigger] b.months@[j]).fixed_charge == FIXED_PICO
            * b.months@[j].day_count
    &&& forall|j: int|
        0 <= j < b.months@.len() ==> (#[trigger] b.months@[j]).monthly_total == b.months@[
            j].fixed_charge + b.months@[j].energy_cost
    &&& b.total == months_sum(b.months@)
}

/// The four bills a reading series owes.
pub open spec fn bills_match(s: Seq<Reading>, b: Bills) -> bool {
    &&& plan1_match(s, b.plan1)
    &&& plan2_match(s, b.plan2)
    &&& plan3_match(s, b.plan3)
    &&& plan4_match(s, b.plan4)
}

/// Period totals within the range every filtered sum of accepted readings
/// keeps.
pub open spec fn totals_bounded(t: PeriodTotals) -> bool {
    &&& -1_000_000_000_000_000_000 <= t.tou_reo_on <= 1_000_000_000_000_000_000
    &&& -1_000_000_000_000_000_000 <= t.tou_reo_off <= 1_000_000_000_000_000_000
    &&& -1_000_000_000_000_000_000 <= t.tou_oa_on <= 1_000_000_000_000_000_000
    &&& -1_000_000_000_000_000_000 <= t.tou_oa_off <= 1_000_000_000_000_000_000
    &&& -1_000_000_000_000_000_000 <= t.tou_oa_super <= 1_000_000_000_000_000_000
}

/// Prices plan 1 from the scheme A totals and the billed days.
pub fn plan1_bill(t: &PeriodTotals, billing_days: usize) -> (b: Plan1Bill)
    requires
        totals_bounded(*t),
    ensures
        b.billing_days == billing_days,
        b.fixed_charge == FIXED_PICO * billing_days,
        b.on_peak_energy == t.tou_reo_on,
        b.off_peak_energy == t.tou_reo_off,
        b.on_peak_cost == RATE_ON_1 * t.tou_reo_on,
        b.off_peak_cost == RATE_OFF_1 * t.tou_reo_off,
        b.total == b.fixed_charge + b.on_peak_cost + b.off_peak_cost,
{
    let fixed: i128 = FIXED_PICO * (billing_days as i128);
    let on_cost: i128 = RATE_ON_1 * (t.tou_reo_on as i128);
    let off_cost: i128 = RATE_OFF_1 * (t.tou_reo_off as i128);
    Plan1Bill {
        billing_days,
        fixed_charge: fixed,
        on_peak_energy: t.tou_reo_on,
        on_peak_cost: on_cost,
        off_peak_energy: t.tou_reo_off,
        off_peak_cost: off_cost,
        total: fixed + on_cost + off_cost,
    }
}

/// Prices plan 2 from the scheme B totals and the billed days.
pub fn plan2_bill(t: &PeriodTotals, billing_days: usize) -> (b: Plan2Bill)
    requires
        totals_bounded(*t),
    ensures
        b.billing_days == billing_days,
        b.fixed_charge == FIXED_PICO * billing_days,
        b.on_peak_energy == t.tou_oa_on,
        b.off_peak_energy == t.tou_oa_off,
        b.super_off_peak_energy == t.tou_oa_super,
        b.on_peak_cost == RATE_ON_1 * t.tou_oa_on,
        b.off_peak_cost == RATE_OFF_2 * t.tou_oa_off,
        b.super_off_peak_cost == RATE_SUPER * t.tou_oa_super,
        b.total == b.fixed_charge + b.on_peak_cost + b.off_peak_cost + b.super_off_peak_cost,
{
    let fixed: i128 = FIXED_PICO * (billing_days as i128);
    let on_cost: i128 = RATE_ON_1 * (t.tou_oa_on as i128);
    let off_cost: i128 = RATE_OFF_2 * (t.tou_oa_off as i128);
    let super_cost: i128 = RATE_SUPER * (t.tou_oa_super as i128);
    Plan2Bill {
        billing_days,
        fixed_charge: fixed,
        on_peak_energy: t.tou_oa_on,
        on_peak_cost: on_cost,
        off_peak_energy: t.tou_oa_off,
        off_peak_cost: off_cost,
        super_off_peak_energy: t.tou_oa_super,
        super_off_peak_cost: super_cost,
        total: fixed + on_cost + off_cost + super_cost,
    }
}

/// Prices plan 3 from the scheme A totals, the billed days, and the
/// monthly peak readings.
pub fn plan3_bill(t: &PeriodTotals, billing_days: usize, peaks: &Vec<MonthlyPeak>) -> (b:
    Plan3Bill)
    requires
        totals_bounded(*t),
        peaks_bounded(peaks@),
        peaks@.len() <= MAX_READINGS,
        forall|j: int| 0 <= j < peaks@.len() ==> (#[trigger] peaks@[j]).wf(),
    ensures
        b.billing_days == billing_days,
        b.fixed_charge == FIXED_PICO * billing_days,
        b.on_peak_energy == t.tou_reo_on,
        b.off_peak_energy == t.tou_reo_off,
        b.on_peak_cost == RATE_ON_3 * t.tou_reo_on,
        b.off_peak_cost == RATE_OFF_3 * t.tou_reo_off,
        b.energy_subtotal == b.fixed_charge + b.on_peak_cost + b.off_peak_cost,
        b.demand_charges@.len() == peaks@.len(),
        forall|j: int|
            0 <= j < peaks@.len() ==> {
                let dc = #[trigger] b.demand_charges@[j];
                &&& dc.year == peaks@[j].year
                &&& dc.month == peaks@[j].month
                &&& dc.peak == peaks@[j].peak
                &&& dc.charge == RATE_DEMAND * peaks@[j].peak
            },
        b.total_demand_charge == demand_sum(b.demand_charges@),
        b.total == b.energy_subtotal + b.total_demand_charge,
{
    let fixed: i128 = FIXED_PICO * (billing_days as i128);
    let on_cost: i128 = RATE_ON_3 * (t.tou_reo_on as i128);
    let off_cost: i128 = RATE_OFF_3 * (t.tou_reo_off as i128);
    let subtotal: i128 = fixed + on_cost + off_cost;
    let mut charges: Vec<DemandCharge> = Vec::new();
    let mut total_demand: i128 = 0;
    let mut j: usize = 0;
    while j < peaks.len()
        invariant
            peaks_bounded(peaks@),
            peaks@.len() <= MAX_READINGS,
            0 <= j <= peaks@.len(),
            charges@.len() == j,
            forall|jj: int|
                0 <= jj < j ==> {
                    let dc = #[trigger] charges@[jj];
                    &&& dc.year == peaks@[jj].year
                    &&& dc.month == peaks@[jj].month
                    &&& dc.peak == peaks@[jj].peak
                    &&& dc.charge == RATE_DEMAND * peaks@[jj].peak
                },
            total_demand == demand_sum(charges@),
            -13_000_000_000_000_000_000 * (j as int) <= total_demand
                <= 13_000_000_000_000_000_000 * (j as int),
        decreases peaks@.len() - j,
    {
        let pk = peaks[j];
        let charge: i128 = RATE_DEMAND * (pk.peak as i128);
        let dc = DemandCharge { year: pk.year, month: pk.month, peak: pk.peak, charge };
        let ghost cold = charges@;
        charges.push(dc);
        proof {
            assert(charges@.drop_last() =~= cold);
            assert(charges@.last() == dc);
        }
        total_demand = total_demand + charge;
        j = j + 1;
    }
    Plan3Bill {
        billing_days,
        fixed_charge: fixed,
        on_peak_energy: t.tou_reo_on,
        on_peak_cost: on_cost,
        off_peak_energy: t.tou_reo_off,
        off_peak_cost: off_cost,
        energy_subtotal: subtotal,
        demand_charges: charges,
        total_demand_charge: total_demand,
        total: subtotal + total_demand,
    }
}

/// Splits a month's total energy over plan 4's three summer tiers.
pub fn tier_split(e: i64) -> (t: (i64, i64, i64))
    requires
        -MAX_TOTAL <= e <= MAX_TOTAL,
    ensures
        t.0 == if e <= TIER_1_LIMIT {
            e as int
        } else {
            TIER_1_LIMIT as int
        },
        t.1 == if e <= TIER_1_LIMIT {
            0int
        } else if e <= TIER_2_LIMIT {
            e - TIER_1_LIMIT
        } else {
            (TIER_2_LIMIT - TIER_1_LIMIT) as int
        },
        t.2 == if e <= TIER_2_LIMIT {
            0int
        } else {
            e - TIER_2_LIMIT
        },
        t.0 + t.1 + t.2 == e,
{
    if e <= TIER_1_LIMIT {
        (e, 0, 0)
    } else if e <= TIER_2_LIMIT {
        (TIER_1_LIMIT, e - TIER_1_LIMIT, 0)
    } else {
        (TIER_1_LIMIT, TIER_2_LIMIT - TIER_1_LIMIT, e - TIER_2_LIMIT)
    }
}

/// Largest magnitude a month's total energy can reach.
pub const MAX_TOTAL: i64 = 1_000_000_000_000_000_000;

/// Prices plan 4 from the monthly usage records.
pub fn plan4_bill(months: &Vec<MonthlyUsage>) -> (b: Plan4Bill)
    requires
        months@.len() <= MAX_READINGS,
        forall|j: int| 0 <= j < months@.len() ==> (#[trigger] months@[j]).wf(),
        forall|j: int|
            0 <= j < months@.len() ==> -MAX_TOTAL <= (#[trigger] months@[j]).total_energy
                <= MAX_TOTAL,
    ensures
        b.months@.len() == months@.len(),
        forall|j: int|
            0 <= j < months@.len() ==> {
                let mb = #[trigger] b.months@[j];
                &&& mb.year == months@[j].year
                &&& mb.month == months@[j].month
                &&& mb.total_usage == months@[j].total_energy
                &&& mb.day_count == months@[j].day_count
                &&& tier_fields_match(months@[j].total_energy as int, mb)
                &&& mb.fixed_charge == FIXED_PICO * months@[j].day_count
                &&& mb.monthly_total == mb.fixed_charge + mb.energy_cost
            },
        b.total == months_sum(b.months@),
{
    let mut out: Vec<MonthBreakdown> = Vec::new();
    let mut total: i128 = 0;
    let mut j: usize = 0;
    while j < months.len()
        invariant
            months@.len() <= MAX_READINGS,
            forall|jj: int| 0 <= jj < months@.len() ==> (#[trigger] months@[jj]).wf(),
            forall|jj: int|
                0 <= jj < months@.len() ==> -MAX_TOTAL <= (
                #[trigger] months@[jj]).total_energy <= MAX_TOTAL,
            0 <= j <= months@.len(),
            out@.len() == j,
            forall|jj: int|
                0 <= jj < j ==> {
                    let mb = #[trigger] out@[jj];
                    &&& mb.year == months@[jj].year
                    &&& mb.month == months@[jj].month
                    &&& mb.total_usage == months@[jj].total_energy
                    &&& mb.day_count == months@[jj].day_count
                    &&& tier_fields_match(months@[jj].total_energy as int, mb)
                    &&& mb.fixed_charge == FIXED_PICO * months@[jj].day_count
                    &&& mb.monthly_total == mb.fixed_charge + mb.energy_cost
                },
            total == months_sum(out@),
            -10_000_000_000_000_000_000_000_000_000_000 * (j as int) <= total
                <= 10_000_000_000_000_000_000_000_000_000_000 * (j as int),
        decreases months@.len() - j,
    {
        let mu = months[j];
        let summer = mu.month >= 6 && mu.month <= 9;
        let fixed: i128 = FIXED_PICO * (mu.day_count as i128);
        let mb: MonthBreakdown;
        if summer {
            let (t1, t2, t3) = tier_split(mu.total_energy);
            let energy_cost: i128 = RATE_TIER_1 * (t1 as i128) + RATE_TIER_2 * (t2 as i128)
                + RATE_TIER_3 * (t3 as i128);
            mb = MonthBreakdown {
                year: mu.year,
                month: mu.month,
                is_summer: true,
                tier1: t1,
                tier2: t2,
                tier3: t3,
                fixed_charge: fixed,
                energy_cost,
                monthly_total: fixed + energy_cost,
                total_usage: mu.total_energy,
                day_count: mu.day_count,
            };
        } else {
            let energy_cost: i128 = RATE_WINTER * (mu.total_energy as i128);
            mb = MonthBreakdown {
                year: mu.year,
                month: mu.month,
                is_summer: false,
                tier1: 0,
                tier2: 0,
                tier3: 0,
                fixed_charge: fixed,
                energy_cost,
                monthly_total: fixed + energy_cost,
                total_usage: mu.total_energy,
                day_count: mu.day_count,
            };
        }
        let ghost oold = out@;
        out.push(mb);
        proof {
            assert(out@.drop_last() =~= oold);
            assert(out@.last() == mb);
        }
        total = total + mb.monthly_total;
        j = j + 1;
    }
    Plan4Bill { months: out, total }
}

/// Readings dated inside the inclusive window `[a, b]` of date keys.
pub open spec fn in_window_pred(a: int, b: int) -> spec_fn(Reading) -> bool {
    |r: Reading| a <= r.ts.date_key() <= b
}

/// The readings of `s` dated inside the inclusive window `[start, end]`,
/// in their original order.
pub open spec fn windowed(s: Seq<Reading>, start: Date, end: Date) -> Seq<Reading> {
    s.filter(in_window_pred(start.key(), end.key()))
}

/// Keeps the readings dated inside the inclusive window `[start, end]`.
pub fn filter_window(rs: &Vec<Reading>, start: &Date, end: &Date) -> (out: Vec<Reading>)
    requires
        readings_ok(rs@),
        start.valid(),
        end.valid(),
    ensures
        out@ == windowed(rs@, *start, *end),
        readings_ok(out@),
{
    broadcast use Seq::<_>::lemma_filter_push;

    let a = date_key_of(start.year, start.month, start.day);
    let b = date_key_of(end.year, end.month, end.day);
    let mut out: Vec<Reading> = Vec::new();
    let mut i: usize = 0;
    while i < rs.len()
        invariant
            readings_ok(rs@),
            0 <= i <= rs@.len(),
            a == start.key() && b == end.key(),
            out@ == rs@.take(i as int).filter(in_window_pred(a as int, b as int)),
            out@.len() <= i,
            forall|j: int| 0 <= j < out@.len() ==> reading_ok(#[trigger] out@[j]),
        decreases rs@.len() - i,
    {
        let ghost prefix = rs@.take(i as int);
        proof {
            assert(prefix.push(rs@[i as int]) =~= rs@.take(i + 1));
            assert(reading_ok(rs@[i as int]));
            prefix.lemma_filter_push(rs@[i as int], in_window_pred(a as int, b as int));
        }
        let r = rs[i];
        let k = date_key_of(r.ts.year, r.ts.month, r.ts.day);
        if a <= k && k <= b {
            out.push(r);
        }
        i = i + 1;
    }
    proof {
        assert(rs@.take(rs@.len() as int) =~= rs@);
    }
    out
}

/// Runs the whole engine over one reading series: filters the series to
/// the window, folds it into the aggregates, and prices all four plans.
/// Every part of the result is a function of the windowed readings alone.
#[verifier::spinoff_prover]
#[verifier::rlimit(100)]
pub fn compute_bills(readings: &Vec<Reading>, start: &Date, end: &Date) -> (b: Bills)
    requires
        readings_ok(readings@),
        start.valid(),
        end.valid(),
    ensures
        bills_match(windowed(readings@, *start, *end), b),
{
    let filtered = filter_window(readings, start, end);
    let ghost fs = filtered@;
    let totals = aggregate_totals(&filtered);
    let daily = aggregate_daily(&filtered);
    let peaks = aggregate_peaks(&filtered);
    let months = monthly_usage(&daily, Ghost(fs));
    let billing_days = daily.len();
    proof {
        crate::aggregate::lemma_daily_len(fs, daily@);
        lemma_sum_where_bound(fs, on_a_pred());
        lemma_sum_where_bound(fs, off_a_pred());
        lemma_sum_where_bound(fs, b_pred(PeriodB::OnPeak));
        lemma_sum_where_bound(fs, b_pred(PeriodB::OffPeak));
        lemma_sum_where_bound(fs, b_pred(PeriodB::SuperOffPeak));
        assert(totals_bounded(totals));
        assert forall|j: int|
            0 <= j < months@.len() implies -MAX_TOTAL <= (#[trigger] months@[j]).total_energy
            <= MAX_TOTAL by {
            lemma_sum_where_bound(fs, month_pred(months@[j].key()));
        }
    }
    let b1 = plan1_bill(&totals, billing_days);
    let b2 = plan2_bill(&totals, billing_days);
    let b3 = plan3_bill(&totals, billing_days, &peaks);
    let b4 = plan4_bill(&months);
    proof {
        assert(plan1_match(fs, b1));
        assert(plan2_match(fs, b2));
        assert forall|k: int| month_keys(fs).contains(k) implies exists|j: int|
            0 <= j < b3.demand_charges@.len() && pack_month_key(
                (#[trigger] b3.demand_charges@[j]).year as int,
                b3.demand_charges@[j].month as int,
            ) == k by {
            let j = choose|j: int| 0 <= j < peaks@.len() && #[trigger] peaks@[j].key() == k;
            assert(b3.demand_charges@[j].year == peaks@[j].year);
            assert(pack_month_key(
                b3.demand_charges@[j].year as int,
                b3.demand_charges@[j].month as int,
            ) == k);
        }
        assert(plan3_match(fs, b3));
        assert forall|k: int| month_keys(fs).contains(k) implies exists|j: int|
            0 <= j < b4.months@.len() && pack_month_key(
                (#[trigger] b4.months@[j]).year as int,
                b4.months@[j].month as int,
            ) == k by {
            let j = choose|j: int| 0 <= j < months@.len() && #[trigger] months@[j].key() == k;
            assert(b4.months@[j].year == months@[j].year);
            assert(pack_month_key(
                b4.months@[j].year as int,
                b4.months@[j].month as int,
            ) == k);
        }
        assert(plan4_match(fs, b4));
    }
    Bills { plan1: b1, plan2: b2, plan3: b3, plan4: b4 }
}

} // verus!
