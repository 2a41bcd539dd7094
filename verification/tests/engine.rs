use chrono::Datelike;
use tariff_engine::aggregate::{aggregate_daily, aggregate_peaks};
use tariff_engine::model::Reading;
use tariff_engine::period::{is_on_peak, is_super_off_peak, period_tou_oa, PeriodB};
use tariff_engine::rates::{compute_bills, tier_split};
use tariff_engine::time::{weekday_from_monday, Date, Timestamp};

fn ts(year: i32, month: u32, day: u32, hour: u32, minute: u32) -> Timestamp {
    Timestamp { year, month, day, hour, minute }
}

fn reading(year: i32, month: u32, day: u32, hour: u32, kwh_micro: i64) -> Reading {
    Reading { ts: ts(year, month, day, hour, 0), energy: kwh_micro }
}

fn window_2024() -> (Date, Date) {
    (
        Date { year: 2024, month: 1, day: 1 },
        Date { year: 2024, month: 12, day: 31 },
    )
}

#[test]
fn weekday_matches_chrono() {
    let mut d = chrono::NaiveDate::from_ymd_opt(1999, 12, 25).unwrap();
    for _ in 0..2000 {
        let w = weekday_from_monday(d.year(), d.month(), d.day());
        assert_eq!(w, d.weekday().num_days_from_monday());
        d = d.succ_opt().unwrap();
    }
}

#[test]
fn summer_weekday_afternoon_is_on_peak_in_both_schemes() {
    // 2024-07-15 is a Monday; 3pm in July is on-peak.
    let t = ts(2024, 7, 15, 15, 0);
    assert!(is_on_peak(&t));
    assert_eq!(period_tou_oa(&t), PeriodB::OnPeak);
}

#[test]
fn winter_night_is_off_peak_a_and_super_off_peak_b() {
    let t = ts(2024, 12, 10, 2, 0);
    assert!(!is_on_peak(&t));
    assert!(is_super_off_peak(&t));
    assert_eq!(period_tou_oa(&t), PeriodB::SuperOffPeak);
}

#[test]
fn weekend_afternoon_is_not_on_peak() {
    // 2024-07-13 is a Saturday.
    let t = ts(2024, 7, 13, 15, 0);
    assert!(!is_on_peak(&t));
    assert_eq!(period_tou_oa(&t), PeriodB::OffPeak);
}

#[test]
fn on_peak_hour_boundaries() {
    assert!(!is_on_peak(&ts(2024, 7, 15, 13, 59)));
    assert!(is_on_peak(&ts(2024, 7, 15, 14, 0)));
    assert!(is_on_peak(&ts(2024, 7, 15, 18, 59)));
    assert!(!is_on_peak(&ts(2024, 7, 15, 19, 0)));
}

#[test]
fn single_summer_on_peak_reading_prices_plan1() {
    // 10.0 kWh on 2024-07-15 15:00: plan 1 energy cost 2.97868 dollars,
    // one billed day of fixed charge 0.4603, total 3.43898.
    let rs = vec![reading(2024, 7, 15, 15, 10_000_000)];
    let (a, b) = window_2024();
    let bills = compute_bills(&rs, &a, &b);
    assert_eq!(bills.plan1.billing_days, 1);
    assert_eq!(bills.plan1.fixed_charge, 460_300_000_000);
    assert_eq!(bills.plan1.on_peak_energy, 10_000_000);
    assert_eq!(bills.plan1.on_peak_cost, 2_978_680_000_000);
    assert_eq!(bills.plan1.off_peak_cost, 0);
    assert_eq!(bills.plan1.total, 3_438_980_000_000);
    // The same reading is on-peak under scheme B too.
    assert_eq!(bills.plan2.on_peak_energy, 10_000_000);
}

#[test]
fn single_winter_night_reading_prices_plan4_winter_rate() {
    // 5.0 kWh on 2024-12-10 02:00: winter month, single rate.
    let rs = vec![reading(2024, 12, 10, 2, 5_000_000)];
    let (a, b) = window_2024();
    let bills = compute_bills(&rs, &a, &b);
    assert_eq!(bills.plan4.months.len(), 1);
    let m = bills.plan4.months[0];
    assert_eq!((m.year, m.month), (2024, 12));
    assert!(!m.is_summer);
    assert_eq!((m.tier1, m.tier2, m.tier3), (0, 0, 0));
    assert_eq!(m.energy_cost, 403_010_000_000);
    assert_eq!(m.fixed_charge, 460_300_000_000);
    assert_eq!(m.monthly_total, 863_310_000_000);
    // Scheme B prices the same energy super-off-peak under plan 2.
    assert_eq!(bills.plan2.super_off_peak_energy, 5_000_000);
    assert_eq!(bills.plan2.super_off_peak_cost, 109_295_000_000);
}

#[test]
fn monthly_peak_drives_plan3_demand_charge() {
    // Two readings in June 2024: 3.0 and 7.0 kWh; the demand charge of the
    // month is 7.0 * 12.21 = 85.47 dollars.
    let rs = vec![
        reading(2024, 6, 1, 10, 3_000_000),
        reading(2024, 6, 2, 10, 7_000_000),
    ];
    let (a, b) = window_2024();
    let bills = compute_bills(&rs, &a, &b);
    assert_eq!(bills.plan3.demand_charges.len(), 1);
    let dc = bills.plan3.demand_charges[0];
    assert_eq!((dc.year, dc.month), (2024, 6));
    assert_eq!(dc.peak, 7_000_000);
    assert_eq!(dc.charge, 85_470_000_000_000);
    assert_eq!(bills.plan3.total_demand_charge, 85_470_000_000_000);
    let peaks = aggregate_peaks(&rs);
    assert_eq!(peaks.len(), 1);
    assert_eq!(peaks[0].peak, 7_000_000);
}

#[test]
fn pipeline_is_deterministic_and_order_independent() {
    let rs1 = vec![
        reading(2024, 6, 1, 10, 3_000_000),
        reading(2024, 6, 2, 10, 7_000_000),
        reading(2024, 7, 15, 15, 10_000_000),
        reading(2024, 12, 10, 2, 5_000_000),
    ];
    let mut rs2 = rs1.clone();
    rs2.reverse();
    let (a, b) = window_2024();
    let bills1 = compute_bills(&rs1, &a, &b);
    let bills1_again = compute_bills(&rs1, &a, &b);
    let bills2 = compute_bills(&rs2, &a, &b);
    assert_eq!(bills1, bills1_again);
    assert_eq!(bills1, bills2);
}

#[test]
fn tier_split_boundaries() {
    // Exactly 650 kWh falls entirely in tier 1.
    assert_eq!(tier_split(650_000_000), (650_000_000, 0, 0));
    assert_eq!(tier_split(650_000_001), (650_000_000, 1, 0));
    assert_eq!(tier_split(1_000_000_000), (650_000_000, 350_000_000, 0));
    assert_eq!(tier_split(1_200_000_000), (650_000_000, 350_000_000, 200_000_000));
    assert_eq!(tier_split(-5_000_000), (-5_000_000, 0, 0));
}

#[test]
fn summer_month_uses_tiered_pricing() {
    // 1200 kWh across June: tier1 650, tier2 350, tier3 200.
    let rs = vec![
        reading(2024, 6, 1, 10, 600_000_000),
        reading(2024, 6, 2, 10, 600_000_000),
    ];
    let (a, b) = window_2024();
    let bills = compute_bills(&rs, &a, &b);
    let m = bills.plan4.months[0];
    assert!(m.is_summer);
    assert_eq!((m.tier1, m.tier2, m.tier3), (650_000_000, 350_000_000, 200_000_000));
    // 650*0.086121 + 350*0.143047 + 200*0.148051 dollars, in pico-dollars.
    let expected = 650_000_000i128 * 86_121 + 350_000_000i128 * 143_047
        + 200_000_000i128 * 148_051;
    assert_eq!(m.energy_cost, expected);
    assert_eq!(m.total_usage, 1_200_000_000);
    assert_eq!(m.day_count, 2);
}

#[test]
fn empty_input_gives_zero_bills() {
    let rs: Vec<Reading> = vec![];
    let (a, b) = window_2024();
    let bills = compute_bills(&rs, &a, &b);
    assert_eq!(bills.plan1.total, 0);
    assert_eq!(bills.plan2.total, 0);
    assert_eq!(bills.plan3.total, 0);
    assert_eq!(bills.plan4.total, 0);
    assert!(bills.plan3.demand_charges.is_empty());
    assert!(bills.plan4.months.is_empty());
}

#[test]
fn window_filter_discards_outside_readings() {
    let rs = vec![
        reading(2023, 12, 31, 10, 1_000_000),
        reading(2024, 7, 15, 15, 10_000_000),
        reading(2025, 1, 1, 10, 1_000_000),
    ];
    let (a, b) = window_2024();
    let bills = compute_bills(&rs, &a, &b);
    assert_eq!(bills.plan1.billing_days, 1);
    assert_eq!(bills.plan1.on_peak_energy, 10_000_000);
    assert_eq!(bills.plan1.off_peak_energy, 0);
}

#[test]
fn daily_totals_split_across_both_schemes() {
    let rs = vec![
        reading(2024, 7, 15, 15, 4_000_000),
        reading(2024, 7, 15, 3, 2_000_000),
        reading(2024, 7, 15, 10, 1_000_000),
    ];
    let daily = aggregate_daily(&rs);
    assert_eq!(daily.len(), 1);
    let d = daily[0];
    assert_eq!(d.total, 7_000_000);
    assert_eq!(d.total, d.tou_reo_on + d.tou_reo_off);
    assert_eq!(d.total, d.tou_oa_on + d.tou_oa_off + d.tou_oa_super);
    assert_eq!(d.tou_reo_on, 4_000_000);
    assert_eq!(d.tou_oa_super, 2_000_000);
    assert_eq!(d.tou_oa_off, 1_000_000);
}
