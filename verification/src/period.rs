//! Billing-period classification of a timestamp.
//!
//! Two schemes run side by side. Scheme A splits every timestamp into
//! on-peak and off-peak; scheme B refines the off-peak side with a
//! super-off-peak night window, on-peak taking precedence.

use vstd::prelude::*;

use crate::time::{weekday_from_monday, weekday_spec, Timestamp};

verus! {

/// The three billing periods of scheme B. Every timestamp falls in exactly
/// one of them, by construction of the enum and of [`period_b_spec`].
#[derive(Clone, Copy, Debug, PartialEq, Eq, Structural)]
pub enum PeriodB {
    OnPeak,
    OffPeak,
    SuperOffPeak,
}

/// Scheme A on-peak rule: a weekday (Monday to Friday) of June through
/// September, with the hour of day in `[14, 19)`.
pub open spec fn on_peak_spec(ts: Timestamp) -> bool {
    &&& weekday_spec(ts.year as int, ts.month as int, ts.day as int) < 5
    &&& 6 <= ts.month <= 9
    &&& 14 <= ts.hour < 19
}

/// Scheme B super-off-peak window: from 23:00 up to 07:00, wrapping midnight.
pub open spec fn super_off_peak_spec(ts: Timestamp) -> bool {
    ts.hour >= 23 || ts.hour < 7
}

/// Scheme B classification. On-peak takes precedence over the night window.
pub open spec fn period_b_spec(ts: Timestamp) -> PeriodB {
    if on_peak_spec(ts) {
        PeriodB::OnPeak
    } else if super_off_peak_spec(ts) {
        PeriodB::SuperOffPeak
    } else {
        PeriodB::OffPeak
    }
}

/// Scheme A classifier: true exactly on on-peak timestamps.
pub fn is_on_peak(ts: &Timestamp) -> (r: bool)
    requires
        ts.valid(),
    ensures
        r == on_peak_spec(*ts),
{
    let weekday = weekday_from_monday(ts.year, ts.month, ts.day);
    weekday < 5 && ts.month >= 6 && ts.month <= 9 && ts.hour >= 14 && ts.hour < 19
}

/// True exactly on timestamps inside the super-off-peak night window.
pub fn is_super_off_peak(ts: &Timestamp) -> (r: bool)
    ensures
        r == super_off_peak_spec(*ts),
{
    ts.hour >= 23 || ts.hour < 7
}

/// Scheme B classifier: the unique period of scheme B the timestamp is in.
pub fn period_tou_oa(ts: &Timestamp) -> (p: PeriodB)
    requires
        ts.valid(),
    ensures
        p == period_b_spec(*ts),
{
    if is_on_peak(ts) {
        PeriodB::OnPeak
    } else if is_super_off_peak(ts) {
        PeriodB::SuperOffPeak
    } else {
        PeriodB::OffPeak
    }
}

/// Classification is total and deterministic: scheme A puts every timestamp
/// in exactly one of on-peak and off-peak, and scheme B in exactly one of
/// its three periods, with on-peak agreeing between the two schemes.
pub proof fn lemma_classification_total(ts: Timestamp)
    ensures
        period_b_spec(ts) == PeriodB::OnPeak <==> on_peak_spec(ts),
        period_b_spec(ts) == PeriodB::SuperOffPeak <==> (!on_peak_spec(ts)
            && super_off_peak_spec(ts)),
        period_b_spec(ts) == PeriodB::OffPeak <==> (!on_peak_spec(ts)
            && !super_off_peak_spec(ts)),
{
}

} // verus!
