//! The engine's general laws, stated and proved over the model.

use vstd::prelude::*;

use crate::model::{
    b_pred, billing_day_keys, day_b, day_b_pred, day_off_a, day_off_a_pred, day_on_a,
    day_on_a_pred, day_pred, day_total, lemma_keys_permutation, lemma_month_peak_permutation,
    lemma_sum_where_permutation, lemma_sum_where_split, month_peak, month_keys, month_total,
    month_pred, off_a_pred, on_a_pred, sum_where, Reading,
};
use crate::period::{on_peak_spec, period_b_spec, PeriodB};
use crate::rates::{bills_match, Bills};

verus! {

/// Every day's total is exactly its scheme A split, and exactly its three-
/// way scheme B split: no energy is lost or double-counted by either
/// classification.
pub proof fn lemma_daily_split(s: Seq<Reading>, dk: int)
    ensures
        day_total(s, dk) == day_on_a(s, dk) + day_off_a(s, dk),
        day_total(s, dk) == day_b(s, dk, PeriodB::OnPeak) + day_b(s, dk, PeriodB::OffPeak)
            + day_b(s, dk, PeriodB::SuperOffPeak),
{
    lemma_sum_where_split(s, day_pred(dk), day_on_a_pred(dk), day_off_a_pred(dk));
    let not_on = |r: Reading| r.ts.date_key() == dk && period_b_spec(r.ts) != PeriodB::OnPeak;
    lemma_sum_where_split(s, day_pred(dk), day_b_pred(dk, PeriodB::OnPeak), not_on);
    lemma_sum_where_split(
        s,
        not_on,
        day_b_pred(dk, PeriodB::OffPeak),
        day_b_pred(dk, PeriodB::SuperOffPeak),
    );
}

/// The whole window's energy splits the same way across the period totals
/// of both schemes.
pub proof fn lemma_window_split(s: Seq<Reading>)
    ensures
        sum_where(s, on_a_pred()) + sum_where(s, off_a_pred()) == sum_where(
            s,
            b_pred(PeriodB::OnPeak),
        ) + sum_where(s, b_pred(PeriodB::OffPeak)) + sum_where(
            s,
            b_pred(PeriodB::SuperOffPeak),
        ),
{
    let all = |r: Reading| true;
    lemma_sum_where_split(s, all, on_a_pred(), off_a_pred());
    let not_on = |r: Reading| period_b_spec(r.ts) != PeriodB::OnPeak;
    lemma_sum_where_split(s, all, b_pred(PeriodB::OnPeak), not_on);
    lemma_sum_where_split(
        s,
        not_on,
        b_pred(PeriodB::OffPeak),
        b_pred(PeriodB::SuperOffPeak),
    );
}

/// Aggregation is order-independent: any two reading sequences holding the
/// same readings have the same billed days, the same daily and monthly
/// sums under every period, and the same monthly peaks.
pub proof fn lemma_aggregation_order_independent(s1: Seq<Reading>, s2: Seq<Reading>)
    requires
        s1.to_multiset() == s2.to_multiset(),
    ensures
        billing_day_keys(s1) == billing_day_keys(s2),
        month_keys(s1) == month_keys(s2),
        forall|dk: int| #[trigger] day_total(s1, dk) == day_total(s2, dk),
        forall|dk: int| #[trigger] day_on_a(s1, dk) == day_on_a(s2, dk),
        forall|dk: int| #[trigger] day_off_a(s1, dk) == day_off_a(s2, dk),
        forall|dk: int, p: PeriodB| #[trigger] day_b(s1, dk, p) == day_b(s2, dk, p),
        forall|mk: int| #[trigger] month_total(s1, mk) == month_total(s2, mk),
        forall|mk: int| #[trigger] month_peak(s1, mk) == month_peak(s2, mk),
        sum_where(s1, on_a_pred()) == sum_where(s2, on_a_pred()),
        sum_where(s1, off_a_pred()) == sum_where(s2, off_a_pred()),
        forall|p: PeriodB| sum_where(s1, #[trigger] b_pred(p)) == sum_where(s2, b_pred(p)),
{
    lemma_keys_permutation(s1, s2);
    assert forall|dk: int| #[trigger] day_total(s1, dk) == day_total(s2, dk) by {
        lemma_sum_where_permutation(s1, s2, day_pred(dk));
    }
    assert forall|dk: int| #[trigger] day_on_a(s1, dk) == day_on_a(s2, dk) by {
        lemma_sum_where_permutation(s1, s2, day_on_a_pred(dk));
    }
    assert forall|dk: int| #[trigger] day_off_a(s1, dk) == day_off_a(s2, dk) by {
        lemma_sum_where_permutation(s1, s2, day_off_a_pred(dk));
    }
    assert forall|dk: int, p: PeriodB| #[trigger] day_b(s1, dk, p) == day_b(s2, dk, p) by {
        lemma_sum_where_permutation(s1, s2, day_b_pred(dk, p));
    }
    assert forall|mk: int| #[trigger] month_total(s1, mk) == month_total(s2, mk) by {
        lemma_sum_where_permutation(s1, s2, month_pred(mk));
    }
    assert forall|mk: int| #[trigger] month_peak(s1, mk) == month_peak(s2, mk) by {
        lemma_month_peak_permutation(s1, s2, mk);
    }
    lemma_sum_where_permutation(s1, s2, on_a_pred());
    lemma_sum_where_permutation(s1, s2, off_a_pred());
    assert forall|p: PeriodB| sum_where(s1, #[trigger] b_pred(p)) == sum_where(
        s2,
        b_pred(p),
    ) by {
        lemma_sum_where_permutation(s1, s2, b_pred(p));
    }
}

/// The engine is deterministic in its scalar charges: any two bills that
/// describe the same reading series agree on plans 1 and 2 entirely and on
/// every energy charge of plan 3. (The itemized monthly lists are pinned
/// per month by [`bills_match`] itself.)
pub proof fn lemma_bills_deterministic(s: Seq<Reading>, b1: Bills, b2: Bills)
    requires
        bills_match(s, b1),
        bills_match(s, b2),
    ensures
        b1.plan1 == b2.plan1,
        b1.plan2 == b2.plan2,
        b1.plan3.billing_days == b2.plan3.billing_days,
        b1.plan3.fixed_charge == b2.plan3.fixed_charge,
        b1.plan3.on_peak_energy == b2.plan3.on_peak_energy,
        b1.plan3.on_peak_cost == b2.plan3.on_peak_cost,
        b1.plan3.off_peak_energy == b2.plan3.off_peak_energy,
        b1.plan3.off_peak_cost == b2.plan3.off_peak_cost,
        b1.plan3.energy_subtotal == b2.plan3.energy_subtotal,
{
}

} // verus!
