use vstd::prelude::*;
use crate::arith::spec_annuity;
use crate::model::{
    LoanSpec, sim_run, sim_step, sim_final, trigger_fires, sum_principals, lemma_run_invariants,
    lemma_run_freezes, lemma_interest_bounds, lemma_interest_monotone,
};
use vstd::math::max;
use crate::arith::spec_monthly_interest;

verus! {

/// The principal portions of the ledger, the overpayments and the open
/// balance always add up exactly to the original loan amount.
pub proof fn lemma_principal_conservation(q: LoanSpec)
    requires
        q.wf(),
    ensures
        sim_final(q).balance + sim_final(q).total_overpaid + sum_principals(sim_final(q).records)
            == q.principal,
{
    lemma_run_invariants(q, q.count);
}

/// The run never consumes more than the scheduled number of periods, and
/// consumes exactly that number if and only if the balance never reaches
/// exactly zero at any earlier period.
pub proof fn lemma_actual_count(q: LoanSpec)
    requires
        q.wf(),
    ensures
        sim_final(q).records.len() <= q.count,
        (sim_final(q).records.len() == q.count) <==> (forall|j: int|
            1 <= j < q.count ==> sim_run(q, j).balance != 0),
{
    lemma_run_invariants(q, q.count);
    lemma_run_invariants(q, q.count - 1);
    let prev = sim_run(q, q.count - 1);
    if prev.stopped {
        lemma_run_freezes(q, q.count - 1, q.count);
        assert(sim_final(q).records.len() < q.count);
        assert(q.count - 1 >= 1 && prev.balance == 0);
        assert(!(forall|j: int| 1 <= j < q.count ==> sim_run(q, j).balance != 0)) by {
            assert(sim_run(q, q.count - 1).balance == 0);
        }
    } else {
        assert(prev.records.len() == q.count - 1);
        assert(sim_run(q, q.count) == sim_step(prev, q.count, q));
        assert(sim_final(q).records.len() == q.count);
        assert forall|j: int| 1 <= j < q.count implies sim_run(q, j).balance != 0 by {
            lemma_run_invariants(q, j);
            if sim_run(q, j).balance == 0 {
                assert(sim_run(q, j).stopped);
                lemma_run_freezes(q, j, q.count - 1);
                assert(false);
            }
        }
    }
}

/// Terms under which no step-down can ever fire: the step is zero, the
/// first trigger lies beyond the scheduled term, or the rate already sits
/// at the floor.
pub open spec fn no_step_downs(q: LoanSpec) -> bool {
    q.rate_decrease == 0 || q.decrease_frequency > q.count || q.rate <= q.min_rate
}

/// Shared shape of the two runs compared by `lemma_overpayment_monotonic`:
/// identical terms under which no step-down fires, and the second
/// overpays at least as much each month.
pub open spec fn overpay_variants(q1: LoanSpec, q2: LoanSpec) -> bool {
    &&& q1.wf()
    &&& q2.wf()
    &&& q2 == (LoanSpec { overpayment: q2.overpayment, ..q1 })
    &&& q1.overpayment <= q2.overpayment
    &&& no_step_downs(q1)
}

proof fn lemma_mono_run(q1: LoanSpec, q2: LoanSpec, k: int)
    requires
        overpay_variants(q1, q2),
        0 <= k <= q1.count,
    ensures
        ({
            let s1 = sim_run(q1, k);
            let s2 = sim_run(q2, k);
            &&& s2.balance <= s1.balance
            &&& s2.total_interest <= s1.total_interest
            &&& s2.records.len() <= s1.records.len()
            &&& (s1.stopped ==> s2.stopped)
            &&& s1.rate == q1.rate
            &&& s2.rate == q1.rate
            &&& s1.payment == s2.payment
        }),
    decreases k,
{
    lemma_run_invariants(q1, k);
    lemma_run_invariants(q2, k);
    if k > 0 {
        lemma_mono_run(q1, q2, k - 1);
        lemma_run_invariants(q1, k - 1);
        lemma_run_invariants(q2, k - 1);
        let p1 = sim_run(q1, k - 1);
        let p2 = sim_run(q2, k - 1);
        // no step-down can fire, so neither run ever changes rate or payment
        if q1.decrease_frequency > q1.count {
            vstd::arithmetic::div_mod::lemma_small_mod(k as nat, q1.decrease_frequency as nat);
        }
        assert(!trigger_fires(p1, k, q1));
        assert(!trigger_fires(p2, k, q2));
        if !p1.stopped && !p2.stopped {
            lemma_interest_monotone(p2.balance, p1.balance, q1.rate);
        } else if !p1.stopped && p2.stopped {
            // the heavier-overpaying run has already finished at zero
            lemma_interest_bounds(p1.balance, p1.rate, q1.principal);
        }
    }
}

/// Raising the monthly overpayment (all other terms fixed, step-downs
/// disabled) never lengthens the loan and never increases the total
/// interest paid.
pub proof fn lemma_overpayment_monotonic(q1: LoanSpec, q2: LoanSpec)
    requires
        overpay_variants(q1, q2),
    ensures
        sim_final(q2).records.len() <= sim_final(q1).records.len(),
        sim_final(q2).total_interest <= sim_final(q1).total_interest,
{
    lemma_mono_run(q1, q2, q1.count);
}

/// With a zero interest rate no period accrues interest and every
/// period's installment is the plain division of the loan amount by the
/// scheduled count.
pub proof fn lemma_zero_rate(q: LoanSpec, k: int)
    requires
        q.wf(),
        q.rate == 0,
        0 <= k <= q.count,
    ensures
        ({
            let st = sim_run(q, k);
            &&& st.total_interest == 0
            &&& st.rate == 0
            &&& st.payment == spec_annuity(q.principal, 0, q.count)
            &&& forall|i: int|
                0 <= i < st.records.len() ==> (#[trigger] st.records[i]).interest == 0
                    && st.records[i].amount == spec_annuity(q.principal, 0, q.count)
        }),
    decreases k,
{
    if k > 0 {
        lemma_zero_rate(q, k - 1);
        let prev = sim_run(q, k - 1);
        if !prev.stopped {
            assert(!trigger_fires(prev, k, q));
            assert(prev.balance * 0 == 0) by {
                vstd::arithmetic::mul::lemma_mul_by_zero_is_zero(prev.balance);
            }
            assert(spec_monthly_interest(prev.balance, 0) == 0);
        }
    }
}

/// A period at which no step-down fires leaves the rate and the annuity
/// payment exactly as they were, so the values set by a trigger stay in
/// force until the next trigger.
pub proof fn lemma_rate_persists(q: LoanSpec, k: int)
    requires
        q.wf(),
        1 <= k <= q.count,
        !sim_run(q, k - 1).stopped,
        !trigger_fires(sim_run(q, k - 1), k, q),
    ensures
        sim_run(q, k).rate == sim_run(q, k - 1).rate,
        sim_run(q, k).payment == sim_run(q, k - 1).payment,
{
    let prev = sim_run(q, k - 1);
    assert(sim_run(q, k) == sim_step(prev, k, q));
}

/// The step-down order of operations: when period `k` triggers, the new
/// rate is the old one lowered by the step and floored at the minimum,
/// the payment is recomputed as the annuity of the balance left after
/// period `k - 1` over the remaining term, and period `k` itself already
/// accrues interest at the new rate.
pub proof fn lemma_step_down(q: LoanSpec, k: int)
    requires
        q.wf(),
        1 <= k <= q.count,
        !sim_run(q, k - 1).stopped,
        trigger_fires(sim_run(q, k - 1), k, q),
    ensures
        ({
            let prev = sim_run(q, k - 1);
            let st = sim_run(q, k);
            &&& st.rate == max(q.min_rate, prev.rate - q.rate_decrease)
            &&& st.payment == spec_annuity(prev.balance, st.rate, q.count - k + 1)
            &&& st.records.len() == prev.records.len() + 1
            &&& st.records.last().number == k
            &&& st.records.last().amount == st.payment
            &&& st.records.last().interest == spec_monthly_interest(prev.balance, st.rate)
        }),
{
    let prev = sim_run(q, k - 1);
    assert(sim_run(q, k) == sim_step(prev, k, q));
}

} // verus!
