use vstd::prelude::*;
use vstd::math::{min, max};
use crate::arith::{
    spec_annuity, spec_monthly_interest, lemma_annuity_bounds, RATE_DENOM, MAX_RATE,
    MAX_PRINCIPAL, MAX_INSTALLMENTS,
};
use vstd::arithmetic::div_mod::lemma_div_is_ordered;
use vstd::arithmetic::mul::lemma_mul_inequality;

verus! {

/// The inputs of one simulation run, as mathematical integers.  Amounts
/// are in minor currency units; rates in hundredths of a percentage
/// point per year.
pub ghost struct LoanSpec {
    pub principal: int,
    pub rate: int,
    pub count: int,
    pub overpayment: int,
    pub rate_decrease: int,
    pub decrease_frequency: int,
    pub min_rate: int,
}

impl LoanSpec {
    pub open spec fn wf(self) -> bool {
        &&& 0 <= self.principal <= MAX_PRINCIPAL
        &&& 0 <= self.rate <= MAX_RATE
        &&& 1 <= self.count <= MAX_INSTALLMENTS
        &&& self.overpayment >= 0
        &&& self.rate_decrease >= 0
        &&& self.decrease_frequency >= 1
        &&& self.min_rate >= 0
    }
}

/// One row of the ledger.
pub ghost struct RecordSpec {
    pub number: int,
    pub amount: int,
    pub interest: int,
    pub principal: int,
}

/// The running state of a simulation after some number of periods.
pub ghost struct SimState {
    pub balance: int,
    pub rate: int,
    pub payment: int,
    pub total_interest: int,
    pub total_overpaid: int,
    pub records: Seq<RecordSpec>,
    pub stopped: bool,
}

/// Whether period `k` lowers the rate: `k` is an exact multiple of the
/// decrease frequency, step-downs are enabled, and the rate is still
/// above the floor.
pub open spec fn trigger_fires(st: SimState, k: int, q: LoanSpec) -> bool {
    k % q.decrease_frequency == 0 && q.rate_decrease != 0 && st.rate > q.min_rate
}

/// One period of the recurrence: an optional rate step-down with an
/// annuity recomputation over the remaining term, then interest,
/// capped principal, and the overpayment.
pub open spec fn sim_step(st: SimState, k: int, q: LoanSpec) -> SimState {
    let rate1 = if trigger_fires(st, k, q) {
        max(q.min_rate, st.rate - q.rate_decrease)
    } else {
        st.rate
    };
    let payment1 = if trigger_fires(st, k, q) {
        spec_annuity(st.balance, rate1, q.count - k + 1)
    } else {
        st.payment
    };
    let interest = spec_monthly_interest(st.balance, rate1);
    let principal_part = min(payment1 - interest, st.balance);
    let after_principal = st.balance - principal_part;
    let extra = min(q.overpayment, after_principal);
    let balance2 = after_principal - extra;
    SimState {
        balance: balance2,
        rate: rate1,
        payment: payment1,
        total_interest: st.total_interest + interest,
        total_overpaid: st.total_overpaid + extra,
        records: st.records.push(
            RecordSpec { number: k, amount: payment1, interest: interest, principal: principal_part },
        ),
        stopped: balance2 == 0,
    }
}

/// The state before the first period.
pub open spec fn sim_init(q: LoanSpec) -> SimState {
    SimState {
        balance: q.principal,
        rate: q.rate,
        payment: spec_annuity(q.principal, q.rate, q.count),
        total_interest: 0,
        total_overpaid: 0,
        records: Seq::empty(),
        stopped: false,
    }
}

/// The state after periods `1..=k`, stopping as soon as the balance
/// reaches exactly zero.
pub open spec fn sim_run(q: LoanSpec, k: int) -> SimState
    decreases k,
{
    if k <= 0 {
        sim_init(q)
    } else {
        let prev = sim_run(q, k - 1);
        if prev.stopped {
            prev
        } else {
            sim_step(prev, k, q)
        }
    }
}

/// The state at the end of the full run.
pub open spec fn sim_final(q: LoanSpec) -> SimState {
    sim_run(q, q.count)
}

/// Total of the principal portions of a ledger.
pub open spec fn sum_principals(records: Seq<RecordSpec>) -> int
    decreases records.len(),
{
    if records.len() == 0 {
        0
    } else {
        sum_principals(records.drop_last()) + records.last().principal
    }
}

/// Everything that holds of every reachable state: balances stay within
/// the loan amount, rates never rise, the payment always covers the
/// period's interest, every ledger row is well formed, and the principal
/// portions, the overpayments and the open balance always add up to the
/// original loan amount.
pub proof fn lemma_run_invariants(q: LoanSpec, k: int)
    requires
        q.wf(),
        0 <= k <= q.count,
    ensures
        ({
            let st = sim_run(q, k);
            &&& 0 <= st.balance <= q.principal
            &&& 0 <= st.rate <= q.rate
            &&& 0 <= st.payment <= 3 * q.principal
            &&& st.payment >= spec_monthly_interest(st.balance, st.rate)
            &&& 0 <= st.total_interest <= k * q.principal
            &&& 0 <= st.total_overpaid
            &&& st.balance + st.total_overpaid + sum_principals(st.records) == q.principal
            &&& st.records.len() <= k
            &&& (st.stopped <==> (st.records.len() >= 1 && st.balance == 0))
            &&& (!st.stopped ==> st.records.len() == k)
            &&& forall|i: int|
                0 <= i < st.records.len() ==> {
                    let r = #[trigger] st.records[i];
                    &&& r.number == i + 1
                    &&& 0 <= r.interest <= q.principal
                    &&& 0 <= r.principal <= q.principal
                    &&& 0 <= r.amount <= 3 * q.principal
                    &&& r.interest + r.principal <= r.amount
                }
        }),
    decreases k,
{
    if k == 0 {
        lemma_annuity_bounds(q.principal, q.rate, q.count);
        assert(spec_monthly_interest(q.principal, q.rate) >= 0) by {
            vstd::arithmetic::mul::lemma_mul_nonnegative(q.principal, q.rate);
            vstd::arithmetic::div_mod::lemma_div_pos_is_pos(q.principal * q.rate, RATE_DENOM as int);
        }
        assert(sim_run(q, 0).total_interest == 0 * q.principal);
    } else {
        lemma_run_invariants(q, k - 1);
        let prev = sim_run(q, k - 1);
        assert(prev.total_interest <= (k - 1) * q.principal);
        if prev.stopped {
            assert((k - 1) * q.principal <= k * q.principal) by {
                lemma_mul_inequality(k - 1, k, q.principal);
                assert((k - 1) * q.principal == q.principal * (k - 1));
                assert(k * q.principal == q.principal * k);
            }
        } else {
            let st = sim_step(prev, k, q);
            assert(sim_run(q, k) == st);
            let rate1 = if trigger_fires(prev, k, q) {
                max(q.min_rate, prev.rate - q.rate_decrease)
            } else {
                prev.rate
            };
            let payment1 = st.payment;
            lemma_interest_bounds(prev.balance, rate1, q.principal);
            if trigger_fires(prev, k, q) {
                lemma_annuity_bounds(prev.balance, rate1, q.count - k + 1);
                assert(3 * prev.balance <= 3 * q.principal);
                assert(payment1 >= spec_monthly_interest(prev.balance, rate1));
            } else {
                assert(payment1 >= spec_monthly_interest(prev.balance, rate1));
            }
            let interest = spec_monthly_interest(prev.balance, rate1);
            let principal_part = min(payment1 - interest, prev.balance);
            let after_principal = prev.balance - principal_part;
            let extra = min(q.overpayment, after_principal);
            // payment still covers the interest of the smaller new balance
            lemma_interest_monotone(st.balance, prev.balance, rate1);
            assert(st.total_interest <= k * q.principal) by {
                vstd::arithmetic::mul::lemma_mul_is_distributive_add(q.principal, k - 1, 1);
                assert(q.principal * ((k - 1) + 1) == q.principal * (k - 1) + q.principal * 1);
                assert((k - 1) * q.principal == q.principal * (k - 1));
                assert(k * q.principal == q.principal * k);
            }
            // the ledger grew by one well-formed row
            assert(sum_principals(st.records) == sum_principals(prev.records) + principal_part) by {
                assert(st.records.drop_last() =~= prev.records);
            }
            assert(forall|i: int|
                0 <= i < prev.records.len() ==> #[trigger] st.records[i] == prev.records[i]);
        }
    }
}

/// Interest is between zero and the balance itself, whenever the rate is
/// at most `RATE_DENOM`.
pub proof fn lemma_interest_bounds(balance: int, rate: int, cap: int)
    requires
        0 <= balance <= cap,
        0 <= rate <= RATE_DENOM,
    ensures
        0 <= spec_monthly_interest(balance, rate) <= balance,
{
    vstd::arithmetic::mul::lemma_mul_nonnegative(balance, rate);
    vstd::arithmetic::div_mod::lemma_div_pos_is_pos(balance * rate, RATE_DENOM as int);
    assert(balance * rate <= balance * RATE_DENOM) by {
        lemma_mul_inequality(rate, RATE_DENOM as int, balance);
        assert(rate * balance == balance * rate);
        assert(RATE_DENOM as int * balance == balance * RATE_DENOM);
    }
    lemma_div_is_ordered(balance * rate, balance * RATE_DENOM, RATE_DENOM as int);
    vstd::arithmetic::div_mod::lemma_div_by_multiple(balance, RATE_DENOM as int);
    assert(RATE_DENOM as int * balance == balance * RATE_DENOM);
}

/// A smaller balance accrues no more interest at the same rate.
pub proof fn lemma_interest_monotone(b1: int, b2: int, rate: int)
    requires
        0 <= b1 <= b2,
        0 <= rate,
    ensures
        spec_monthly_interest(b1, rate) <= spec_monthly_interest(b2, rate),
{
    lemma_mul_inequality(b1, b2, rate);
    lemma_div_is_ordered(b1 * rate, b2 * rate, RATE_DENOM as int);
}

/// Once a run has stopped, later periods change nothing.
pub proof fn lemma_run_freezes(q: LoanSpec, j: int, m: int)
    requires
        0 <= j <= m,
        sim_run(q, j).stopped,
    ensures
        sim_run(q, m) == sim_run(q, j),
    decreases m,
{
    if m > j {
        lemma_run_freezes(q, j, m - 1);
    }
}

} // verus!
