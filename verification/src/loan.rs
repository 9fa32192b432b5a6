use vstd::prelude::*;
use vstd::math::max;
use crate::arith::{
    annuity_payment, spec_annuity, spec_monthly_interest, RATE_DENOM, MAX_RATE, MAX_PRINCIPAL,
    MAX_INSTALLMENTS,
};
use crate::date::{Date, add_months, is_valid_date, spec_add_months};
use crate::model::{
    LoanSpec, RecordSpec, SimState, sim_run, sim_step, sim_final, trigger_fires,
    lemma_run_invariants, lemma_run_freezes, lemma_interest_bounds, lemma_interest_monotone,
};
use vstd::arithmetic::mul::lemma_mul_inequality;

verus! {

/// One row of the amortization ledger.  Amounts are in minor currency
/// units; `installment_amount` is the annuity payment in effect for the
/// period, of which `interest` plus `principal` is actually consumed
/// (less than the full payment only when the final payment is capped by
/// the remaining balance).
#[derive(Clone, Debug, PartialEq, Eq)]
pub struct InstallmentInfo {
    pub installment_number: u32,
    pub installment_amount: u64,
    pub interest: u64,
    pub principal: u64,
}

impl View for InstallmentInfo {
    type V = RecordSpec;

    open spec fn view(&self) -> RecordSpec {
        RecordSpec {
            number: self.installment_number as int,
            amount: self.installment_amount as int,
            interest: self.interest as int,
            principal: self.principal as int,
        }
    }
}

/// The full outcome of one simulation run.
#[derive(Clone, Debug, PartialEq, Eq)]
pub struct SimulationResult {
    pub installments: Vec<InstallmentInfo>,
    pub total_interest: u64,
    pub actual_installment_count: u32,
    pub loan_duration_years: u32,
    pub loan_duration_months: u32,
    pub loan_amount: u64,
    pub initial_interest_rate: u32,
    pub final_interest_rate: u32,
    pub monthly_overpayment: u64,
    pub end_date: Date,
}

/// The two runs side by side, with the derived savings.
#[derive(Clone, Debug, PartialEq, Eq)]
pub struct SimulationComparison {
    pub with_overpayments: SimulationResult,
    pub without_overpayments: SimulationResult,
    pub interest_savings: i128,
    pub loan_reduction_years: u32,
    pub loan_reduction_months: u32,
    pub total_overpayment: u128,
}

/// Rejected inputs.
#[derive(Clone, Copy, Debug, PartialEq, Eq, Structural)]
pub enum LoanError {
    /// The decrease frequency is zero; it is used as a divisor.
    InvalidConfiguration,
    /// An amount, rate, count or date is outside the supported range.
    InvalidRange,
}

/// The mathematical inputs that a set of arguments stands for.
pub open spec fn loan_model(
    loan_amount: u64,
    annual_interest_rate: u32,
    installment_count: u32,
    initial_overpayment: u64,
    interest_rate_decrease: u32,
    decrease_frequency: u32,
    minimum_interest_rate: u32,
) -> LoanSpec {
    LoanSpec {
        principal: loan_amount as int,
        rate: annual_interest_rate as int,
        count: installment_count as int,
        overpayment: initial_overpayment as int,
        rate_decrease: interest_rate_decrease as int,
        decrease_frequency: decrease_frequency as int,
        min_rate: minimum_interest_rate as int,
    }
}

/// The range checks of `simulate_loan`, other than the decrease
/// frequency.
pub open spec fn inputs_in_range(
    loan_amount: u64,
    annual_interest_rate: u32,
    installment_count: u32,
    start_date: Date,
) -> bool {
    &&& 1 <= installment_count <= MAX_INSTALLMENTS
    &&& loan_amount <= MAX_PRINCIPAL
    &&& annual_interest_rate <= MAX_RATE
    &&& start_date.wf()
}

/// What a `SimulationResult` must hold: exactly the final state of the
/// mathematical run `q`, with the duration and the end date derived from
/// the number of periods actually consumed.
pub open spec fn result_matches(res: SimulationResult, q: LoanSpec, start: Date) -> bool {
    let st = sim_final(q);
    &&& res.installments@.len() == st.records.len()
    &&& (forall|i: int| 0 <= i < st.records.len() ==> res.installments@[i]@ == st.records[i])
    &&& res.total_interest == st.total_interest
    &&& res.actual_installment_count == st.records.len()
    &&& res.loan_duration_years == st.records.len() as int / 12
    &&& res.loan_duration_months == st.records.len() as int % 12
    &&& res.loan_amount == q.principal
    &&& res.initial_interest_rate == q.rate
    &&& res.final_interest_rate == st.rate
    &&& res.monthly_overpayment == q.overpayment
    &&& res.end_date == spec_add_months(start, st.records.len() - 1)
}

/// Runs one amortization simulation: a fixed-term annuity loan with an
/// optional monthly overpayment and optional periodic rate step-downs.
///
/// Amounts are in minor currency units; rates in hundredths of a
/// percentage point per year.
pub fn simulate_loan(
    loan_amount: u64,
    annual_interest_rate: u32,
    installment_count: u32,
    initial_overpayment: u64,
    start_date: Date,
    interest_rate_decrease: u32,
    decrease_frequency: u32,
    minimum_interest_rate: u32,
) -> (r: Result<SimulationResult, LoanError>)
    ensures
        ((r matches Err(LoanError::InvalidConfiguration)) <==> decrease_frequency == 0),
        ((r matches Err(LoanError::InvalidRange)) <==> (decrease_frequency != 0
            && !inputs_in_range(loan_amount, annual_interest_rate, installment_count, start_date))),
        decrease_frequency != 0 && inputs_in_range(
            loan_amount,
            annual_interest_rate,
            installment_count,
            start_date,
        ) ==> (r matches Ok(res) && result_matches(
            res,
            loan_model(
                loan_amount,
                annual_interest_rate,
                installment_count,
                initial_overpayment,
                interest_rate_decrease,
                decrease_frequency,
                minimum_interest_rate,
            ),
            start_date,
        )),
{
    if decrease_frequency == 0 {
        return Err(LoanError::InvalidConfiguration);
    }
    if installment_count == 0 || installment_count > MAX_INSTALLMENTS || loan_amount
        > MAX_PRINCIPAL || annual_interest_rate > MAX_RATE || !is_valid_date(&start_date) {
        return Err(LoanError::InvalidRange);
    }
    let ghost q = loan_model(
        loan_amount,
        annual_interest_rate,
        installment_count,
        initial_overpayment,
        interest_rate_decrease,
        decrease_frequency,
        minimum_interest_rate,
    );
    let mut balance: u64 = loan_amount;
    let mut rate: u32 = annual_interest_rate;
    let mut payment: u64 = annuity_payment(loan_amount, annual_interest_rate, installment_count);
    let mut total_interest: u64 = 0;
    let mut installments: Vec<InstallmentInfo> = Vec::new();
    let mut k: u32 = 1;
    let mut running: bool = true;
    while running && k <= installment_count
        invariant
            q == loan_model(
                loan_amount,
                annual_interest_rate,
                installment_count,
                initial_overpayment,
                interest_rate_decrease,
                decrease_frequency,
                minimum_interest_rate,
            ),
            q.wf(),
            1 <= k <= installment_count + 1,
            ({
                let st = sim_run(q, k - 1);
                &&& balance == st.balance
                &&& rate == st.rate
                &&& payment == st.payment
                &&& total_interest == st.total_interest
                &&& installments@.len() == st.records.len()
                &&& (forall|i: int|
                    0 <= i < st.records.len() ==> installments@[i]@ == st.records[i])
                &&& (running <==> !st.stopped)
            }),
        decreases installment_count + 1 - k,
    {
        proof {
            lemma_run_invariants(q, k - 1);
        }
        let ghost prev = sim_run(q, k - 1);
        let fires: bool = k % decrease_frequency == 0 && interest_rate_decrease != 0 && rate
            > minimum_interest_rate;
        proof {
            assert(fires == trigger_fires(prev, k as int, q));
        }
        if fires {
            let new_rate: u32 = if rate > interest_rate_decrease {
                let lowered = rate - interest_rate_decrease;
                if lowered > minimum_interest_rate {
                    lowered
                } else {
                    minimum_interest_rate
                }
            } else {
                minimum_interest_rate
            };
            proof {
                assert(new_rate == max(q.min_rate, prev.rate - q.rate_decrease));
            }
            rate = new_rate;
            payment = annuity_payment(balance, rate, installment_count - k + 1);
        }
        proof {
            assert(balance as int * rate as int <= MAX_PRINCIPAL as int * (RATE_DENOM as int)) by {
                lemma_mul_inequality(balance as int, MAX_PRINCIPAL as int, rate as int);
                lemma_mul_inequality(rate as int, RATE_DENOM as int, MAX_PRINCIPAL as int);
                assert(MAX_PRINCIPAL as int * rate as int == rate as int * MAX_PRINCIPAL as int);
                assert(MAX_PRINCIPAL as int * (RATE_DENOM as int) == RATE_DENOM as int
                    * MAX_PRINCIPAL as int);
            }
            lemma_interest_bounds(balance as int, rate as int, q.principal);
            if !fires {
                lemma_interest_monotone(balance as int, q.principal, rate as int);
            }
        }
        let interest: u64 = (balance as u128 * rate as u128 / (RATE_DENOM as u128)) as u64;
        proof {
            assert(interest == spec_monthly_interest(balance as int, rate as int));
            assert(payment >= interest);
        }
        let diff: u64 = payment - interest;
        let principal_part: u64 = if diff < balance {
            diff
        } else {
            balance
        };
        balance = balance - principal_part;
        let extra: u64 = if initial_overpayment < balance {
            initial_overpayment
        } else {
            balance
        };
        balance = balance - extra;
        installments.push(
            InstallmentInfo {
                installment_number: k,
                installment_amount: payment,
                interest,
                principal: principal_part,
            },
        );
        proof {
            let stk = sim_step(prev, k as int, q);
            assert(sim_run(q, k as int) == stk);
            lemma_run_invariants(q, k as int);
            assert(stk.total_interest <= k as int * q.principal);
            assert(k as int * q.principal <= MAX_INSTALLMENTS as int * (MAX_PRINCIPAL as int)) by {
                lemma_mul_inequality(k as int, MAX_INSTALLMENTS as int, q.principal);
                lemma_mul_inequality(q.principal, MAX_PRINCIPAL as int, MAX_INSTALLMENTS as int);
                assert(MAX_INSTALLMENTS as int * q.principal == q.principal * (
                MAX_INSTALLMENTS as int));
                assert(MAX_INSTALLMENTS as int * (MAX_PRINCIPAL as int) == MAX_PRINCIPAL as int * (
                MAX_INSTALLMENTS as int));
            }
            assert(forall|i: int|
                0 <= i < prev.records.len() ==> installments@[i]@ == #[trigger] stk.records[i]);
        }
        total_interest = total_interest + interest;
        if balance == 0 {
            running = false;
        }
        k = k + 1;
    }
    proof {
        if running {
            assert(k == installment_count + 1);
        } else {
            lemma_run_freezes(q, k - 1, installment_count as int);
        }
        assert(sim_run(q, k - 1) == sim_final(q));
        lemma_run_invariants(q, installment_count as int);
    }
    let actual: u32 = installments.len() as u32;
    let end_date: Date = add_months(start_date, actual - 1);
    Ok(
        SimulationResult {
            installments,
            total_interest,
            actual_installment_count: actual,
            loan_duration_years: actual / 12,
            loan_duration_months: actual % 12,
            loan_amount,
            initial_interest_rate: annual_interest_rate,
            final_interest_rate: rate,
            monthly_overpayment: initial_overpayment,
            end_date,
        },
    )
}

/// What a `SimulationComparison` must hold: the two runs exactly as
/// `simulate_loan` returns them, the interest savings as their exact
/// difference, the term reduction (zero if the overpayment run was
/// somehow longer), and the configured overpayment times the number of
/// periods of the overpayment run.
pub open spec fn comparison_matches(
    c: SimulationComparison,
    q_with: LoanSpec,
    q_without: LoanSpec,
    start: Date,
) -> bool {
    let reduction = if sim_final(q_with).records.len() <= sim_final(q_without).records.len() {
        sim_final(q_without).records.len() - sim_final(q_with).records.len()
    } else {
        0
    };
    &&& result_matches(c.with_overpayments, q_with, start)
    &&& result_matches(c.without_overpayments, q_without, start)
    &&& c.interest_savings == sim_final(q_without).total_interest - sim_final(
        q_with,
    ).total_interest
    &&& c.loan_reduction_years == reduction / 12
    &&& c.loan_reduction_months == reduction % 12
    &&& c.total_overpayment == q_with.overpayment * sim_final(q_with).records.len()
}

/// Runs the simulation twice — once with the configured overpayment and
/// once with none — and derives the savings of paying extra.
pub fn compare_simulations(
    loan_amount: u64,
    annual_interest_rate: u32,
    installment_count: u32,
    initial_overpayment: u64,
    start_date: Date,
    interest_rate_decrease: u32,
    decrease_frequency: u32,
    minimum_interest_rate: u32,
) -> (r: Result<SimulationComparison, LoanError>)
    ensures
        ((r matches Err(LoanError::InvalidConfiguration)) <==> decrease_frequency == 0),
        ((r matches Err(LoanError::InvalidRange)) <==> (decrease_frequency != 0
            && !inputs_in_range(loan_amount, annual_interest_rate, installment_count, start_date))),
        decrease_frequency != 0 && inputs_in_range(
            loan_amount,
            annual_interest_rate,
            installment_count,
            start_date,
        ) ==> (r matches Ok(c) && comparison_matches(
            c,
            loan_model(
                loan_amount,
                annual_interest_rate,
                installment_count,
                initial_overpayment,
                interest_rate_decrease,
                decrease_frequency,
                minimum_interest_rate,
            ),
            loan_model(
                loan_amount,
                annual_interest_rate,
                installment_count,
                0,
                interest_rate_decrease,
                decrease_frequency,
                minimum_interest_rate,
            ),
            start_date,
        )),
{
    let with_overpayments = match simulate_loan(
        loan_amount,
        annual_interest_rate,
        installment_count,
        initial_overpayment,
        start_date,
        interest_rate_decrease,
        decrease_frequency,
        minimum_interest_rate,
    ) {
        Ok(res) => res,
        Err(e) => {
            return Err(e);
        },
    };
    let without_overpayments = match simulate_loan(
        loan_amount,
        annual_interest_rate,
        installment_count,
        0,
        start_date,
        interest_rate_decrease,
        decrease_frequency,
        minimum_interest_rate,
    ) {
        Ok(res) => res,
        Err(e) => {
            proof {
                assert(false);
            }
            return Err(e);
        },
    };
    let interest_savings: i128 = without_overpayments.total_interest as i128
        - with_overpayments.total_interest as i128;
    let reduction_months: u32 = if with_overpayments.actual_installment_count
        <= without_overpayments.actual_installment_count {
        without_overpayments.actual_installment_count
            - with_overpayments.actual_installment_count
    } else {
        0
    };
    proof {
        lemma_mul_inequality(
            initial_overpayment as int,
            u64::MAX as int,
            with_overpayments.actual_installment_count as int,
        );
        lemma_mul_inequality(
            with_overpayments.actual_installment_count as int,
            u32::MAX as int,
            u64::MAX as int,
        );
        assert(initial_overpayment as int * with_overpayments.actual_installment_count as int
            <= u64::MAX as int * u32::MAX as int) by {
            assert(u64::MAX as int * with_overpayments.actual_installment_count as int
                == with_overpayments.actual_installment_count as int * u64::MAX as int);
            assert(u64::MAX as int * u32::MAX as int == u32::MAX as int * u64::MAX as int);
        }
    }
    let total_overpayment: u128 = initial_overpayment as u128
        * with_overpayments.actual_installment_count as u128;
    Ok(
        SimulationComparison {
            with_overpayments,
            without_overpayments,
            interest_savings,
            loan_reduction_years: reduction_months / 12,
            loan_reduction_months: reduction_months % 12,
            total_overpayment,
        },
    )
}

} // verus!
