use chrono::Datelike;
use loan_sim::date::Date;
use loan_sim::loan::{compare_simulations, simulate_loan, LoanError};

fn date(year: i32, month: u32, day: u32) -> Date {
    Date { year, month, day }
}

#[test]
fn single_installment_zero_rate() {
    let start = date(2025, 10, 1);
    let res = simulate_loan(10000, 0, 1, 0, start, 0, 1, 0).unwrap();
    assert_eq!(res.actual_installment_count, 1);
    assert_eq!(res.installments.len(), 1);
    assert_eq!(res.installments[0].installment_number, 1);
    assert_eq!(res.installments[0].installment_amount, 10000);
    assert_eq!(res.installments[0].interest, 0);
    assert_eq!(res.installments[0].principal, 10000);
    assert_eq!(res.total_interest, 0);
    assert_eq!(res.loan_duration_years, 0);
    assert_eq!(res.loan_duration_months, 1);
    assert_eq!(res.end_date, start);
}

#[test]
fn single_installment_with_interest() {
    let start = date(2025, 10, 1);
    let res = simulate_loan(120000, 620, 1, 0, start, 0, 1, 0).unwrap();
    assert_eq!(res.actual_installment_count, 1);
    assert_eq!(res.installments[0].installment_amount, 120621);
    assert_eq!(res.installments[0].interest, 620);
    assert_eq!(res.installments[0].principal, 120000);
    assert_eq!(res.total_interest, 620);
    assert_eq!(res.end_date, start);
    assert_eq!(res.initial_interest_rate, 620);
    assert_eq!(res.final_interest_rate, 620);
}

#[test]
fn zero_rate_schedule() {
    let start = date(2025, 1, 15);
    let res = simulate_loan(120000, 0, 12, 0, start, 0, 1, 0).unwrap();
    assert_eq!(res.actual_installment_count, 12);
    assert_eq!(res.total_interest, 0);
    let mut sum: u64 = 0;
    for (i, inst) in res.installments.iter().enumerate() {
        assert_eq!(inst.installment_number as usize, i + 1);
        assert_eq!(inst.installment_amount, 10000);
        assert_eq!(inst.interest, 0);
        assert_eq!(inst.principal, 10000);
        sum += inst.principal;
    }
    assert_eq!(sum, 120000);
    assert_eq!(res.loan_duration_years, 1);
    assert_eq!(res.loan_duration_months, 0);
    assert_eq!(res.end_date, date(2025, 12, 15));
}

#[test]
fn principal_conservation_full_term() {
    let start = date(2025, 10, 1);
    let res = simulate_loan(10_000_000, 500, 120, 0, start, 0, 1, 0).unwrap();
    assert_eq!(res.actual_installment_count, 120);
    assert_eq!(res.total_interest, 2_727_766);
    let sum: u64 = res.installments.iter().map(|r| r.principal).sum();
    assert_eq!(sum, 10_000_000);
    for inst in &res.installments {
        assert!(inst.interest + inst.principal <= inst.installment_amount);
    }
}

#[test]
fn overpayment_shortens_and_saves() {
    let start = date(2025, 10, 1);
    let plain = simulate_loan(10_000_000, 500, 120, 0, start, 0, 1, 0).unwrap();
    let extra = simulate_loan(10_000_000, 500, 120, 100_000, start, 0, 1, 0).unwrap();
    assert_eq!(plain.actual_installment_count, 120);
    assert_eq!(extra.actual_installment_count, 55);
    assert_eq!(extra.total_interest, 1_195_304);
    assert!(extra.actual_installment_count <= plain.actual_installment_count);
    assert!(extra.total_interest <= plain.total_interest);
}

#[test]
fn step_down_recomputes_rate_and_payment() {
    let start = date(2025, 10, 1);
    let res = simulate_loan(1_000_000, 620, 48, 0, start, 100, 24, 350).unwrap();
    assert_eq!(res.actual_installment_count, 48);
    assert_eq!(res.initial_interest_rate, 620);
    // two triggers: 620 -> 520 at period 24, 520 -> 420 at period 48
    assert_eq!(res.final_interest_rate, 420);
    assert_eq!(res.installments[22].installment_amount, 23577);
    // recomputed annuity and new rate apply at the trigger period itself
    assert_eq!(res.installments[23].installment_amount, 23329);
    assert_eq!(res.installments[23].interest, 2390);
    assert_eq!(res.total_interest, 125_440);
}

#[test]
fn reference_scenario() {
    let start = date(2025, 10, 1);
    let cmp = compare_simulations(107_600_000, 620, 360, 500_000, start, 100, 24, 350).unwrap();
    let with = &cmp.with_overpayments;
    let without = &cmp.without_overpayments;
    assert!(with.actual_installment_count < 360);
    assert_eq!(with.actual_installment_count, 157);
    assert_eq!(without.actual_installment_count, 360);
    // the rate walked down one point every 24 periods to the 3.50% floor
    assert_eq!(with.final_interest_rate, 350);
    assert_eq!(without.final_interest_rate, 350);
    assert_eq!(with.installments[0].installment_amount, 659_017);
    assert_eq!(with.installments[0].interest, 555_933);
    assert_eq!(with.installments[0].principal, 103_084);
    assert_eq!(cmp.interest_savings, 43_777_583);
    assert!(cmp.interest_savings > 0);
    // 203 fewer periods: 16 years and 11 months
    assert_eq!(cmp.loan_reduction_years, 16);
    assert_eq!(cmp.loan_reduction_months, 11);
    assert_eq!(cmp.total_overpayment, 78_500_000);
    assert_eq!(with.end_date, date(2038, 10, 1));
    assert_eq!(without.end_date, date(2055, 9, 1));
}

#[test]
fn comparison_matches_direct_runs() {
    let start = date(2025, 10, 1);
    let cmp = compare_simulations(107_600_000, 620, 360, 500_000, start, 100, 24, 350).unwrap();
    let with = simulate_loan(107_600_000, 620, 360, 500_000, start, 100, 24, 350).unwrap();
    let without = simulate_loan(107_600_000, 620, 360, 0, start, 100, 24, 350).unwrap();
    assert_eq!(cmp.with_overpayments, with);
    assert_eq!(cmp.without_overpayments, without);
}

#[test]
fn zero_frequency_is_rejected() {
    let start = date(2025, 10, 1);
    assert_eq!(
        simulate_loan(10000, 620, 12, 0, start, 0, 0, 0),
        Err(LoanError::InvalidConfiguration)
    );
    assert_eq!(
        compare_simulations(10000, 620, 12, 0, start, 0, 0, 0),
        Err(LoanError::InvalidConfiguration)
    );
}

#[test]
fn out_of_range_inputs_are_rejected() {
    let start = date(2025, 10, 1);
    // no installments
    assert_eq!(
        simulate_loan(10000, 620, 0, 0, start, 0, 1, 0),
        Err(LoanError::InvalidRange)
    );
    // too many installments
    assert_eq!(
        simulate_loan(10000, 620, 10_001, 0, start, 0, 1, 0),
        Err(LoanError::InvalidRange)
    );
    // amount beyond the supported maximum
    assert_eq!(
        simulate_loan(1_000_000_000_000_001, 620, 12, 0, start, 0, 1, 0),
        Err(LoanError::InvalidRange)
    );
    // rate beyond the supported maximum
    assert_eq!(
        simulate_loan(10000, 120_001, 12, 0, start, 0, 1, 0),
        Err(LoanError::InvalidRange)
    );
}

#[test]
fn malformed_dates_are_rejected() {
    assert_eq!(
        simulate_loan(10000, 620, 12, 0, Date { year: 2025, month: 2, day: 29 }, 0, 1, 0),
        Err(LoanError::InvalidRange)
    );
    assert_eq!(
        simulate_loan(10000, 620, 12, 0, Date { year: 2025, month: 13, day: 1 }, 0, 1, 0),
        Err(LoanError::InvalidRange)
    );
    assert_eq!(
        simulate_loan(10000, 620, 12, 0, Date { year: 0, month: 1, day: 1 }, 0, 1, 0),
        Err(LoanError::InvalidRange)
    );
    assert_eq!(
        simulate_loan(10000, 620, 12, 0, Date { year: 10_000, month: 1, day: 1 }, 0, 1, 0),
        Err(LoanError::InvalidRange)
    );
}

#[test]
fn largest_supported_inputs_are_accepted() {
    let start = date(2025, 10, 1);
    let res = simulate_loan(1_000_000_000_000_000, 0, 10_000, 0, start, 0, 1, 0).unwrap();
    assert_eq!(res.actual_installment_count, 10_000);
    assert_eq!(res.installments[0].installment_amount, 100_000_000_000);
    assert_eq!(res.total_interest, 0);
    let sum: u64 = res.installments.iter().map(|r| r.principal).sum();
    assert_eq!(sum, 1_000_000_000_000_000);
    assert_eq!(res.end_date, date(2859, 1, 1));
}

#[test]
fn overpayment_clears_loan_at_once() {
    let start = date(2025, 10, 1);
    let res = simulate_loan(120_000, 620, 360, 200_000, start, 0, 1, 0).unwrap();
    assert_eq!(res.actual_installment_count, 1);
    assert_eq!(res.end_date, start);
    // the first period's interest is still accrued
    assert_eq!(res.total_interest, 620);
}

#[test]
fn end_date_clamps_to_month_length() {
    // two zero-rate installments: the loan ends one month after it starts
    let res = simulate_loan(20000, 0, 2, 0, date(2025, 1, 31), 0, 1, 0).unwrap();
    assert_eq!(res.actual_installment_count, 2);
    assert_eq!(res.end_date, date(2025, 2, 28));
    let leap = simulate_loan(20000, 0, 2, 0, date(2024, 1, 31), 0, 1, 0).unwrap();
    assert_eq!(leap.end_date, date(2024, 2, 29));
}

#[test]
fn end_date_agrees_with_chrono() {
    let res = simulate_loan(107_600_000, 620, 360, 0, date(2025, 10, 1), 100, 24, 350).unwrap();
    let start = chrono::NaiveDate::from_ymd_opt(2025, 10, 1).unwrap();
    let moved = start
        .checked_add_months(chrono::Months::new(res.actual_installment_count - 1))
        .unwrap();
    assert_eq!(res.end_date.year, moved.year());
    assert_eq!(res.end_date.month, moved.month());
    assert_eq!(res.end_date.day, moved.day());
    // and the clamped case as well
    let clamped = simulate_loan(20000, 0, 2, 0, date(2025, 1, 31), 0, 1, 0).unwrap();
    let start = chrono::NaiveDate::from_ymd_opt(2025, 1, 31).unwrap();
    let moved = start.checked_add_months(chrono::Months::new(1)).unwrap();
    assert_eq!(clamped.end_date.year, moved.year());
    assert_eq!(clamped.end_date.month, moved.month());
    assert_eq!(clamped.end_date.day, moved.day());
}
