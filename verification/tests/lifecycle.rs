//! The policy lifecycle end to end: initialization, creation, batch
//! resolution, deposits and withdrawals.

use flight_delay_insurance_contract::{
    AssetId, Error, FlightInsuranceContract, FlightResolution, PolicyStatus, Principal, Transfer,
};

fn initialized(initial_capital: i128) -> (FlightInsuranceContract, Principal) {
    let mut c = FlightInsuranceContract::new();
    let admin = Principal { id: 1 };
    c.initialize(admin, AssetId { id: 1000 }, initial_capital).unwrap();
    (c, admin)
}

#[test]
fn test_contract_initialization() {
    let initial_capital = 100000000000i128;
    let (c, admin) = initialized(initial_capital);
    assert_eq!(c.get_liquidity_pool(), initial_capital);
    assert!(c.is_admin(admin));
    assert_eq!(c.get_total_policies(), 0);
}

#[test]
fn test_create_policy_success() {
    let initial_capital = 100000000000i128;
    let (mut c, _) = initialized(initial_capital);
    let customer = Principal { id: 7 };
    let premium_amount = 8410000i128;
    let coverage_amount = 500000000i128;
    let now = 0u64;
    let flight_date = now + 24 * 60 * 60;
    let (policy_id, collect) = c
        .create_policy(
            customer,
            "G32102".to_string(),
            flight_date,
            now,
            premium_amount,
            coverage_amount,
        )
        .unwrap();
    assert_eq!(policy_id, 1);
    let policy = c.get_policy(policy_id).unwrap();
    assert_eq!(policy.customer, customer);
    assert_eq!(policy.flight_id, "G32102".to_string());
    assert_eq!(policy.premium_amount, premium_amount);
    assert_eq!(policy.coverage_amount, coverage_amount);
    assert_eq!(policy.status, PolicyStatus::Unresolved);
    assert_eq!(policy.payout_amount, 0);
    let expected_pool = initial_capital + premium_amount;
    assert_eq!(c.get_liquidity_pool(), expected_pool);
    assert_eq!(collect, Transfer::ToPool { from: customer, amount: premium_amount });
    let active = c.get_active_policies();
    assert_eq!(active.len(), 1);
    assert_eq!(active[0], policy_id);
}

#[test]
fn test_create_policy_insufficient_pool() {
    let initial_capital = 100000000i128;
    let (mut c, _) = initialized(initial_capital);
    let customer = Principal { id: 7 };
    let premium_amount = 80000000i128;
    let coverage_amount = 500000000i128;
    let now = 0u64;
    let flight_date = now + 24 * 60 * 60;
    let r = c.create_policy(
        customer,
        "G32102".to_string(),
        flight_date,
        now,
        premium_amount,
        coverage_amount,
    );
    assert_eq!(r.unwrap_err(), Error::InsufficientLiquidity);
    assert_eq!(c.get_liquidity_pool(), initial_capital);
    assert_eq!(c.get_active_policies().len(), 0);
}

#[test]
fn test_resolve_policy_no_delay() {
    let initial_capital = 100000000000i128;
    let (mut c, _) = initialized(initial_capital);
    let customer = Principal { id: 7 };
    let premium_amount = 8410000i128;
    let coverage_amount = 500000000i128;
    let now = 0u64;
    let flight_date = now + 24 * 60 * 60;
    let (policy_id, _) = c
        .create_policy(
            customer,
            "G32102".to_string(),
            flight_date,
            now,
            premium_amount,
            coverage_amount,
        )
        .unwrap();
    let pool_before = c.get_liquidity_pool();
    let payouts = c.resolve_flight(&"G32102".to_string(), FlightResolution::OnTime).unwrap();
    let policy = c.get_policy(policy_id).unwrap();
    assert_eq!(policy.status, PolicyStatus::OnTime);
    assert_eq!(policy.payout_amount, 0);
    assert_eq!(c.get_liquidity_pool(), pool_before);
    assert!(payouts.is_empty());
    assert_eq!(c.get_active_policies().len(), 0);
}

#[test]
fn test_resolve_policy_with_delay() {
    let initial_capital = 100000000000i128;
    let (mut c, _) = initialized(initial_capital);
    let customer = Principal { id: 7 };
    let premium_amount = 8410000i128;
    let coverage_amount = 500000000i128;
    let now = 0u64;
    let flight_date = now + 24 * 60 * 60;
    let (policy_id, _) = c
        .create_policy(
            customer,
            "G32102".to_string(),
            flight_date,
            now,
            premium_amount,
            coverage_amount,
        )
        .unwrap();
    let pool_before = c.get_liquidity_pool();
    let payouts = c
        .resolve_flight(&"G32102".to_string(), FlightResolution::Delayed(240))
        .unwrap();
    let policy = c.get_policy(policy_id).unwrap();
    assert_eq!(policy.status, PolicyStatus::Delayed);
    assert_eq!(policy.payout_amount, coverage_amount);
    let expected_pool = pool_before - coverage_amount;
    assert_eq!(c.get_liquidity_pool(), expected_pool);
    assert_eq!(payouts, vec![Transfer::FromPool { to: customer, amount: coverage_amount }]);
    assert_eq!(c.get_active_policies().len(), 0);
}

#[test]
fn test_deposit_and_withdraw_pool() {
    let initial_capital = 100000000000i128;
    let (mut c, admin) = initialized(initial_capital);
    let additional_deposit = 50000000000i128;
    let collect = c.deposit_to_pool(additional_deposit).unwrap();
    assert_eq!(collect, Transfer::ToPool { from: admin, amount: additional_deposit });
    let expected_pool = initial_capital + additional_deposit;
    assert_eq!(c.get_liquidity_pool(), expected_pool);
    let withdrawal = 20000000000i128;
    let payout = c.withdraw_from_pool(withdrawal).unwrap();
    let final_pool = expected_pool - withdrawal;
    assert_eq!(c.get_liquidity_pool(), final_pool);
    assert_eq!(payout, Transfer::FromPool { to: admin, amount: withdrawal });
}

#[test]
fn test_multiple_policies() {
    let initial_capital = 100000000000i128;
    let (mut c, _) = initialized(initial_capital);
    let customer1 = Principal { id: 7 };
    let customer2 = Principal { id: 8 };
    let now = 0u64;
    let premium_amount1 = 8410000i128;
    let coverage_amount1 = 500000000i128;
    let (policy_id1, _) = c
        .create_policy(
            customer1,
            "G32102".to_string(),
            now + 86400,
            now,
            premium_amount1,
            coverage_amount1,
        )
        .unwrap();
    let premium_amount2 = 12000000i128;
    let coverage_amount2 = 750000000i128;
    let (policy_id2, _) = c
        .create_policy(
            customer2,
            "LA4567".to_string(),
            now + 172800,
            now,
            premium_amount2,
            coverage_amount2,
        )
        .unwrap();
    assert_eq!(policy_id1, 1);
    assert_eq!(policy_id2, 2);
    assert_eq!(c.get_total_policies(), 2);
    let active = c.get_active_policies();
    assert_eq!(active.len(), 2);
    let expected_pool = initial_capital + premium_amount1 + premium_amount2;
    assert_eq!(c.get_liquidity_pool(), expected_pool);
}

#[test]
fn test_create_policy_past_date() {
    let initial_capital = 100000000000i128;
    let (mut c, _) = initialized(initial_capital);
    let customer = Principal { id: 7 };
    let premium_amount = 8410000i128;
    let coverage_amount = 500000000i128;
    let now = 100000u64;
    let past_date = now - 3600;
    let r = c.create_policy(
        customer,
        "G32102".to_string(),
        past_date,
        now,
        premium_amount,
        coverage_amount,
    );
    assert_eq!(r.unwrap_err(), Error::InvalidSchedule);
    assert_eq!(c.get_liquidity_pool(), initial_capital);
    assert_eq!(c.get_total_policies(), 0);
}

#[test]
fn test_resolve_policy_twice() {
    let initial_capital = 100000000000i128;
    let (mut c, _) = initialized(initial_capital);
    let customer = Principal { id: 7 };
    let premium_amount = 8410000i128;
    let coverage_amount = 500000000i128;
    let now = 0u64;
    let flight_date = now + 24 * 60 * 60;
    c.create_policy(
        customer,
        "G32102".to_string(),
        flight_date,
        now,
        premium_amount,
        coverage_amount,
    )
        .unwrap();
    c.resolve_flight(&"G32102".to_string(), FlightResolution::OnTime).unwrap();
    let again = c.resolve_flight(&"G32102".to_string(), FlightResolution::OnTime);
    assert_eq!(again.unwrap_err(), Error::NoPoliciesForFlight);
}

#[test]
fn test_withdraw_compromises_active_policies() {
    let initial_capital = 20000000000i128;
    let (mut c, _) = initialized(initial_capital);
    let customer = Principal { id: 7 };
    let premium_amount = 500000000i128;
    let coverage_amount = 15000000000i128;
    let now = 0u64;
    let flight_date = now + 24 * 60 * 60;
    c.create_policy(
        customer,
        "G32102".to_string(),
        flight_date,
        now,
        premium_amount,
        coverage_amount,
    )
        .unwrap();
    let pool_before = c.get_liquidity_pool();
    let withdrawal = 10000000000i128;
    let r = c.withdraw_from_pool(withdrawal);
    assert_eq!(r.unwrap_err(), Error::InsufficientCoverage);
    assert_eq!(c.get_liquidity_pool(), pool_before);
}
