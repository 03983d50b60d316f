//! Whole-system scenarios: pool accounting across creation and resolution,
//! batch settlement of a shared flight, the skip rule for already-resolved
//! records, and every error kind.

use flight_delay_insurance_contract::{
    AssetId, Error, FlightEntry, FlightInsuranceContract, FlightResolution, Policy, PolicyStatus,
    Principal, Transfer,
};

fn initialized(initial_capital: i128) -> (FlightInsuranceContract, Principal) {
    let mut c = FlightInsuranceContract::new();
    let admin = Principal { id: 1 };
    c.initialize(admin, AssetId { id: 1000 }, initial_capital).unwrap();
    (c, admin)
}

#[test]
fn test_delay_scenario_pays_half_and_empties_active_set() {
    let (mut c, _) = initialized(10000);
    let customer = Principal { id: 7 };
    let (id, _) = c.create_policy(customer, "F01".to_string(), 100, 0, 50, 500).unwrap();
    assert_eq!(c.get_liquidity_pool(), 10050);
    assert_eq!(c.get_active_policies(), vec![id]);
    let payouts = c.resolve_flight(&"F01".to_string(), FlightResolution::Delayed(90)).unwrap();
    assert_eq!(payouts, vec![Transfer::FromPool { to: customer, amount: 250 }]);
    assert_eq!(c.get_policy(id).unwrap().payout_amount, 250);
    assert_eq!(c.get_liquidity_pool(), 9800);
    assert!(c.get_active_policies().is_empty());
}

#[test]
fn test_cancellation_refunds_each_premium_on_shared_flight() {
    let (mut c, _) = initialized(10000);
    let customer1 = Principal { id: 7 };
    let customer2 = Principal { id: 8 };
    c.create_policy(customer1, "F01".to_string(), 100, 0, 20, 100).unwrap();
    c.create_policy(customer2, "F01".to_string(), 100, 0, 20, 100).unwrap();
    let pool_after_creation = c.get_liquidity_pool();
    assert_eq!(pool_after_creation, 10040);
    assert_eq!(c.get_policies_for_flight(&"F01".to_string()), vec![1, 2]);
    let payouts = c.resolve_flight(&"F01".to_string(), FlightResolution::Cancelled).unwrap();
    assert_eq!(
        payouts,
        vec![
            Transfer::FromPool { to: customer1, amount: 20 },
            Transfer::FromPool { to: customer2, amount: 20 },
        ],
    );
    assert_eq!(c.get_liquidity_pool(), pool_after_creation - 40);
    assert_eq!(c.get_policy(1).unwrap().status, PolicyStatus::Cancelled);
    assert_eq!(c.get_policy(2).unwrap().payout_amount, 20);
    assert!(c.get_policies_for_flight(&"F01".to_string()).is_empty());
    assert!(c.get_active_policies().is_empty());
}

#[test]
fn test_creation_beyond_pool_leaves_state_unchanged() {
    let (mut c, _) = initialized(400);
    let customer = Principal { id: 7 };
    let r = c.create_policy(customer, "F01".to_string(), 100, 0, 50, 500);
    assert_eq!(r.unwrap_err(), Error::InsufficientLiquidity);
    assert_eq!(c.get_liquidity_pool(), 400);
    assert!(c.get_active_policies().is_empty());
    assert_eq!(c.get_total_policies(), 0);
}

#[test]
fn test_resolution_skips_already_resolved_policies() {
    let customer = Principal { id: 7 };
    let resolved = Policy {
        id: 1,
        customer,
        flight_id: "F01".to_string(),
        flight_date: 100,
        premium_amount: 10,
        coverage_amount: 50,
        status: PolicyStatus::Cancelled,
        payout_amount: 10,
    };
    let mut c = FlightInsuranceContract {
        admin: Some(Principal { id: 1 }),
        asset: Some(AssetId { id: 1000 }),
        pool_balance: 500,
        policy_counter: 1,
        policies: vec![resolved],
        active_policies: vec![],
        flights: vec![FlightEntry { flight_id: "F01".to_string(), policy_ids: vec![1] }],
    };
    let payouts = c.resolve_flight(&"F01".to_string(), FlightResolution::Cancelled).unwrap();
    assert!(payouts.is_empty());
    assert_eq!(c.get_liquidity_pool(), 500);
    let policy = c.get_policy(1).unwrap();
    assert_eq!(policy.status, PolicyStatus::Cancelled);
    assert_eq!(policy.payout_amount, 10);
    assert!(c.get_policies_for_flight(&"F01".to_string()).is_empty());
}

#[test]
fn test_refund_beyond_pool_aborts_the_batch() {
    let (mut c, _) = initialized(100);
    let customer = Principal { id: 7 };
    c.create_policy(customer, "F01".to_string(), 100, 0, 60, 50).unwrap();
    assert_eq!(c.get_liquidity_pool(), 160);
    c.withdraw_from_pool(110).unwrap();
    assert_eq!(c.get_liquidity_pool(), 50);
    let r = c.resolve_flight(&"F01".to_string(), FlightResolution::Cancelled);
    assert_eq!(r.unwrap_err(), Error::InsufficientPoolForPayout);
    assert_eq!(c.get_liquidity_pool(), 50);
    assert_eq!(c.get_policy(1).unwrap().status, PolicyStatus::Unresolved);
    assert_eq!(c.get_active_policies(), vec![1]);
    assert_eq!(c.get_policies_for_flight(&"F01".to_string()), vec![1]);
}

#[test]
fn test_initialize_twice_is_refused() {
    let (mut c, admin) = initialized(1000);
    let r = c.initialize(Principal { id: 2 }, AssetId { id: 9 }, 1);
    assert_eq!(r.unwrap_err(), Error::AlreadyInitialized);
    assert!(c.is_admin(admin));
    assert_eq!(c.get_liquidity_pool(), 1000);
}

#[test]
fn test_non_positive_amounts_are_refused() {
    let (mut c, _) = initialized(1000);
    let customer = Principal { id: 7 };
    let r = c.create_policy(customer, "F01".to_string(), 100, 0, 0, 500);
    assert_eq!(r.unwrap_err(), Error::InvalidAmount);
    let r = c.create_policy(customer, "F01".to_string(), 100, 0, 50, -1);
    assert_eq!(r.unwrap_err(), Error::InvalidAmount);
    let r = c.deposit_to_pool(-5);
    assert_eq!(r.unwrap_err(), Error::InvalidAmount);
    let r = c.withdraw_from_pool(0);
    assert_eq!(r.unwrap_err(), Error::InvalidAmount);
    assert_eq!(c.get_liquidity_pool(), 1000);
}

#[test]
fn test_operations_before_initialization_are_refused() {
    let mut c = FlightInsuranceContract::new();
    assert_eq!(c.deposit_to_pool(10).unwrap_err(), Error::NotFound);
    assert_eq!(c.withdraw_from_pool(10).unwrap_err(), Error::NotFound);
    assert_eq!(
        c.resolve_flight(&"F01".to_string(), FlightResolution::OnTime).unwrap_err(),
        Error::NotFound,
    );
    assert_eq!(c.get_policy(1).unwrap_err(), Error::NotFound);
    assert!(!c.is_admin(Principal { id: 1 }));
}

#[test]
fn test_unknown_policy_and_unknown_flight() {
    let (mut c, _) = initialized(1000);
    assert_eq!(c.get_policy(99).unwrap_err(), Error::NotFound);
    assert_eq!(
        c.resolve_flight(&"NOPE".to_string(), FlightResolution::OnTime).unwrap_err(),
        Error::NoPoliciesForFlight,
    );
    assert!(c.get_policies_for_flight(&"NOPE".to_string()).is_empty());
}

#[test]
fn test_is_admin_distinguishes_principals() {
    let (c, admin) = initialized(1000);
    assert!(c.is_admin(admin));
    assert!(!c.is_admin(Principal { id: 2 }));
}

#[test]
fn test_flight_indices_are_independent() {
    let (mut c, _) = initialized(10000);
    let customer = Principal { id: 7 };
    c.create_policy(customer, "F01".to_string(), 100, 0, 10, 100).unwrap();
    c.create_policy(customer, "F02".to_string(), 100, 0, 10, 100).unwrap();
    c.create_policy(customer, "F01".to_string(), 100, 0, 10, 100).unwrap();
    assert_eq!(c.get_policies_for_flight(&"F01".to_string()), vec![1, 3]);
    assert_eq!(c.get_policies_for_flight(&"F02".to_string()), vec![2]);
    c.resolve_flight(&"F01".to_string(), FlightResolution::OnTime).unwrap();
    assert!(c.get_policies_for_flight(&"F01".to_string()).is_empty());
    assert_eq!(c.get_policies_for_flight(&"F02".to_string()), vec![2]);
    assert_eq!(c.get_active_policies(), vec![2]);
}
