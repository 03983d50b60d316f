//! The payout table, checked both directly and through a full resolution.

use flight_delay_insurance_contract::policy::compute_payout;
use flight_delay_insurance_contract::{
    AssetId, FlightInsuranceContract, FlightResolution, PolicyStatus, Principal,
};

#[test]
fn test_payout_table_delay_under_an_hour_pays_nothing() {
    assert_eq!(compute_payout(FlightResolution::Delayed(0), 50, 500), 0);
    assert_eq!(compute_payout(FlightResolution::Delayed(59), 50, 500), 0);
}

#[test]
fn test_payout_table_medium_delay_pays_half_coverage() {
    assert_eq!(compute_payout(FlightResolution::Delayed(60), 50, 500), 250);
    assert_eq!(compute_payout(FlightResolution::Delayed(90), 50, 500), 250);
    assert_eq!(compute_payout(FlightResolution::Delayed(180), 50, 500), 250);
}

#[test]
fn test_payout_table_half_coverage_rounds_down() {
    assert_eq!(compute_payout(FlightResolution::Delayed(100), 3, 7), 3);
    assert_eq!(compute_payout(FlightResolution::Delayed(100), 3, 1), 0);
}

#[test]
fn test_payout_table_long_delay_pays_full_coverage() {
    assert_eq!(compute_payout(FlightResolution::Delayed(181), 50, 500), 500);
    assert_eq!(compute_payout(FlightResolution::Delayed(100000), 50, 500), 500);
}

#[test]
fn test_payout_table_cancellation_refunds_premium() {
    assert_eq!(compute_payout(FlightResolution::Cancelled, 50, 500), 50);
    assert_eq!(compute_payout(FlightResolution::Cancelled, 700, 500), 700);
}

#[test]
fn test_payout_table_on_time_pays_nothing() {
    assert_eq!(compute_payout(FlightResolution::OnTime, 50, 500), 0);
}

#[test]
fn test_short_delay_resolves_without_payout() {
    let mut c = FlightInsuranceContract::new();
    let admin = Principal { id: 1 };
    c.initialize(admin, AssetId { id: 1000 }, 10000).unwrap();
    let customer = Principal { id: 7 };
    c.create_policy(customer, "F01".to_string(), 100, 0, 50, 500).unwrap();
    let pool_before = c.get_liquidity_pool();
    let payouts = c.resolve_flight(&"F01".to_string(), FlightResolution::Delayed(59)).unwrap();
    assert!(payouts.is_empty());
    assert_eq!(c.get_liquidity_pool(), pool_before);
    let policy = c.get_policy(1).unwrap();
    assert_eq!(policy.status, PolicyStatus::Delayed);
    assert_eq!(policy.payout_amount, 0);
    assert_eq!(c.get_active_policies().len(), 0);
}

#[test]
fn test_boundary_delay_pays_half_through_resolution() {
    let mut c = FlightInsuranceContract::new();
    let admin = Principal { id: 1 };
    c.initialize(admin, AssetId { id: 1000 }, 10000).unwrap();
    let customer = Principal { id: 7 };
    c.create_policy(customer, "F01".to_string(), 100, 0, 40, 501).unwrap();
    c.resolve_flight(&"F01".to_string(), FlightResolution::Delayed(180)).unwrap();
    let policy = c.get_policy(1).unwrap();
    assert_eq!(policy.payout_amount, 250);
    assert_eq!(c.get_liquidity_pool(), 10000 + 40 - 250);
}
