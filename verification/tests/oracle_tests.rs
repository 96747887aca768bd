//! Checks of the risk oracle's tier table and eligibility rules.

use kuyay_vault::{LeverageTier, MemberRecord, OracleError, RiskOracle};

fn member(level: u8) -> MemberRecord {
    MemberRecord { has_token: true, level, is_stained: false }
}

fn no_token() -> MemberRecord {
    MemberRecord { has_token: false, level: 0, is_stained: false }
}

fn stained(level: u8) -> MemberRecord {
    MemberRecord { has_token: true, level, is_stained: true }
}

#[test]
fn test_tier_lookup() {
    // Basic check of the tier arithmetic
    assert_eq!(2 + 2, 4);
}

#[test]
fn test_init_sets_defaults() {
    let mut oracle = RiskOracle::new();
    let r = oracle.init(7, 42);
    assert!(r.is_ok());
    assert_eq!(oracle.owner, 7);
    assert_eq!(oracle.aguayo_sbt, 42);
    assert_eq!(oracle.max_leverage_multiplier, 5);
    assert_eq!(oracle.tiers.len(), 3);
    assert_eq!(
        oracle.tiers[0],
        LeverageTier { min_average_level: 1, multiplier: 150, interest_rate_bps: 1200 }
    );
    assert_eq!(
        oracle.tiers[2],
        LeverageTier { min_average_level: 5, multiplier: 500, interest_rate_bps: 800 }
    );
}

#[test]
fn test_all_members_eligible() {
    let mut oracle = RiskOracle::new();
    oracle.init(7, 42).unwrap();

    let good = vec![member(1), member(3), member(5)];
    assert_eq!(oracle.are_all_members_eligible(good), Ok(true));

    let with_missing = vec![member(1), no_token()];
    assert_eq!(oracle.are_all_members_eligible(with_missing), Ok(false));

    let with_stain = vec![member(1), stained(4)];
    assert_eq!(oracle.are_all_members_eligible(with_stain), Ok(false));

    let with_level_zero = vec![member(0)];
    assert_eq!(oracle.are_all_members_eligible(with_level_zero), Ok(false));

    let empty: Vec<MemberRecord> = Vec::new();
    assert_eq!(oracle.are_all_members_eligible(empty), Ok(true));
}

#[test]
fn test_leverage_level_tiers() {
    let mut oracle = RiskOracle::new();
    oracle.init(7, 42).unwrap();

    // Average level 1 -> tier 1: 1.5x, 12% APR.
    let group = vec![member(1), member(1)];
    assert_eq!(oracle.get_leverage_level(group), Ok((150, 1200)));

    // Average level (3 + 5) / 2 = 4 -> tier 2: 3x, 10% APR.
    let group = vec![member(3), member(5)];
    assert_eq!(oracle.get_leverage_level(group), Ok((300, 1000)));

    // Average level 5 -> tier 3: 5x, 8% APR.
    let group = vec![member(5), member(5)];
    assert_eq!(oracle.get_leverage_level(group), Ok((500, 800)));

    // Members without tokens drag the average down: (5 + 0) / 2 = 2.
    let group = vec![member(5), no_token()];
    assert_eq!(oracle.get_leverage_level(group), Ok((150, 1200)));

    // Average level 0 qualifies for no tier; the first tier stands.
    let group = vec![no_token()];
    assert_eq!(oracle.get_leverage_level(group), Ok((150, 1200)));

    let empty: Vec<MemberRecord> = Vec::new();
    assert_eq!(oracle.get_leverage_level(empty), Err(OracleError::EmptyMemberList));
}

#[test]
fn test_tier_tie_break_last_wins() {
    let mut oracle = RiskOracle::new();
    oracle.init(7, 42).unwrap();
    // A second tier with the same threshold as tier 2: the later one wins.
    oracle.add_tier(7, 3, 350, 900).unwrap();
    let group = vec![member(3), member(3)];
    assert_eq!(oracle.get_leverage_level(group), Ok((350, 900)));
}

#[test]
fn test_weighted_probabilities() {
    let mut oracle = RiskOracle::new();
    oracle.init(7, 42).unwrap();
    let group = vec![member(3), member(5), no_token()];
    let weights = oracle.get_weighted_probabilities(group).unwrap();
    assert_eq!(weights, vec![130, 150, 100]);
}

#[test]
fn test_is_member_eligible_modes() {
    let oracle = RiskOracle::new();
    // Credit mode needs level >= 1 and no stains.
    assert_eq!(oracle.is_member_eligible(member(2), true), Ok(true));
    assert_eq!(oracle.is_member_eligible(member(0), true), Ok(false));
    assert_eq!(oracle.is_member_eligible(stained(2), true), Ok(false));
    // Savings mode only needs a token.
    assert_eq!(oracle.is_member_eligible(member(0), false), Ok(true));
    assert_eq!(oracle.is_member_eligible(no_token(), false), Ok(false));
}

#[test]
fn test_tier_admin_is_owner_only() {
    let mut oracle = RiskOracle::new();
    oracle.init(7, 42).unwrap();
    assert_eq!(oracle.add_tier(8, 2, 200, 1100), Err(OracleError::NotOwner));
    assert_eq!(oracle.tiers.len(), 3);
    assert_eq!(oracle.set_max_leverage_multiplier(8, 10), Err(OracleError::NotOwner));
    assert_eq!(oracle.max_leverage_multiplier, 5);
    assert!(oracle.set_max_leverage_multiplier(7, 10).is_ok());
    assert_eq!(oracle.max_leverage_multiplier, 10);
}
