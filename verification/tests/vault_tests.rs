//! Checks of the vault's accounting: deposits, withdrawals, the loan
//! lifecycle, liquidation and administration.

use kuyay_vault::{KuyayVault, VaultError};

const OWNER: u64 = 1;
const ASSET: u64 = 2;
const TREASURY: u64 = 3;
const ALICE: u64 = 10;
const BOB: u64 = 11;
const CIRCLE: u64 = 20;

fn fresh_vault() -> KuyayVault {
    let mut vault = KuyayVault::new();
    vault.initialize(OWNER, ASSET, TREASURY).unwrap();
    vault
}

/// A vault with a deposit and an authorized borrower, at a zero
/// origination fee so loan arithmetic stays plain.
fn funded_vault(deposit: u64) -> KuyayVault {
    let mut vault = fresh_vault();
    vault.set_origination_fee(OWNER, 0).unwrap();
    vault.deposit(ALICE, deposit).unwrap();
    vault.authorize_circle(OWNER, CIRCLE).unwrap();
    vault
}

#[test]
fn test_initialize_once() {
    let mut vault = KuyayVault::new();
    assert_eq!(vault.initialize(OWNER, 0, TREASURY), Err(VaultError::InvalidIdentifier));
    assert_eq!(vault.initialize(OWNER, ASSET, 0), Err(VaultError::InvalidIdentifier));
    assert!(vault.initialize(OWNER, ASSET, TREASURY).is_ok());
    assert_eq!(vault.owner(), OWNER);
    assert_eq!(vault.asset(), ASSET);
    assert_eq!(vault.treasury(), TREASURY);
    assert_eq!(vault.initialize(BOB, ASSET, TREASURY), Err(VaultError::AlreadyInitialized));
    assert_eq!(vault.owner(), OWNER);
}

#[test]
fn test_first_and_second_deposit() {
    let mut vault = fresh_vault();
    // First deposit of 1000 by A mints 1000 units one-for-one.
    assert_eq!(vault.deposit(ALICE, 1000), Ok(1000));
    assert_eq!(vault.total_shares(), 1000);
    assert_eq!(vault.total_assets(), 1000);
    // Second deposit of 500 by B at value 1000 over 1000 units mints
    // floor(500 * 1000 / 1000) = 500 units.
    assert_eq!(vault.deposit(BOB, 500), Ok(500));
    assert_eq!(vault.total_shares(), 1500);
    assert_eq!(vault.total_assets(), 1500);
}

#[test]
fn test_deposit_rejects_zero() {
    let mut vault = fresh_vault();
    assert_eq!(vault.deposit(ALICE, 0), Err(VaultError::InvalidAmount));
}

#[test]
fn test_withdraw_at_most_deposit() {
    let mut vault = fresh_vault();
    vault.deposit(ALICE, 1000).unwrap();
    // With no other activity the redeemable balance is exactly the
    // deposit, so a withdrawal beyond it fails ...
    assert_eq!(vault.balance_of(ALICE), 1000);
    assert_eq!(vault.withdraw(ALICE, 1001), Err(VaultError::InsufficientBalance));
    // ... and the deposit itself can come back out.
    assert!(vault.withdraw(ALICE, 1000).is_ok());
    assert_eq!(vault.balance_of(ALICE), 0);
    assert_eq!(vault.total_assets(), 0);
    assert_eq!(vault.total_shares(), 0);
}

#[test]
fn test_withdraw_errors() {
    let mut vault = fresh_vault();
    assert_eq!(vault.withdraw(ALICE, 0), Err(VaultError::InvalidAmount));
    // No units outstanding: pricing undefined.
    assert_eq!(vault.withdraw(ALICE, 10), Err(VaultError::InvalidAmount));
    vault.set_origination_fee(OWNER, 0).unwrap();
    vault.deposit(ALICE, 1000).unwrap();
    vault.authorize_circle(OWNER, CIRCLE).unwrap();
    vault.request_loan(CIRCLE, 0, 800, 30, 1200).unwrap();
    // 200 idle: a withdrawal of 500 is within Alice's balance but not
    // within the idle liquidity.
    assert_eq!(vault.withdraw(ALICE, 500), Err(VaultError::InsufficientLiquidity));
}

#[test]
fn test_partial_withdraw_burns_proportionally() {
    let mut vault = fresh_vault();
    vault.deposit(ALICE, 1000).unwrap();
    assert!(vault.withdraw(ALICE, 400).is_ok());
    assert_eq!(vault.total_assets(), 600);
    assert_eq!(vault.total_shares(), 600);
    assert_eq!(vault.balance_of(ALICE), 600);
}

#[test]
fn test_request_loan_flow() {
    let mut vault = funded_vault(1000);
    // Fee at 300 bps: set it back from zero to check the carve-out.
    vault.set_origination_fee(OWNER, 300).unwrap();
    let net = vault.request_loan(CIRCLE, 1_000_000, 1000, 30, 1200).unwrap();
    // floor(1000 * 300 / 10000) = 30 held as fee; 970 disbursed.
    assert_eq!(net, 970);
    assert_eq!(vault.total_loaned(), 1000);
    assert_eq!(vault.available_liquidity(), 0);
    let (principal, rate, start, duration, paid, active) = vault.get_loan(CIRCLE);
    assert_eq!(principal, 1000);
    assert_eq!(rate, 1200);
    assert_eq!(start, 1_000_000);
    assert_eq!(duration, 30 * 86400);
    assert_eq!(paid, 0);
    assert!(active);
}

#[test]
fn test_request_loan_errors() {
    let mut vault = funded_vault(1000);
    assert_eq!(
        vault.request_loan(BOB, 0, 100, 30, 1200),
        Err(VaultError::NotAuthorizedBorrower)
    );
    assert_eq!(vault.request_loan(CIRCLE, 0, 0, 30, 1200), Err(VaultError::InvalidAmount));
    assert_eq!(
        vault.request_loan(CIRCLE, 0, 2000, 30, 1200),
        Err(VaultError::InsufficientLiquidity)
    );
}

#[test]
fn test_second_loan_while_active_fails() {
    let mut vault = funded_vault(1000);
    vault.request_loan(CIRCLE, 0, 400, 30, 1200).unwrap();
    // At most one active loan per borrower.
    assert_eq!(
        vault.request_loan(CIRCLE, 0, 100, 30, 1200),
        Err(VaultError::LoanAlreadyActive)
    );
    // Once repaid, a new loan may open.
    vault.repay_loan(CIRCLE, 0, 400).unwrap();
    assert!(vault.request_loan(CIRCLE, 0, 100, 30, 1200).is_ok());
}

#[test]
fn test_loan_accrual_after_fifteen_days() {
    let mut vault = funded_vault(1000);
    let start: u64 = 1_000_000;
    vault.request_loan(CIRCLE, start, 1000, 30, 1200).unwrap();
    // principal 1000 at 1200 bps for 15 of 30 days:
    // floor(1000 * 1200 * 15*86400 / (10000 * 31536000)) = 4.
    let now = start + 15 * 86400;
    assert_eq!(vault.calculate_total_debt(CIRCLE, now), Ok(1004));
}

#[test]
fn test_debt_capped_at_maturity() {
    let mut vault = funded_vault(1000);
    vault.request_loan(CIRCLE, 0, 1000, 30, 1200).unwrap();
    // Interest over the full 30 days: floor(1000*1200*2592000/315360000000) = 9.
    let at_maturity = vault.calculate_total_debt(CIRCLE, 30 * 86400).unwrap();
    let long_after = vault.calculate_total_debt(CIRCLE, 3000 * 86400).unwrap();
    assert_eq!(at_maturity, 1009);
    assert_eq!(long_after, at_maturity);
}

#[test]
fn test_debt_is_pure_view() {
    let mut vault = funded_vault(1000);
    vault.request_loan(CIRCLE, 0, 1000, 30, 1200).unwrap();
    let now: u64 = 10 * 86400;
    let first = vault.calculate_total_debt(CIRCLE, now);
    let second = vault.calculate_total_debt(CIRCLE, now);
    assert_eq!(first, second);
    // An unknown borrower owes nothing.
    assert_eq!(vault.calculate_total_debt(BOB, now), Ok(0));
}

#[test]
fn test_repay_clears_loan_and_collects_interest() {
    let mut vault = funded_vault(1000);
    let start: u64 = 0;
    vault.request_loan(CIRCLE, start, 1000, 30, 1200).unwrap();
    let now = start + 15 * 86400;
    // Debt is 1004; a partial payment leaves the loan active.
    vault.repay_loan(CIRCLE, now, 500).unwrap();
    let (_, _, _, _, paid, active) = vault.get_loan(CIRCLE);
    assert_eq!(paid, 500);
    assert!(active);
    assert_eq!(vault.total_loaned(), 1000);
    // Paying the rest clears it and books the 4 over principal as
    // interest.
    vault.repay_loan(CIRCLE, now, 504).unwrap();
    let (_, _, _, _, paid, active) = vault.get_loan(CIRCLE);
    assert_eq!(paid, 1004);
    assert!(!active);
    assert_eq!(vault.total_loaned(), 0);
    assert_eq!(vault.total_interest_earned(), 4);
    assert_eq!(vault.calculate_total_debt(CIRCLE, now), Ok(0));
}

#[test]
fn test_repay_errors() {
    let mut vault = funded_vault(1000);
    assert_eq!(vault.repay_loan(BOB, 0, 100), Err(VaultError::NotAuthorizedBorrower));
    assert_eq!(vault.repay_loan(CIRCLE, 0, 100), Err(VaultError::NoActiveLoan));
    vault.request_loan(CIRCLE, 0, 400, 30, 1200).unwrap();
    assert_eq!(vault.repay_loan(CIRCLE, 0, 0), Err(VaultError::InvalidAmount));
}

#[test]
fn test_liquidation_draws_buffer_then_socializes() {
    let mut vault = funded_vault(1000);
    vault.fund_insurance_pool(100).unwrap();
    assert_eq!(vault.insurance_pool(), 100);
    assert_eq!(vault.total_assets(), 1100);
    // A zero-rate loan of 200, nothing repaid: unpaid debt 200.
    vault.request_loan(CIRCLE, 0, 200, 30, 0).unwrap();
    // Recover 50: shortfall 150; the buffer absorbs its 100 first and
    // the residual 50 comes out of deposited assets.
    vault.liquidate_circle(OWNER, 0, CIRCLE, 50).unwrap();
    assert_eq!(vault.insurance_pool(), 0);
    assert_eq!(vault.total_assets(), 1050);
    assert_eq!(vault.total_loaned(), 0);
    let (_, _, _, _, _, active) = vault.get_loan(CIRCLE);
    assert!(!active);
}

#[test]
fn test_liquidation_fully_covered_by_buffer() {
    let mut vault = funded_vault(1000);
    vault.fund_insurance_pool(500).unwrap();
    vault.request_loan(CIRCLE, 0, 200, 30, 0).unwrap();
    vault.liquidate_circle(OWNER, 0, CIRCLE, 150).unwrap();
    // Shortfall 50 fits in the buffer; depositors lose nothing.
    assert_eq!(vault.insurance_pool(), 450);
    assert_eq!(vault.total_assets(), 1500);
}

#[test]
fn test_liquidation_errors() {
    let mut vault = funded_vault(1000);
    vault.request_loan(CIRCLE, 0, 200, 30, 0).unwrap();
    assert_eq!(vault.liquidate_circle(BOB, 0, CIRCLE, 0), Err(VaultError::Unauthorized));
    assert_eq!(vault.liquidate_circle(OWNER, 0, BOB, 0), Err(VaultError::NoActiveLoan));
    vault.liquidate_circle(OWNER, 0, CIRCLE, 200).unwrap();
    assert_eq!(vault.liquidate_circle(OWNER, 0, CIRCLE, 0), Err(VaultError::NoActiveLoan));
}

#[test]
fn test_fund_insurance_rejects_zero() {
    let mut vault = fresh_vault();
    assert_eq!(vault.fund_insurance_pool(0), Err(VaultError::InvalidAmount));
}

#[test]
fn test_batch_deposit() {
    let mut vault = fresh_vault();
    let minted = vault.batch_deposit(vec![ALICE, BOB], vec![1000, 500]).unwrap();
    assert_eq!(minted, vec![1000, 500]);
    assert_eq!(vault.total_shares(), 1500);
    assert_eq!(vault.total_assets(), 1500);
    assert_eq!(vault.balance_of(ALICE), 1000);
    assert_eq!(vault.balance_of(BOB), 500);
}

#[test]
fn test_batch_deposit_zero_entry_mints_nothing() {
    let mut vault = fresh_vault();
    let minted = vault.batch_deposit(vec![ALICE, BOB], vec![0, 500]).unwrap();
    assert_eq!(minted, vec![0, 500]);
    assert_eq!(vault.total_shares(), 500);
}

#[test]
fn test_batch_deposit_length_mismatch() {
    let mut vault = fresh_vault();
    assert_eq!(
        vault.batch_deposit(vec![ALICE], vec![1000, 500]),
        Err(VaultError::InvalidParameter)
    );
    assert_eq!(vault.total_shares(), 0);
}

#[test]
fn test_utilization_ratio() {
    let mut vault = funded_vault(1000);
    assert_eq!(vault.current_apy(), 0);
    vault.request_loan(CIRCLE, 0, 400, 30, 1200).unwrap();
    // 400 of 1000 out: 400 * 1000 / 1000.
    assert_eq!(vault.current_apy(), 400);
    let empty = KuyayVault::new();
    assert_eq!(empty.current_apy(), 0);
}

#[test]
fn test_borrower_authorization() {
    let mut vault = fresh_vault();
    // Not yet an issuer, not the owner.
    assert_eq!(vault.authorize_circle(BOB, CIRCLE), Err(VaultError::NotAuthorizedIssuer));
    assert_eq!(vault.authorize_circle(OWNER, 0), Err(VaultError::InvalidIdentifier));
    // The owner may authorize, and an authorized issuer may too.
    vault.authorize_circle(OWNER, CIRCLE).unwrap();
    vault.authorize_factory(OWNER, BOB).unwrap();
    vault.authorize_circle(BOB, 21).unwrap();
    // Revocation is owner-only.
    assert_eq!(vault.revoke_circle(BOB, CIRCLE), Err(VaultError::Unauthorized));
    vault.revoke_circle(OWNER, CIRCLE).unwrap();
    assert_eq!(vault.request_loan(CIRCLE, 0, 1, 1, 0), Err(VaultError::NotAuthorizedBorrower));
}

#[test]
fn test_factory_administration() {
    let mut vault = fresh_vault();
    assert_eq!(vault.authorize_factory(BOB, BOB), Err(VaultError::Unauthorized));
    assert_eq!(vault.authorize_factory(OWNER, 0), Err(VaultError::InvalidIdentifier));
    vault.authorize_factory(OWNER, BOB).unwrap();
    assert_eq!(vault.revoke_factory(BOB, BOB), Err(VaultError::Unauthorized));
    vault.revoke_factory(OWNER, BOB).unwrap();
    assert_eq!(vault.authorize_circle(BOB, CIRCLE), Err(VaultError::NotAuthorizedIssuer));
}

#[test]
fn test_fee_and_treasury_settings() {
    let mut vault = fresh_vault();
    assert_eq!(vault.set_origination_fee(BOB, 100), Err(VaultError::Unauthorized));
    assert_eq!(vault.set_origination_fee(OWNER, 1001), Err(VaultError::InvalidParameter));
    vault.set_origination_fee(OWNER, 1000).unwrap();
    assert_eq!(vault.set_treasury(BOB, 9), Err(VaultError::Unauthorized));
    assert_eq!(vault.set_treasury(OWNER, 0), Err(VaultError::InvalidIdentifier));
    vault.set_treasury(OWNER, 9).unwrap();
    assert_eq!(vault.treasury(), 9);
}

#[test]
fn test_ownership_transfer() {
    let mut vault = fresh_vault();
    assert_eq!(vault.transfer_ownership(BOB, BOB), Err(VaultError::Unauthorized));
    assert_eq!(vault.transfer_ownership(OWNER, 0), Err(VaultError::InvalidIdentifier));
    vault.transfer_ownership(OWNER, BOB).unwrap();
    assert_eq!(vault.owner(), BOB);
    assert_eq!(vault.set_origination_fee(OWNER, 100), Err(VaultError::Unauthorized));
    assert!(vault.set_origination_fee(BOB, 100).is_ok());
}

#[test]
fn test_interest_raises_claim_price() {
    let mut vault = funded_vault(1000);
    vault.request_loan(CIRCLE, 0, 1000, 30, 1200).unwrap();
    let now: u64 = 30 * 86400;
    // Debt at maturity is 1009; repaying it books 9 as interest.
    vault.repay_loan(CIRCLE, now, 1009).unwrap();
    assert_eq!(vault.total_interest_earned(), 9);
    // Vault value 1009 over 1000 units: Alice's claim gained value.
    assert_eq!(vault.balance_of(ALICE), 1009);
}

#[test]
fn test_interest_not_double_counted_across_repayments() {
    let mut vault = funded_vault(1000);
    vault.request_loan(CIRCLE, 0, 1000, 30, 1200).unwrap();
    // At maturity the debt is 1009.
    let now: u64 = 30 * 86400;
    // First payment crosses the principal: 5 of it is interest, and the
    // loan stays active since 1005 < 1009.
    vault.repay_loan(CIRCLE, now, 1005).unwrap();
    let (_, _, _, _, _, active) = vault.get_loan(CIRCLE);
    assert!(active);
    assert_eq!(vault.total_interest_earned(), 5);
    // The closing payment books only its own 4 above the principal,
    // never the earlier excess again: 9 in total, exactly what the pool
    // received beyond the principal.
    vault.repay_loan(CIRCLE, now, 4).unwrap();
    let (_, _, _, _, _, active) = vault.get_loan(CIRCLE);
    assert!(!active);
    assert_eq!(vault.total_interest_earned(), 9);
    // Claim pricing rests on value the pool actually holds.
    assert_eq!(vault.balance_of(ALICE), 1009);
}

#[test]
fn test_overpayment_is_kept_as_interest() {
    let mut vault = funded_vault(1000);
    vault.request_loan(CIRCLE, 0, 100, 30, 0).unwrap();
    // Debt is 100; paying 150 clears the loan and the whole 50 excess
    // stays as collected interest.
    vault.repay_loan(CIRCLE, 0, 150).unwrap();
    let (_, _, _, _, paid, active) = vault.get_loan(CIRCLE);
    assert_eq!(paid, 150);
    assert!(!active);
    assert_eq!(vault.total_interest_earned(), 50);
}
