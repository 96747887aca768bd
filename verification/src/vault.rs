use vstd::prelude::*;
use vstd::arithmetic::div_mod::{
    lemma_div_by_multiple, lemma_div_is_ordered, lemma_div_multiples_vanish, lemma_div_pos_is_pos,
    lemma_remainder_lower,
};
use vstd::arithmetic::mul::{lemma_mul_inequality, lemma_mul_upper_bound};
use crate::errors::VaultError;
use crate::loan_book::{
    lemma_debt_in_range, lemma_principal_le_sum, Loan, LoanBook, BPS_DENOM, SECONDS_PER_DAY,
    SECONDS_PER_YEAR,
};
use crate::share_ledger::{lemma_units_le_sum, sum_units, ShareLedger};

verus! {

/// Fee charged when the vault is first initialized, in basis points.
pub const DEFAULT_ORIGINATION_FEE_BPS: u64 = 300;

/// Ceiling on the origination fee, in basis points.
pub const MAX_ORIGINATION_FEE_BPS: u64 = 1_000;

// ---------------------------------------------------------------------
// Membership sets of plain identifiers.
// ---------------------------------------------------------------------

fn ids_contain(v: &Vec<u64>, id: u64) -> (r: bool)
    ensures
        r == v@.contains(id),
{
    let n = v.len();
    let mut k: usize = 0;
    while k < n
        invariant
            n == v@.len(),
            k <= n,
            forall|i: int| 0 <= i < k ==> v@[i] != id,
        decreases n - k,
    {
        if v[k] == id {
            return true;
        }
        k += 1;
    }
    false
}

fn ids_insert(v: &mut Vec<u64>, id: u64)
    requires
        old(v)@.no_duplicates(),
    ensures
        final(v)@.no_duplicates(),
        forall|x: u64| final(v)@.contains(x) <==> (old(v)@.contains(x) || x == id),
{
    if !ids_contain(v, id) {
        let ghost s = v@;
        v.push(id);
        proof {
            assert(v@[s.len() as int] == id);
            assert forall|x: u64| v@.contains(x) <==> (s.contains(x) || x == id) by {
                if s.contains(x) {
                    let i = choose|i: int| 0 <= i < s.len() && s[i] == x;
                    assert(v@[i] == x);
                    assert(v@.contains(x));
                }
                if x == id {
                    assert(v@.contains(x));
                }
                if v@.contains(x) {
                    let i = choose|i: int| 0 <= i < v@.len() && v@[i] == x;
                    if i < s.len() {
                        assert(s[i] == x);
                        assert(s.contains(x));
                    }
                }
            }
            assert forall|i: int, j: int| 0 <= i < j < v@.len() implies v@[i] != v@[j] by {
                if j == s.len() {
                    assert(s.contains(s[i]));
                }
            }
        }
    }
}

fn ids_remove(v: &mut Vec<u64>, id: u64)
    requires
        old(v)@.no_duplicates(),
    ensures
        final(v)@.no_duplicates(),
        forall|x: u64| final(v)@.contains(x) <==> (old(v)@.contains(x) && x != id),
{
    let n = v.len();
    let mut k: usize = 0;
    while k < n
        invariant
            v@ == old(v)@,
            n == v@.len(),
            k <= n,
            v@.no_duplicates(),
            forall|i: int| 0 <= i < k ==> v@[i] != id,
        decreases n - k,
    {
        if v[k] == id {
            let ghost s = v@;
            v.remove(k);
            proof {
                assert(v@ =~= s.subrange(0, k as int) + s.subrange(k as int + 1, s.len() as int));
                assert forall|i: int| 0 <= i < v@.len() implies v@[i] == (if i < k {
                    s[i]
                } else {
                    s[i + 1]
                }) by {}
                assert forall|x: u64| v@.contains(x) <==> (s.contains(x) && x != id) by {
                    if v@.contains(x) {
                        let i = choose|i: int| 0 <= i < v@.len() && v@[i] == x;
                        if i < k {
                            assert(s[i] == x);
                        } else {
                            assert(s[i + 1] == x);
                        }
                        assert(s.contains(x));
                        assert(x != id);
                    }
                    if s.contains(x) && x != id {
                        let i = choose|i: int| 0 <= i < s.len() && s[i] == x;
                        if i < k {
                            assert(v@[i] == x);
                        } else {
                            assert(s[k as int] == id);
                            assert(i != k);
                            assert(v@[i - 1] == x);
                        }
                        assert(v@.contains(x));
                    }
                }
                assert forall|i: int, j: int| 0 <= i < j < v@.len() implies v@[i] != v@[j] by {
                    let si = if i < k { i } else { i + 1 };
                    let sj = if j < k { j } else { j + 1 };
                    assert(v@[i] == s[si]);
                    assert(v@[j] == s[sj]);
                }
            }
            return ;
        }
        k += 1;
    }
    proof {
        if v@.contains(id) {
            let i = choose|i: int| 0 <= i < v@.len() && v@[i] == id;
            assert(false);
        }
    }
}

// ---------------------------------------------------------------------
// Laws of the vault.
// ---------------------------------------------------------------------

/// In every well-formed vault — and every operation of this module both
/// requires and re-establishes well-formedness — the claim units held
/// across all accounts sum to exactly the claim units outstanding.
pub proof fn lemma_claims_match_supply(v: &KuyayVault)
    requires
        v.wf(),
    ensures
        sum_units(v.shares@) == v.total_shares as int,
{
}

/// In every well-formed vault, idle liquidity is exactly deposits less
/// loaned principal, and never negative.
pub proof fn lemma_liquidity_nonnegative(v: &KuyayVault)
    requires
        v.wf(),
    ensures
        v.spec_available() == v.total_assets - v.total_loaned,
        v.spec_available() >= 0,
{
}

/// An account that makes the only deposit, of `x`, into a vault holding
/// no claims, no assets and no collected interest can withdraw at most
/// `x`: its redeemable balance afterwards is exactly `x`.  The
/// hypotheses about the two states are the `ensures` of `deposit` for
/// that call.
pub proof fn lemma_first_deposit_redeemable(
    pre: &KuyayVault,
    post: &KuyayVault,
    account: u64,
    x: u64,
)
    requires
        pre.wf(),
        post.wf(),
        pre.total_shares == 0,
        pre.total_assets == 0,
        pre.total_interest_earned == 0,
        x > 0,
        post.total_shares == pre.total_shares + pre.spec_mint(x),
        post.total_assets == pre.total_assets + x,
        post.total_interest_earned == pre.total_interest_earned,
        post.shares.spec_units(account) == pre.shares.spec_units(account) + pre.spec_mint(x),
    ensures
        post.spec_redeemable(account) == x,
{
    lemma_units_le_sum(pre.shares@, account);
    assert(pre.shares.spec_units(account) == 0);
    assert(post.shares.spec_units(account) == x);
    assert(post.spec_vault_value() == x);
    lemma_div_multiples_vanish(x as int, x as int);
}

/// A deposit never lowers the claim price.  With `s` units outstanding
/// over value `vv`, minting `m = floor(x * s / vv)` units for `x` new
/// asset units keeps `(vv + x) / (s + m) >= vv / s`, here stated
/// cross-multiplied.  The floor rounds the minted units down, so any
/// dust favors the holders already in the pool.
pub proof fn lemma_deposit_price_monotone(v: &KuyayVault, x: u64)
    requires
        v.wf(),
        v.total_shares > 0,
        v.spec_vault_value() > 0,
    ensures
        (v.spec_vault_value() + x) * (v.total_shares as int) >= (v.total_shares + v.spec_mint(x))
            * v.spec_vault_value(),
{
    let s = v.total_shares as int;
    let vv = v.spec_vault_value();
    let m = v.spec_mint(x);
    lemma_remainder_lower(x * s, vv);
    assert(m * vv <= x * s);
    assert((vv + x) * s >= (s + m) * vv) by (nonlinear_arith)
        requires
            m * vv <= x * s,
            s >= 0,
            vv >= 0,
    ;
}

// ---------------------------------------------------------------------
// The vault aggregate.
// ---------------------------------------------------------------------

/// The treasury aggregate: claim-unit accounting, the loan book, the
/// insurance backstop and the authorization sets, all under one exclusive
/// handle.
///
/// Identifiers (asset, owner, treasury, accounts, borrowers) are plain
/// numbers, with zero playing the role of the null identifier.  The
/// caller's identity and the current time enter every operation as
/// arguments; the embedding host performs the single external asset
/// movement each operation calls for and rolls the state back if that
/// movement fails.
#[derive(Clone)]
pub struct KuyayVault {
    /// Identifier of the pooled asset's ledger.
    pub asset: u64,
    /// Identifier allowed to administer the vault; zero until initialized.
    pub owner: u64,
    /// Identifier that receives origination fees.
    pub treasury: u64,
    /// Total asset units deposited and not yet withdrawn or written off.
    pub total_assets: u64,
    /// Asset units currently out on active loans.
    pub total_loaned: u64,
    /// Cumulative interest collected; raises the value backing each claim
    /// unit without minting new units.
    pub total_interest_earned: u64,
    /// The insurance buffer drawn down before losses touch claim-holders.
    pub insurance_pool: u64,
    /// Claim units outstanding across all accounts.
    pub total_shares: u64,
    /// Upfront fee carved out of each loan disbursement, in basis points.
    pub origination_fee_bps: u64,
    /// Per-account claim units.
    pub shares: ShareLedger,
    /// Borrowers allowed to draw loans.
    pub authorized_circles: Vec<u64>,
    /// Issuers ("factories") allowed to authorize borrowers.
    pub authorized_factories: Vec<u64>,
    /// One loan record per borrower.
    pub loans: LoanBook,
}

impl KuyayVault {
    /// The accounting invariants that every operation preserves:
    /// claim units held equal claim units outstanding, loaned principal
    /// never exceeds deposited assets and always matches the loan book,
    /// the fee stays within its cap, and every active loan's debt
    /// arithmetic stays within machine bounds.
    pub open spec fn wf(&self) -> bool {
        &&& self.shares.wf()
        &&& self.loans.wf()
        &&& self.authorized_circles@.no_duplicates()
        &&& self.authorized_factories@.no_duplicates()
        &&& self.shares.total() == self.total_shares as int
        &&& self.total_loaned <= self.total_assets
        &&& self.loans.active_principal() == self.total_loaned as int
        &&& self.origination_fee_bps <= MAX_ORIGINATION_FEE_BPS
        &&& self.total_assets + self.total_interest_earned <= u64::MAX
        &&& forall|b: u64|
            (#[trigger] self.loans.spec_loan(b)) matches Some(l) ==> l.is_active
                ==> l.debt_fits()
    }

    /// Value backing the claim units: deposits plus collected interest.
    pub open spec fn spec_vault_value(&self) -> int {
        self.total_assets + self.total_interest_earned
    }

    /// Idle liquidity: deposited assets not currently out on loan.
    pub open spec fn spec_available(&self) -> int {
        self.total_assets - self.total_loaned
    }

    /// Claim units minted for a deposit of `amount`: one unit per asset
    /// unit while no units exist, else `floor(amount * units / value)`.
    pub open spec fn spec_mint(&self, amount: u64) -> int {
        if self.total_shares == 0 {
            amount as int
        } else if self.spec_vault_value() == 0 {
            0
        } else {
            (amount * self.total_shares) / self.spec_vault_value()
        }
    }

    /// Asset units an account could redeem:
    /// `floor(units_held * value / units_outstanding)`.
    pub open spec fn spec_redeemable(&self, account: u64) -> int {
        if self.total_shares == 0 {
            0
        } else {
            (self.shares.spec_units(account) * self.spec_vault_value()) / (
            self.total_shares as int)
        }
    }

    /// Claim units burned to withdraw `amount` asset units.
    pub open spec fn spec_burn(&self, amount: u64) -> int {
        (amount * self.total_shares) / self.spec_vault_value()
    }

    /// Debt still owed by `borrower` at `now`; zero without an active loan.
    pub open spec fn spec_debt(&self, borrower: u64, now: u64) -> int {
        match self.loans.spec_loan(borrower) {
            Some(l) => if l.is_active {
                l.spec_outstanding(now)
            } else {
                0
            },
            None => 0,
        }
    }

    /// Whether `id` may draw loans.
    pub open spec fn spec_is_circle(&self, id: u64) -> bool {
        self.authorized_circles@.contains(id)
    }

    /// Whether `id` may authorize borrowers.
    pub open spec fn spec_is_factory(&self, id: u64) -> bool {
        self.authorized_factories@.contains(id)
    }

    /// The identity, configuration and authorization state is the same in
    /// both vaults.
    pub open spec fn admin_unchanged(pre: &KuyayVault, post: &KuyayVault) -> bool {
        &&& post.asset == pre.asset
        &&& post.owner == pre.owner
        &&& post.treasury == pre.treasury
        &&& post.origination_fee_bps == pre.origination_fee_bps
        &&& post.authorized_circles@ == pre.authorized_circles@
        &&& post.authorized_factories@ == pre.authorized_factories@
    }

    /// Claim-unit state is the same in both vaults.
    pub open spec fn shares_unchanged(pre: &KuyayVault, post: &KuyayVault) -> bool {
        &&& post.total_shares == pre.total_shares
        &&& forall|a: u64| post.shares.spec_units(a) == pre.shares.spec_units(a)
    }

    /// Loan state is the same in both vaults.
    pub open spec fn loans_unchanged(pre: &KuyayVault, post: &KuyayVault) -> bool {
        &&& post.total_loaned == pre.total_loaned
        &&& forall|b: u64| post.loans.spec_loan(b) == pre.loans.spec_loan(b)
    }

    /// A vault with the null owner, no value, no claims and no loans;
    /// unusable for administration until `initialize` sets the owner.
    pub fn new() -> (r: KuyayVault)
        ensures
            r.wf(),
            r.owner == 0,
            r.asset == 0,
            r.treasury == 0,
            r.total_assets == 0,
            r.total_loaned == 0,
            r.total_interest_earned == 0,
            r.insurance_pool == 0,
            r.total_shares == 0,
            r.origination_fee_bps == 0,
            forall|a: u64| r.shares.spec_units(a) == 0,
            forall|b: u64| r.loans.spec_loan(b) is None,
            forall|x: u64| !r.spec_is_circle(x) && !r.spec_is_factory(x),
    {
        KuyayVault {
            asset: 0,
            owner: 0,
            treasury: 0,
            total_assets: 0,
            total_loaned: 0,
            total_interest_earned: 0,
            insurance_pool: 0,
            total_shares: 0,
            origination_fee_bps: 0,
            shares: ShareLedger::new(),
            authorized_circles: Vec::new(),
            authorized_factories: Vec::new(),
            loans: LoanBook::new(),
        }
    }

    /// Bind the vault to an asset ledger and a fee treasury and make the
    /// caller its owner, at the default origination fee.  Fails once an
    /// owner is set, or on a null identifier.
    pub fn initialize(&mut self, caller: u64, asset_address: u64, treasury_address: u64) -> (r:
        Result<(), VaultError>)
        requires
            old(self).wf(),
        ensures
            final(self).wf(),
            r is Err ==> *final(self) == *old(self),
            old(self).owner != 0 ==> r == Err::<(), VaultError>(VaultError::AlreadyInitialized),
            old(self).owner == 0 && (asset_address == 0 || treasury_address == 0) ==> r == Err::<
                (),
                VaultError,
            >(VaultError::InvalidIdentifier),
            old(self).owner == 0 && asset_address != 0 && treasury_address != 0 ==> {
                &&& r is Ok
                &&& final(self).asset == asset_address
                &&& final(self).treasury == treasury_address
                &&& final(self).owner == caller
                &&& final(self).origination_fee_bps == DEFAULT_ORIGINATION_FEE_BPS
                &&& final(self).total_assets == old(self).total_assets
                &&& final(self).total_interest_earned == old(self).total_interest_earned
                &&& final(self).insurance_pool == old(self).insurance_pool
                &&& final(self).authorized_circles@ == old(self).authorized_circles@
                &&& final(self).authorized_factories@ == old(self).authorized_factories@
                &&& Self::shares_unchanged(old(self), final(self))
                &&& Self::loans_unchanged(old(self), final(self))
            },
    {
        if self.owner != 0 {
            return Err(VaultError::AlreadyInitialized);
        }
        if asset_address == 0 || treasury_address == 0 {
            return Err(VaultError::InvalidIdentifier);
        }
        self.asset = asset_address;
        self.treasury = treasury_address;
        self.owner = caller;
        self.origination_fee_bps = DEFAULT_ORIGINATION_FEE_BPS;
        Ok(())
    }

    // -----------------------------------------------------------------
    // Deposits and withdrawals.
    // -----------------------------------------------------------------

    /// Deposit `amount` asset units for `caller`, minting claim units at
    /// the current price: one per asset unit while no units exist, else
    /// `floor(amount * units / value)`.  Returns the units minted.
    /// Rejects a zero amount, and a deposit while units are outstanding
    /// but the vault value is zero, since the price is then undefined.
    /// The host pulls `amount` from the caller and commits this mutation
    /// only if that pull succeeds.
    pub fn deposit(&mut self, caller: u64, amount: u64) -> (r: Result<u64, VaultError>)
        requires
            old(self).wf(),
            old(self).total_assets + amount + old(self).total_interest_earned <= u64::MAX,
            old(self).total_shares + old(self).spec_mint(amount) <= u64::MAX,
        ensures
            final(self).wf(),
            r is Err ==> *final(self) == *old(self),
            amount == 0 ==> r == Err::<u64, VaultError>(VaultError::InvalidAmount),
            amount > 0 && old(self).total_shares > 0 && old(self).spec_vault_value() == 0 ==> r
                == Err::<u64, VaultError>(VaultError::InvalidAmount),
            amount > 0 && (old(self).total_shares == 0 || old(self).spec_vault_value() > 0) ==> {
                &&& r == Ok::<u64, VaultError>(old(self).spec_mint(amount) as u64)
                &&& final(self).shares.spec_units(caller) == old(self).shares.spec_units(caller)
                    + old(self).spec_mint(amount)
                &&& forall|a: u64|
                    a != caller ==> final(self).shares.spec_units(a) == old(
                        self,
                    ).shares.spec_units(a)
                &&& final(self).total_shares == old(self).total_shares + old(self).spec_mint(
                    amount,
                )
                &&& final(self).total_assets == old(self).total_assets + amount
                &&& final(self).total_interest_earned == old(self).total_interest_earned
                &&& final(self).insurance_pool == old(self).insurance_pool
                &&& Self::admin_unchanged(old(self), final(self))
                &&& Self::loans_unchanged(old(self), final(self))
            },
    {
        if amount == 0 {
            return Err(VaultError::InvalidAmount);
        }
        let minted: u64;
        if self.total_shares == 0 {
            minted = amount;
        } else {
            let vault_value = self.total_assets + self.total_interest_earned;
            if vault_value == 0 {
                return Err(VaultError::InvalidAmount);
            }
            proof {
                lemma_mul_upper_bound(
                    amount as int,
                    u64::MAX as int,
                    self.total_shares as int,
                    u64::MAX as int,
                );
                lemma_div_pos_is_pos((amount * self.total_shares) as int, vault_value as int);
            }
            minted = ((amount as u128) * (self.total_shares as u128) / (vault_value as u128))
                as u64;
        }
        proof {
            lemma_units_le_sum(self.shares@, caller);
        }
        self.shares.credit(caller, minted);
        self.total_shares = self.total_shares + minted;
        self.total_assets = self.total_assets + amount;
        Ok(minted)
    }

    /// Withdraw `amount` asset units for `caller`, burning
    /// `floor(amount * units / value)` claim units.  Fails on a zero
    /// amount or undefined price, when the caller's redeemable balance is
    /// short, or when idle liquidity is short.  The host sends `amount`
    /// to the caller and commits this mutation only if that send
    /// succeeds.
    pub fn withdraw(&mut self, caller: u64, amount: u64) -> (r: Result<(), VaultError>)
        requires
            old(self).wf(),
        ensures
            final(self).wf(),
            r is Err ==> *final(self) == *old(self),
            amount == 0 ==> r == Err::<(), VaultError>(VaultError::InvalidAmount),
            amount > 0 && (old(self).total_shares == 0 || old(self).spec_vault_value() == 0)
                ==> r == Err::<(), VaultError>(VaultError::InvalidAmount),
            amount > 0 && old(self).total_shares > 0 && old(self).spec_vault_value() > 0 && old(
                self,
            ).spec_redeemable(caller) < amount ==> r == Err::<(), VaultError>(
                VaultError::InsufficientBalance,
            ),
            amount > 0 && old(self).total_shares > 0 && old(self).spec_vault_value() > 0 && old(
                self,
            ).spec_redeemable(caller) >= amount && old(self).spec_available() < amount ==> r
                == Err::<(), VaultError>(VaultError::InsufficientLiquidity),
            amount > 0 && old(self).total_shares > 0 && old(self).spec_vault_value() > 0 && old(
                self,
            ).spec_redeemable(caller) >= amount && old(self).spec_available() >= amount ==> {
                &&& r is Ok
                &&& final(self).shares.spec_units(caller) == old(self).shares.spec_units(caller)
                    - old(self).spec_burn(amount)
                &&& forall|a: u64|
                    a != caller ==> final(self).shares.spec_units(a) == old(
                        self,
                    ).shares.spec_units(a)
                &&& final(self).total_shares == old(self).total_shares - old(self).spec_burn(
                    amount,
                )
                &&& final(self).total_assets == old(self).total_assets - amount
                &&& final(self).total_interest_earned == old(self).total_interest_earned
                &&& final(self).insurance_pool == old(self).insurance_pool
                &&& Self::admin_unchanged(old(self), final(self))
                &&& Self::loans_unchanged(old(self), final(self))
            },
    {
        if amount == 0 {
            return Err(VaultError::InvalidAmount);
        }
        let vault_value = self.total_assets + self.total_interest_earned;
        let total_shares = self.total_shares;
        if total_shares == 0 || vault_value == 0 {
            return Err(VaultError::InvalidAmount);
        }
        let user_shares = self.shares.units(caller);
        proof {
            lemma_units_le_sum(self.shares@, caller);
            lemma_mul_upper_bound(
                user_shares as int,
                u64::MAX as int,
                vault_value as int,
                u64::MAX as int,
            );
        }
        let user_balance: u128 = (user_shares as u128) * (vault_value as u128) / (
        total_shares as u128);
        if user_balance < amount as u128 {
            return Err(VaultError::InsufficientBalance);
        }
        let available = self.total_assets - self.total_loaned;
        if available < amount {
            return Err(VaultError::InsufficientLiquidity);
        }
        proof {
            lemma_mul_upper_bound(
                amount as int,
                u64::MAX as int,
                total_shares as int,
                u64::MAX as int,
            );
            let u = user_shares as int;
            let vv = vault_value as int;
            let s = total_shares as int;
            let a = amount as int;
            let q = (u * vv) / s;
            lemma_mul_inequality(a, q, s);
            lemma_remainder_lower(u * vv, s);
            assert(a * s <= u * vv);
            lemma_div_is_ordered(a * s, u * vv, vv);
            lemma_div_multiples_vanish(u, vv);
            assert(u * vv == vv * u);
            assert((u * vv) / vv == u);
            assert((a * s) / vv <= u);
            lemma_div_pos_is_pos(a * s, vv);
        }
        let shares_to_burn = ((amount as u128) * (total_shares as u128) / (vault_value as u128))
            as u64;
        self.shares.debit(caller, shares_to_burn);
        self.total_shares = self.total_shares - shares_to_burn;
        self.total_assets = self.total_assets - amount;
        Ok(())
    }

    /// Grow the insurance buffer by `amount`, counting it as deposited
    /// value: claim price rises, no claim units are minted.  Open to any
    /// caller; the host pulls `amount` from the funder.
    pub fn fund_insurance_pool(&mut self, amount: u64) -> (r: Result<(), VaultError>)
        requires
            old(self).wf(),
            old(self).insurance_pool + amount <= u64::MAX,
            old(self).total_assets + amount + old(self).total_interest_earned <= u64::MAX,
        ensures
            final(self).wf(),
            r is Err ==> *final(self) == *old(self),
            amount == 0 ==> r == Err::<(), VaultError>(VaultError::InvalidAmount),
            amount > 0 ==> {
                &&& r is Ok
                &&& final(self).insurance_pool == old(self).insurance_pool + amount
                &&& final(self).total_assets == old(self).total_assets + amount
                &&& final(self).total_interest_earned == old(self).total_interest_earned
                &&& Self::admin_unchanged(old(self), final(self))
                &&& Self::shares_unchanged(old(self), final(self))
                &&& Self::loans_unchanged(old(self), final(self))
            },
    {
        if amount == 0 {
            return Err(VaultError::InvalidAmount);
        }
        self.insurance_pool = self.insurance_pool + amount;
        self.total_assets = self.total_assets + amount;
        Ok(())
    }

    // -----------------------------------------------------------------
    // Views.
    // -----------------------------------------------------------------

    /// Asset units `lp` could redeem at the current claim price.
    pub fn balance_of(&self, lp: u64) -> (r: u64)
        requires
            self.wf(),
        ensures
            r == self.spec_redeemable(lp),
    {
        if self.total_shares == 0 {
            return 0;
        }
        let vault_value = self.total_assets + self.total_interest_earned;
        let user_shares = self.shares.units(lp);
        proof {
            lemma_units_le_sum(self.shares@, lp);
            lemma_mul_upper_bound(
                self.shares.spec_units(lp) as int,
                u64::MAX as int,
                vault_value as int,
                u64::MAX as int,
            );
            lemma_mul_inequality(
                self.shares.spec_units(lp) as int,
                self.total_shares as int,
                vault_value as int,
            );
            lemma_div_is_ordered(
                self.shares.spec_units(lp) * vault_value,
                self.total_shares * vault_value,
                self.total_shares as int,
            );
            lemma_div_multiples_vanish(vault_value as int, self.total_shares as int);
        }
        ((user_shares as u128) * (vault_value as u128) / (self.total_shares as u128)) as u64
    }

    /// Debt still owed by `circle` at `now`.  Always answers; an inactive
    /// or unknown borrower owes nothing.  A pure function of the stored
    /// loan record and `now`, so repeated calls at one time agree.
    pub fn calculate_total_debt(&self, circle: u64, now: u64) -> (r: Result<u64, VaultError>)
        requires
            self.wf(),
        ensures
            r == Ok::<u64, VaultError>((self.spec_debt(circle, now)) as u64),
    {
        let loan = match self.loans.get(circle) {
            Some(l) => l,
            None => {
                return Ok(0);
            },
        };
        if !loan.is_active {
            return Ok(0);
        }
        proof {
            lemma_debt_in_range(loan, now);
            lemma_mul_upper_bound(
                loan.principal as int,
                u64::MAX as int,
                loan.interest_rate as int,
                u64::MAX as int,
            );
        }
        let raw: u64 = if now > loan.start_time {
            now - loan.start_time
        } else {
            0
        };
        let time_elapsed: u64 = if raw > loan.duration {
            loan.duration
        } else {
            raw
        };
        let interest: u128 = (loan.principal as u128) * (loan.interest_rate as u128) * (
        time_elapsed as u128) / ((BPS_DENOM as u128) * (SECONDS_PER_YEAR as u128));
        let total_debt: u128 = (loan.principal as u128) + interest;
        if total_debt > (loan.paid as u128) {
            Ok((total_debt - loan.paid as u128) as u64)
        } else {
            Ok(0)
        }
    }

    /// Idle liquidity: deposits not currently out on loan.
    pub fn available_liquidity(&self) -> (r: u64)
        requires
            self.wf(),
        ensures
            r == self.spec_available(),
    {
        self.total_assets - self.total_loaned
    }

    /// The stored loan record of `circle`, as
    /// `(principal, rate, start, duration, paid, active)`; all zero when
    /// no record exists.
    pub fn get_loan(&self, circle: u64) -> (r: (u64, u64, u64, u64, u64, bool))
        requires
            self.wf(),
        ensures
            match self.loans.spec_loan(circle) {
                Some(l) => r == (
                    l.principal,
                    l.interest_rate,
                    l.start_time,
                    l.duration,
                    l.paid,
                    l.is_active,
                ),
                None => r == (0u64, 0u64, 0u64, 0u64, 0u64, false),
            },
    {
        match self.loans.get(circle) {
            Some(l) => (l.principal, l.interest_rate, l.start_time, l.duration, l.paid,
            l.is_active),
            None => (0, 0, 0, 0, 0, false),
        }
    }

    /// Coarse utilization ratio: `loaned * 1000 / deposited`, zero on an
    /// empty vault.
    pub fn current_apy(&self) -> (r: u64)
        requires
            self.wf(),
        ensures
            self.total_assets == 0 ==> r == 0,
            self.total_assets > 0 ==> r == (self.total_loaned * 1000) / (self.total_assets as int),
    {
        if self.total_assets == 0 {
            return 0;
        }
        proof {
            lemma_mul_inequality(
                self.total_loaned as int,
                self.total_assets as int,
                1000,
            );
            lemma_div_is_ordered(
                self.total_loaned * 1000,
                self.total_assets * 1000,
                self.total_assets as int,
            );
            lemma_div_multiples_vanish(1000, self.total_assets as int);
        }
        ((self.total_loaned as u128) * 1000u128 / (self.total_assets as u128)) as u64
    }

    /// The vault owner's identifier.
    pub fn owner(&self) -> (r: u64)
        ensures
            r == self.owner,
    {
        self.owner
    }

    /// The pooled asset's identifier.
    pub fn asset(&self) -> (r: u64)
        ensures
            r == self.asset,
    {
        self.asset
    }

    /// The fee treasury's identifier.
    pub fn treasury(&self) -> (r: u64)
        ensures
            r == self.treasury,
    {
        self.treasury
    }

    /// Total asset units deposited.
    pub fn total_assets(&self) -> (r: u64)
        ensures
            r == self.total_assets,
    {
        self.total_assets
    }

    /// Asset units out on active loans.
    pub fn total_loaned(&self) -> (r: u64)
        ensures
            r == self.total_loaned,
    {
        self.total_loaned
    }

    /// Claim units outstanding.
    pub fn total_shares(&self) -> (r: u64)
        ensures
            r == self.total_shares,
    {
        self.total_shares
    }

    /// The insurance buffer's balance.
    pub fn insurance_pool(&self) -> (r: u64)
        ensures
            r == self.insurance_pool,
    {
        self.insurance_pool
    }

    /// Cumulative interest collected.
    pub fn total_interest_earned(&self) -> (r: u64)
        ensures
            r == self.total_interest_earned,
    {
        self.total_interest_earned
    }

    // -----------------------------------------------------------------
    // The loan lifecycle.
    // -----------------------------------------------------------------

    /// The record `request_loan` writes when it succeeds at time `now`.
    pub open spec fn spec_new_loan(
        now: u64,
        amount: u64,
        duration_in_days: u64,
        interest_rate_bps: u64,
    ) -> Loan {
        Loan {
            principal: amount,
            interest_rate: interest_rate_bps,
            start_time: now,
            duration: (duration_in_days * SECONDS_PER_DAY) as u64,
            paid: 0,
            is_active: true,
        }
    }

    /// Upfront fee carved out of a disbursement of `amount`.
    pub open spec fn spec_origination_fee(&self, amount: u64) -> int {
        (amount * self.origination_fee_bps) / (BPS_DENOM as int)
    }

    /// Open a loan of `amount` for `caller` at time `now`, for
    /// `duration_in_days` days at `interest_rate_bps`.  Returns the net
    /// disbursement: the principal less the origination fee.  Only an
    /// authorized borrower without an active loan may draw, and only up
    /// to the idle liquidity.  The host sends the fee to the treasury and
    /// the net amount to the borrower, and commits this mutation only if
    /// both succeed.
    pub fn request_loan(
        &mut self,
        caller: u64,
        now: u64,
        amount: u64,
        duration_in_days: u64,
        interest_rate_bps: u64,
    ) -> (r: Result<u64, VaultError>)
        requires
            old(self).wf(),
            duration_in_days * SECONDS_PER_DAY <= u64::MAX,
            amount * interest_rate_bps * (duration_in_days * SECONDS_PER_DAY) <= u128::MAX,
            amount + (amount * interest_rate_bps * (duration_in_days * SECONDS_PER_DAY)) / (
            BPS_DENOM as int * SECONDS_PER_YEAR as int) <= u64::MAX,
        ensures
            final(self).wf(),
            r is Err ==> *final(self) == *old(self),
            !old(self).spec_is_circle(caller) ==> r == Err::<u64, VaultError>(
                VaultError::NotAuthorizedBorrower,
            ),
            old(self).spec_is_circle(caller) && amount == 0 ==> r == Err::<u64, VaultError>(
                VaultError::InvalidAmount,
            ),
            old(self).spec_is_circle(caller) && amount > 0 && old(self).loans.spec_active(caller)
                ==> r == Err::<u64, VaultError>(VaultError::LoanAlreadyActive),
            old(self).spec_is_circle(caller) && amount > 0 && !old(self).loans.spec_active(caller)
                && old(self).spec_available() < amount ==> r == Err::<u64, VaultError>(
                VaultError::InsufficientLiquidity,
            ),
            old(self).spec_is_circle(caller) && amount > 0 && !old(self).loans.spec_active(caller)
                && old(self).spec_available() >= amount ==> {
                &&& r == Ok::<u64, VaultError>(
                    (amount - old(self).spec_origination_fee(amount)) as u64,
                )
                &&& final(self).loans.spec_loan(caller) == Some(
                    Self::spec_new_loan(now, amount, duration_in_days, interest_rate_bps),
                )
                &&& forall|b: u64|
                    b != caller ==> final(self).loans.spec_loan(b) == old(self).loans.spec_loan(b)
                &&& final(self).total_loaned == old(self).total_loaned + amount
                &&& final(self).total_assets == old(self).total_assets
                &&& final(self).total_interest_earned == old(self).total_interest_earned
                &&& final(self).insurance_pool == old(self).insurance_pool
                &&& Self::admin_unchanged(old(self), final(self))
                &&& Self::shares_unchanged(old(self), final(self))
            },
    {
        if !ids_contain(&self.authorized_circles, caller) {
            return Err(VaultError::NotAuthorizedBorrower);
        }
        if amount == 0 {
            return Err(VaultError::InvalidAmount);
        }
        let prior_active = match self.loans.get(caller) {
            Some(l) => l.is_active,
            None => false,
        };
        if prior_active {
            return Err(VaultError::LoanAlreadyActive);
        }
        let available = self.total_assets - self.total_loaned;
        if available < amount {
            return Err(VaultError::InsufficientLiquidity);
        }
        proof {
            lemma_mul_upper_bound(
                amount as int,
                u64::MAX as int,
                self.origination_fee_bps as int,
                u64::MAX as int,
            );
            assert(amount * self.origination_fee_bps <= amount * BPS_DENOM) by (nonlinear_arith)
                requires
                    self.origination_fee_bps <= BPS_DENOM,
                    0 <= amount,
            ;
            lemma_div_is_ordered(
                amount * self.origination_fee_bps,
                amount * BPS_DENOM,
                BPS_DENOM as int,
            );
            lemma_div_by_multiple(amount as int, BPS_DENOM as int);
            assert((amount * BPS_DENOM) / (BPS_DENOM as int) == amount as int);
            lemma_div_pos_is_pos((amount * self.origination_fee_bps) as int, BPS_DENOM as int);
        }
        let origination_fee = ((amount as u128) * (self.origination_fee_bps as u128) / (
        BPS_DENOM as u128)) as u64;
        let net_amount = amount - origination_fee;
        let duration_seconds = duration_in_days * SECONDS_PER_DAY;
        let loan = Loan {
            principal: amount,
            interest_rate: interest_rate_bps,
            start_time: now,
            duration: duration_seconds,
            paid: 0,
            is_active: true,
        };
        self.loans.set(caller, loan);
        self.total_loaned = self.total_loaned + amount;
        proof {
            assert forall|b: u64|
                (#[trigger] self.loans.spec_loan(b)) matches Some(l) ==> l.is_active
                    ==> l.debt_fits() by {
                if b != caller {
                    assert(self.loans.spec_loan(b) == old(self).loans.spec_loan(b));
                }
            }
        }
        Ok(net_amount)
    }

    /// The record a repayment of `amount` at time `now` leaves behind:
    /// payments accumulate, and the loan deactivates once they cover the
    /// total debt.
    pub open spec fn spec_repaid_loan(l: Loan, amount: u64, now: u64) -> Loan {
        Loan {
            paid: (l.paid + amount) as u64,
            is_active: l.spec_total_debt(now) > l.paid + amount,
            ..l
        }
    }

    /// The interest portion of one repayment of `amount` on loan `l`:
    /// the part of this payment that lies above the principal, so that
    /// summed over a loan's repayments exactly the excess over the
    /// principal is booked, with no double-counting.
    pub open spec fn spec_interest_portion(l: Loan, amount: u64) -> int {
        let base = if l.paid > l.principal {
            l.paid as int
        } else {
            l.principal as int
        };
        if l.paid + amount > base {
            l.paid + amount - base
        } else {
            0
        }
    }

    /// Repay `amount` of the caller's active loan at time `now`.  Once
    /// cumulative payments reach the accrued total debt the loan
    /// deactivates and its original principal returns to the idle pool.
    /// The part of each payment above the principal is booked as
    /// interest collected, raising the claim price.  The host pulls
    /// `amount` from the borrower and commits this mutation only if
    /// that pull succeeds.
    pub fn repay_loan(&mut self, caller: u64, now: u64, amount: u64) -> (r: Result<
        (),
        VaultError,
    >)
        requires
            old(self).wf(),
            old(self).loans.spec_loan(caller) matches Some(l) ==> l.is_active ==> old(
                self,
            ).total_assets + old(self).total_interest_earned + l.paid + amount <= u64::MAX,
        ensures
            final(self).wf(),
            r is Err ==> *final(self) == *old(self),
            !old(self).spec_is_circle(caller) ==> r == Err::<(), VaultError>(
                VaultError::NotAuthorizedBorrower,
            ),
            old(self).spec_is_circle(caller) && !old(self).loans.spec_active(caller) ==> r
                == Err::<(), VaultError>(VaultError::NoActiveLoan),
            old(self).spec_is_circle(caller) && old(self).loans.spec_active(caller) && amount == 0
                ==> r == Err::<(), VaultError>(VaultError::InvalidAmount),
            old(self).spec_is_circle(caller) && old(self).loans.spec_active(caller) && amount > 0
                ==> {
                let l = old(self).loans.spec_loan(caller)->Some_0;
                let nl = Self::spec_repaid_loan(l, amount, now);
                &&& r is Ok
                &&& final(self).loans.spec_loan(caller) == Some(nl)
                &&& forall|b: u64|
                    b != caller ==> final(self).loans.spec_loan(b) == old(self).loans.spec_loan(b)
                &&& final(self).total_loaned == (if nl.is_active {
                    old(self).total_loaned as int
                } else {
                    old(self).total_loaned - l.principal
                })
                &&& final(self).total_interest_earned == old(self).total_interest_earned
                    + Self::spec_interest_portion(l, amount)
                &&& final(self).total_assets == old(self).total_assets
                &&& final(self).insurance_pool == old(self).insurance_pool
                &&& Self::admin_unchanged(old(self), final(self))
                &&& Self::shares_unchanged(old(self), final(self))
            },
    {
        if !ids_contain(&self.authorized_circles, caller) {
            return Err(VaultError::NotAuthorizedBorrower);
        }
        let loan = match self.loans.get(caller) {
            Some(l) => l,
            None => {
                return Err(VaultError::NoActiveLoan);
            },
        };
        if !loan.is_active {
            return Err(VaultError::NoActiveLoan);
        }
        if amount == 0 {
            return Err(VaultError::InvalidAmount);
        }
        let new_paid = loan.paid + amount;
        proof {
            lemma_debt_in_range(loan, now);
            lemma_mul_upper_bound(
                loan.principal as int,
                u64::MAX as int,
                loan.interest_rate as int,
                u64::MAX as int,
            );
            lemma_principal_le_sum(self.loans@, caller);
        }
        let raw: u64 = if now > loan.start_time {
            now - loan.start_time
        } else {
            0
        };
        let time_elapsed: u64 = if raw > loan.duration {
            loan.duration
        } else {
            raw
        };
        let interest: u128 = (loan.principal as u128) * (loan.interest_rate as u128) * (
        time_elapsed as u128) / ((BPS_DENOM as u128) * (SECONDS_PER_YEAR as u128));
        let total_debt: u128 = (loan.principal as u128) + interest;
        let still_active = total_debt > new_paid as u128;
        let new_loan = Loan { paid: new_paid, is_active: still_active, ..loan };
        self.loans.set(caller, new_loan);
        if !still_active {
            self.total_loaned = self.total_loaned - loan.principal;
        }
        if new_paid > loan.principal {
            let base = if loan.paid > loan.principal {
                loan.paid
            } else {
                loan.principal
            };
            self.total_interest_earned = self.total_interest_earned + (new_paid - base);
        }
        proof {
            assert forall|b: u64|
                (#[trigger] self.loans.spec_loan(b)) matches Some(l) ==> l.is_active
                    ==> l.debt_fits() by {
                if b != caller {
                    assert(self.loans.spec_loan(b) == old(self).loans.spec_loan(b));
                }
            }
        }
        Ok(())
    }

    /// Debt left unpaid after a liquidation recovers `recovered`.
    pub open spec fn spec_shortfall(l: Loan, now: u64, recovered: u64) -> int {
        if l.spec_outstanding(now) > recovered {
            l.spec_outstanding(now) - recovered
        } else {
            0
        }
    }

    /// The part of a shortfall the insurance buffer cannot absorb; it is
    /// written off against deposited assets, diluting every claim-holder.
    pub open spec fn spec_residual(l: Loan, now: u64, recovered: u64, buffer: u64) -> int {
        if Self::spec_shortfall(l, now, recovered) > buffer {
            Self::spec_shortfall(l, now, recovered) - buffer
        } else {
            0
        }
    }

    /// Close the active loan of `circle_address` at time `now` after
    /// recovering `collateral_recovered`.  Owner-only.  The unpaid debt
    /// beyond the recovery is absorbed by the insurance buffer first;
    /// only the remainder is written off against deposited assets.  The
    /// loaned total drops by the original principal regardless of the
    /// recovery outcome.
    pub fn liquidate_circle(
        &mut self,
        caller: u64,
        now: u64,
        circle_address: u64,
        collateral_recovered: u64,
    ) -> (r: Result<(), VaultError>)
        requires
            old(self).wf(),
            old(self).loans.spec_loan(circle_address) matches Some(l) ==> (l.is_active && caller
                == old(self).owner) ==> Self::spec_residual(
                l,
                now,
                collateral_recovered,
                old(self).insurance_pool,
            ) <= old(self).spec_available() + l.principal,
        ensures
            final(self).wf(),
            r is Err ==> *final(self) == *old(self),
            caller != old(self).owner ==> r == Err::<(), VaultError>(VaultError::Unauthorized),
            caller == old(self).owner && !old(self).loans.spec_active(circle_address) ==> r
                == Err::<(), VaultError>(VaultError::NoActiveLoan),
            caller == old(self).owner && old(self).loans.spec_active(circle_address) ==> {
                let l = old(self).loans.spec_loan(circle_address)->Some_0;
                let shortfall = Self::spec_shortfall(l, now, collateral_recovered);
                &&& r is Ok
                &&& final(self).loans.spec_loan(circle_address) == Some(
                    Loan { is_active: false, ..l },
                )
                &&& forall|b: u64|
                    b != circle_address ==> final(self).loans.spec_loan(b) == old(
                        self,
                    ).loans.spec_loan(b)
                &&& final(self).total_loaned == old(self).total_loaned - l.principal
                &&& final(self).insurance_pool == (if shortfall > old(self).insurance_pool {
                    0
                } else {
                    old(self).insurance_pool - shortfall
                })
                &&& final(self).total_assets == old(self).total_assets - Self::spec_residual(
                    l,
                    now,
                    collateral_recovered,
                    old(self).insurance_pool,
                )
                &&& final(self).total_interest_earned == old(self).total_interest_earned
                &&& Self::admin_unchanged(old(self), final(self))
                &&& Self::shares_unchanged(old(self), final(self))
            },
    {
        if caller != self.owner {
            return Err(VaultError::Unauthorized);
        }
        let loan = match self.loans.get(circle_address) {
            Some(l) => l,
            None => {
                return Err(VaultError::NoActiveLoan);
            },
        };
        if !loan.is_active {
            return Err(VaultError::NoActiveLoan);
        }
        proof {
            lemma_debt_in_range(loan, now);
            lemma_mul_upper_bound(
                loan.principal as int,
                u64::MAX as int,
                loan.interest_rate as int,
                u64::MAX as int,
            );
            lemma_principal_le_sum(self.loans@, circle_address);
        }
        let raw: u64 = if now > loan.start_time {
            now - loan.start_time
        } else {
            0
        };
        let time_elapsed: u64 = if raw > loan.duration {
            loan.duration
        } else {
            raw
        };
        let interest: u128 = (loan.principal as u128) * (loan.interest_rate as u128) * (
        time_elapsed as u128) / ((BPS_DENOM as u128) * (SECONDS_PER_YEAR as u128));
        let total_debt: u128 = (loan.principal as u128) + interest;
        let unpaid_debt: u64 = if total_debt > loan.paid as u128 {
            (total_debt - loan.paid as u128) as u64
        } else {
            0
        };
        self.loans.set(circle_address, Loan { is_active: false, ..loan });
        self.total_loaned = self.total_loaned - loan.principal;
        if collateral_recovered < unpaid_debt {
            let loss = unpaid_debt - collateral_recovered;
            let insurance = self.insurance_pool;
            if insurance >= loss {
                self.insurance_pool = insurance - loss;
            } else {
                let residual = loss - insurance;
                self.insurance_pool = 0;
                self.total_assets = self.total_assets - residual;
            }
        }
        proof {
            assert forall|b: u64|
                (#[trigger] self.loans.spec_loan(b)) matches Some(l) ==> l.is_active
                    ==> l.debt_fits() by {
                if b != circle_address {
                    assert(self.loans.spec_loan(b) == old(self).loans.spec_loan(b));
                }
            }
        }
        Ok(())
    }

    // -----------------------------------------------------------------
    // Batch deposits.
    // -----------------------------------------------------------------
    //
    // A batch applies the deposit rule to each entry in turn, against the
    // claim-unit and asset totals as the earlier entries left them.  A
    // zero amount mints nothing and is not an error.  An entry that
    // cannot be priced (units outstanding over a zero vault value) stops
    // the batch with `InvalidAmount`; the entries already applied stay
    // applied.  The spec functions below fold that rule over the lists
    // from a starting pair of totals `(s, a)` with collected interest
    // `i`.

    /// Whether the entry at the front fails to price.
    pub open spec fn spec_step_err(s: int, a: int, i: int, x: int) -> bool {
        x > 0 && s > 0 && a + i == 0
    }

    /// Units minted for the entry at the front.
    pub open spec fn spec_step_mint(s: int, a: int, i: int, x: int) -> int {
        if s == 0 {
            x
        } else {
            (x * s) / (a + i)
        }
    }

    /// Claim units outstanding after the batch.
    pub open spec fn spec_batch_shares(s: int, a: int, i: int, lps: Seq<u64>, amounts: Seq<u64>)
        -> int
        decreases lps.len(),
    {
        if lps.len() == 0 {
            s
        } else {
            let x = amounts[0] as int;
            if x == 0 {
                Self::spec_batch_shares(s, a, i, lps.drop_first(), amounts.drop_first())
            } else if Self::spec_step_err(s, a, i, x) {
                s
            } else {
                Self::spec_batch_shares(
                    s + Self::spec_step_mint(s, a, i, x),
                    a + x,
                    i,
                    lps.drop_first(),
                    amounts.drop_first(),
                )
            }
        }
    }

    /// Assets deposited after the batch.
    pub open spec fn spec_batch_assets(s: int, a: int, i: int, lps: Seq<u64>, amounts: Seq<u64>)
        -> int
        decreases lps.len(),
    {
        if lps.len() == 0 {
            a
        } else {
            let x = amounts[0] as int;
            if x == 0 {
                Self::spec_batch_assets(s, a, i, lps.drop_first(), amounts.drop_first())
            } else if Self::spec_step_err(s, a, i, x) {
                a
            } else {
                Self::spec_batch_assets(
                    s + Self::spec_step_mint(s, a, i, x),
                    a + x,
                    i,
                    lps.drop_first(),
                    amounts.drop_first(),
                )
            }
        }
    }

    /// The minted amounts, entry by entry, or `None` when some entry
    /// fails to price.
    pub open spec fn spec_batch_mints(s: int, a: int, i: int, lps: Seq<u64>, amounts: Seq<u64>)
        -> Option<Seq<int>>
        decreases lps.len(),
    {
        if lps.len() == 0 {
            Some(Seq::empty())
        } else {
            let x = amounts[0] as int;
            if x == 0 {
                match Self::spec_batch_mints(s, a, i, lps.drop_first(), amounts.drop_first()) {
                    Some(ms) => Some(seq![0int] + ms),
                    None => None,
                }
            } else if Self::spec_step_err(s, a, i, x) {
                None
            } else {
                let m = Self::spec_step_mint(s, a, i, x);
                match Self::spec_batch_mints(
                    s + m,
                    a + x,
                    i,
                    lps.drop_first(),
                    amounts.drop_first(),
                ) {
                    Some(ms) => Some(seq![m] + ms),
                    None => None,
                }
            }
        }
    }

    /// Claim units the batch leaves with `acct`, counting only the
    /// entries it reaches before stopping.
    pub open spec fn spec_batch_gain(
        acct: u64,
        s: int,
        a: int,
        i: int,
        lps: Seq<u64>,
        amounts: Seq<u64>,
    ) -> int
        decreases lps.len(),
    {
        if lps.len() == 0 {
            0
        } else {
            let x = amounts[0] as int;
            if x == 0 {
                Self::spec_batch_gain(acct, s, a, i, lps.drop_first(), amounts.drop_first())
            } else if Self::spec_step_err(s, a, i, x) {
                0
            } else {
                let m = Self::spec_step_mint(s, a, i, x);
                (if lps[0] == acct {
                    m
                } else {
                    0
                }) + Self::spec_batch_gain(
                    acct,
                    s + m,
                    a + x,
                    i,
                    lps.drop_first(),
                    amounts.drop_first(),
                )
            }
        }
    }

    /// The machine bounds under which every step of the batch fits in
    /// 64-bit totals.
    pub open spec fn spec_batch_fits(s: int, a: int, i: int, lps: Seq<u64>, amounts: Seq<u64>)
        -> bool
        decreases lps.len(),
    {
        if lps.len() == 0 {
            true
        } else {
            let x = amounts[0] as int;
            if x == 0 {
                Self::spec_batch_fits(s, a, i, lps.drop_first(), amounts.drop_first())
            } else if Self::spec_step_err(s, a, i, x) {
                true
            } else {
                let m = Self::spec_step_mint(s, a, i, x);
                &&& s + m <= u64::MAX
                &&& a + x + i <= u64::MAX
                &&& Self::spec_batch_fits(
                    s + m,
                    a + x,
                    i,
                    lps.drop_first(),
                    amounts.drop_first(),
                )
            }
        }
    }

    /// Prepend already-minted amounts to the outcome of the rest of a
    /// batch.
    pub open spec fn spec_prepend_mints(p: Seq<int>, rest: Option<Seq<int>>) -> Option<Seq<int>> {
        match rest {
            Some(ms) => Some(p + ms),
            None => None,
        }
    }

    /// Deposit for several accounts in one call: entry `k` deposits
    /// `amounts[k]` for `lps[k]`, each priced against the totals as the
    /// earlier entries left them.  Returns the units minted per entry.
    /// Mismatched list lengths fail `InvalidParameter` before anything is
    /// applied; an entry that cannot be priced stops the batch with
    /// `InvalidAmount` and the entries before it stay applied.  The host
    /// pulls each entry's amount from its account.
    pub fn batch_deposit(&mut self, lps: Vec<u64>, amounts: Vec<u64>) -> (r: Result<
        Vec<u64>,
        VaultError,
    >)
        requires
            old(self).wf(),
            lps@.len() == amounts@.len() ==> Self::spec_batch_fits(
                old(self).total_shares as int,
                old(self).total_assets as int,
                old(self).total_interest_earned as int,
                lps@,
                amounts@,
            ),
        ensures
            final(self).wf(),
            lps@.len() != amounts@.len() ==> r == Err::<Vec<u64>, VaultError>(
                VaultError::InvalidParameter,
            ) && *final(self) == *old(self),
            lps@.len() == amounts@.len() ==> {
                let s0 = old(self).total_shares as int;
                let a0 = old(self).total_assets as int;
                let i0 = old(self).total_interest_earned as int;
                &&& final(self).total_shares == Self::spec_batch_shares(
                    s0,
                    a0,
                    i0,
                    lps@,
                    amounts@,
                )
                &&& final(self).total_assets == Self::spec_batch_assets(s0, a0, i0, lps@, amounts@)
                &&& forall|acct: u64|
                    final(self).shares.spec_units(acct) == old(self).shares.spec_units(acct)
                        + Self::spec_batch_gain(acct, s0, a0, i0, lps@, amounts@)
                &&& final(self).total_interest_earned == old(self).total_interest_earned
                &&& final(self).insurance_pool == old(self).insurance_pool
                &&& Self::admin_unchanged(old(self), final(self))
                &&& Self::loans_unchanged(old(self), final(self))
                &&& match Self::spec_batch_mints(s0, a0, i0, lps@, amounts@) {
                    Some(ms) => {
                        &&& r matches Ok(v)
                        &&& v@.len() == ms.len()
                        &&& forall|k: int| 0 <= k < ms.len() ==> v@[k] == ms[k]
                    },
                    None => r == Err::<Vec<u64>, VaultError>(VaultError::InvalidAmount),
                }
            },
    {
        if lps.len() != amounts.len() {
            return Err(VaultError::InvalidParameter);
        }
        let ghost s0 = self.total_shares as int;
        let ghost a0 = self.total_assets as int;
        let ghost i0 = self.total_interest_earned as int;
        let mut shares_minted: Vec<u64> = Vec::new();
        let n = lps.len();
        let mut k: usize = 0;
        proof {
            assert(lps@.skip(0) =~= lps@);
            assert(amounts@.skip(0) =~= amounts@);
            assert(shares_minted@.map_values(|v: u64| v as int) =~= Seq::<int>::empty());
            let whole = Self::spec_batch_mints(s0, a0, i0, lps@, amounts@);
            if whole is Some {
                assert(Seq::<int>::empty() + whole->Some_0 =~= whole->Some_0);
            }
        }
        while k < n
            invariant
                self.wf(),
                n == lps@.len(),
                n == amounts@.len(),
                k <= n,
                shares_minted@.len() == k,
                s0 == old(self).total_shares as int,
                a0 == old(self).total_assets as int,
                i0 == old(self).total_interest_earned as int,
                self.total_interest_earned == old(self).total_interest_earned,
                self.insurance_pool == old(self).insurance_pool,
                Self::admin_unchanged(old(self), self),
                Self::loans_unchanged(old(self), self),
                Self::spec_batch_shares(s0, a0, i0, lps@, amounts@) == Self::spec_batch_shares(
                    self.total_shares as int,
                    self.total_assets as int,
                    i0,
                    lps@.skip(k as int),
                    amounts@.skip(k as int),
                ),
                Self::spec_batch_assets(s0, a0, i0, lps@, amounts@) == Self::spec_batch_assets(
                    self.total_shares as int,
                    self.total_assets as int,
                    i0,
                    lps@.skip(k as int),
                    amounts@.skip(k as int),
                ),
                Self::spec_batch_mints(s0, a0, i0, lps@, amounts@) == Self::spec_prepend_mints(
                    shares_minted@.map_values(|v: u64| v as int),
                    Self::spec_batch_mints(
                        self.total_shares as int,
                        self.total_assets as int,
                        i0,
                        lps@.skip(k as int),
                        amounts@.skip(k as int),
                    ),
                ),
                Self::spec_batch_fits(
                    self.total_shares as int,
                    self.total_assets as int,
                    i0,
                    lps@.skip(k as int),
                    amounts@.skip(k as int),
                ),
                forall|acct: u64|
                    old(self).shares.spec_units(acct) + Self::spec_batch_gain(
                        acct,
                        s0,
                        a0,
                        i0,
                        lps@,
                        amounts@,
                    ) == #[trigger] self.shares.spec_units(acct) + Self::spec_batch_gain(
                        acct,
                        self.total_shares as int,
                        self.total_assets as int,
                        i0,
                        lps@.skip(k as int),
                        amounts@.skip(k as int),
                    ),
            decreases n - k,
        {
            let ghost pre = *self;
            let ghost suffix_l = lps@.skip(k as int);
            let ghost suffix_a = amounts@.skip(k as int);
            proof {
                assert(suffix_l.len() == n - k);
                assert(suffix_l[0] == lps@[k as int]);
                assert(suffix_a[0] == amounts@[k as int]);
                assert(suffix_l.drop_first() =~= lps@.skip(k as int + 1));
                assert(suffix_a.drop_first() =~= amounts@.skip(k as int + 1));
            }
            let lp = lps[k];
            let amount = amounts[k];
            let ghost prev_minted = shares_minted@;
            if amount == 0 {
                shares_minted.push(0);
                proof {
                    let f = |v: u64| v as int;
                    assert(shares_minted@.map_values(f) =~= prev_minted.map_values(f).push(0int));
                    let rest = Self::spec_batch_mints(
                        self.total_shares as int,
                        self.total_assets as int,
                        i0,
                        lps@.skip(k as int + 1),
                        amounts@.skip(k as int + 1),
                    );
                    if rest is Some {
                        assert(prev_minted.map_values(f) + (seq![0int] + rest->Some_0)
                            =~= shares_minted@.map_values(f) + rest->Some_0);
                    }
                }
                k += 1;
            } else {
                let minted: u64;
                if self.total_shares == 0 {
                    minted = amount;
                } else {
                    let vault_value = self.total_assets + self.total_interest_earned;
                    if vault_value == 0 {
                        proof {
                            assert(Self::spec_batch_mints(s0, a0, i0, lps@, amounts@) is None);
                        }
                        return Err(VaultError::InvalidAmount);
                    }
                    proof {
                        lemma_mul_upper_bound(
                            amount as int,
                            u64::MAX as int,
                            self.total_shares as int,
                            u64::MAX as int,
                        );
                        lemma_div_pos_is_pos(
                            (amount * self.total_shares) as int,
                            vault_value as int,
                        );
                    }
                    minted = ((amount as u128) * (self.total_shares as u128) / (
                    vault_value as u128)) as u64;
                }
                proof {
                    lemma_units_le_sum(self.shares@, lp);
                }
                self.shares.credit(lp, minted);
                self.total_shares = self.total_shares + minted;
                self.total_assets = self.total_assets + amount;
                shares_minted.push(minted);
                proof {
                    let f = |v: u64| v as int;
                    assert(shares_minted@.map_values(f) =~= prev_minted.map_values(f).push(
                        minted as int,
                    ));
                    let rest = Self::spec_batch_mints(
                        self.total_shares as int,
                        self.total_assets as int,
                        i0,
                        lps@.skip(k as int + 1),
                        amounts@.skip(k as int + 1),
                    );
                    if rest is Some {
                        assert(prev_minted.map_values(f) + (seq![minted as int] + rest->Some_0)
                            =~= shares_minted@.map_values(f) + rest->Some_0);
                    }
                }
                k += 1;
            }
        }
        Ok(shares_minted)
    }

    // -----------------------------------------------------------------
    // Administration.
    // -----------------------------------------------------------------

    /// Everything but the identity, configuration and authorization
    /// state is the same in both vaults.
    pub open spec fn holdings_unchanged(pre: &KuyayVault, post: &KuyayVault) -> bool {
        &&& post.total_assets == pre.total_assets
        &&& post.total_interest_earned == pre.total_interest_earned
        &&& post.insurance_pool == pre.insurance_pool
        &&& Self::shares_unchanged(pre, post)
        &&& Self::loans_unchanged(pre, post)
    }

    /// The identity and configuration fields are the same in both vaults.
    pub open spec fn config_unchanged(pre: &KuyayVault, post: &KuyayVault) -> bool {
        &&& post.asset == pre.asset
        &&& post.owner == pre.owner
        &&& post.treasury == pre.treasury
        &&& post.origination_fee_bps == pre.origination_fee_bps
    }

    /// Allow `circle` to draw loans.  An authorized issuer or the owner
    /// may grant this; the identifier must not be null.
    pub fn authorize_circle(&mut self, caller: u64, circle: u64) -> (r: Result<(), VaultError>)
        requires
            old(self).wf(),
        ensures
            final(self).wf(),
            r is Err ==> *final(self) == *old(self),
            !(old(self).spec_is_factory(caller) || caller == old(self).owner) ==> r == Err::<
                (),
                VaultError,
            >(VaultError::NotAuthorizedIssuer),
            (old(self).spec_is_factory(caller) || caller == old(self).owner) && circle == 0 ==> r
                == Err::<(), VaultError>(VaultError::InvalidIdentifier),
            (old(self).spec_is_factory(caller) || caller == old(self).owner) && circle != 0 ==> {
                &&& r is Ok
                &&& forall|x: u64|
                    final(self).spec_is_circle(x) <==> (old(self).spec_is_circle(x) || x
                        == circle)
                &&& final(self).authorized_factories@ == old(self).authorized_factories@
                &&& Self::config_unchanged(old(self), final(self))
                &&& Self::holdings_unchanged(old(self), final(self))
            },
    {
        if !ids_contain(&self.authorized_factories, caller) && caller != self.owner {
            return Err(VaultError::NotAuthorizedIssuer);
        }
        if circle == 0 {
            return Err(VaultError::InvalidIdentifier);
        }
        ids_insert(&mut self.authorized_circles, circle);
        Ok(())
    }

    /// Withdraw `circle`'s permission to draw loans.  Owner-only.
    pub fn revoke_circle(&mut self, caller: u64, circle: u64) -> (r: Result<(), VaultError>)
        requires
            old(self).wf(),
        ensures
            final(self).wf(),
            r is Err ==> *final(self) == *old(self),
            caller != old(self).owner ==> r == Err::<(), VaultError>(VaultError::Unauthorized),
            caller == old(self).owner ==> {
                &&& r is Ok
                &&& forall|x: u64|
                    final(self).spec_is_circle(x) <==> (old(self).spec_is_circle(x) && x
                        != circle)
                &&& final(self).authorized_factories@ == old(self).authorized_factories@
                &&& Self::config_unchanged(old(self), final(self))
                &&& Self::holdings_unchanged(old(self), final(self))
            },
    {
        if caller != self.owner {
            return Err(VaultError::Unauthorized);
        }
        ids_remove(&mut self.authorized_circles, circle);
        Ok(())
    }

    /// Allow `factory` to authorize borrowers.  Owner-only; the
    /// identifier must not be null.
    pub fn authorize_factory(&mut self, caller: u64, factory: u64) -> (r: Result<(), VaultError>)
        requires
            old(self).wf(),
        ensures
            final(self).wf(),
            r is Err ==> *final(self) == *old(self),
            caller != old(self).owner ==> r == Err::<(), VaultError>(VaultError::Unauthorized),
            caller == old(self).owner && factory == 0 ==> r == Err::<(), VaultError>(
                VaultError::InvalidIdentifier,
            ),
            caller == old(self).owner && factory != 0 ==> {
                &&& r is Ok
                &&& forall|x: u64|
                    final(self).spec_is_factory(x) <==> (old(self).spec_is_factory(x) || x
                        == factory)
                &&& final(self).authorized_circles@ == old(self).authorized_circles@
                &&& Self::config_unchanged(old(self), final(self))
                &&& Self::holdings_unchanged(old(self), final(self))
            },
    {
        if caller != self.owner {
            return Err(VaultError::Unauthorized);
        }
        if factory == 0 {
            return Err(VaultError::InvalidIdentifier);
        }
        ids_insert(&mut self.authorized_factories, factory);
        Ok(())
    }

    /// Withdraw `factory`'s permission to authorize borrowers.
    /// Owner-only.
    pub fn revoke_factory(&mut self, caller: u64, factory: u64) -> (r: Result<(), VaultError>)
        requires
            old(self).wf(),
        ensures
            final(self).wf(),
            r is Err ==> *final(self) == *old(self),
            caller != old(self).owner ==> r == Err::<(), VaultError>(VaultError::Unauthorized),
            caller == old(self).owner ==> {
                &&& r is Ok
                &&& forall|x: u64|
                    final(self).spec_is_factory(x) <==> (old(self).spec_is_factory(x) && x
                        != factory)
                &&& final(self).authorized_circles@ == old(self).authorized_circles@
                &&& Self::config_unchanged(old(self), final(self))
                &&& Self::holdings_unchanged(old(self), final(self))
            },
    {
        if caller != self.owner {
            return Err(VaultError::Unauthorized);
        }
        ids_remove(&mut self.authorized_factories, factory);
        Ok(())
    }

    /// Set the origination fee, capped at ten percent.  Owner-only.
    pub fn set_origination_fee(&mut self, caller: u64, new_fee_bps: u64) -> (r: Result<
        (),
        VaultError,
    >)
        requires
            old(self).wf(),
        ensures
            final(self).wf(),
            r is Err ==> *final(self) == *old(self),
            caller != old(self).owner ==> r == Err::<(), VaultError>(VaultError::Unauthorized),
            caller == old(self).owner && new_fee_bps > MAX_ORIGINATION_FEE_BPS ==> r == Err::<
                (),
                VaultError,
            >(VaultError::InvalidParameter),
            caller == old(self).owner && new_fee_bps <= MAX_ORIGINATION_FEE_BPS ==> {
                &&& r is Ok
                &&& final(self).origination_fee_bps == new_fee_bps
                &&& final(self).asset == old(self).asset
                &&& final(self).owner == old(self).owner
                &&& final(self).treasury == old(self).treasury
                &&& final(self).authorized_circles@ == old(self).authorized_circles@
                &&& final(self).authorized_factories@ == old(self).authorized_factories@
                &&& Self::holdings_unchanged(old(self), final(self))
            },
    {
        if caller != self.owner {
            return Err(VaultError::Unauthorized);
        }
        if new_fee_bps > MAX_ORIGINATION_FEE_BPS {
            return Err(VaultError::InvalidParameter);
        }
        self.origination_fee_bps = new_fee_bps;
        Ok(())
    }

    /// Point origination fees at a new treasury.  Owner-only; the
    /// identifier must not be null.
    pub fn set_treasury(&mut self, caller: u64, new_treasury: u64) -> (r: Result<(), VaultError>)
        requires
            old(self).wf(),
        ensures
            final(self).wf(),
            r is Err ==> *final(self) == *old(self),
            caller != old(self).owner ==> r == Err::<(), VaultError>(VaultError::Unauthorized),
            caller == old(self).owner && new_treasury == 0 ==> r == Err::<(), VaultError>(
                VaultError::InvalidIdentifier,
            ),
            caller == old(self).owner && new_treasury != 0 ==> {
                &&& r is Ok
                &&& final(self).treasury == new_treasury
                &&& final(self).asset == old(self).asset
                &&& final(self).owner == old(self).owner
                &&& final(self).origination_fee_bps == old(self).origination_fee_bps
                &&& final(self).authorized_circles@ == old(self).authorized_circles@
                &&& final(self).authorized_factories@ == old(self).authorized_factories@
                &&& Self::holdings_unchanged(old(self), final(self))
            },
    {
        if caller != self.owner {
            return Err(VaultError::Unauthorized);
        }
        if new_treasury == 0 {
            return Err(VaultError::InvalidIdentifier);
        }
        self.treasury = new_treasury;
        Ok(())
    }

    /// Hand control of the vault to `new_owner`.  Owner-only; the
    /// identifier must not be null.
    pub fn transfer_ownership(&mut self, caller: u64, new_owner: u64) -> (r: Result<
        (),
        VaultError,
    >)
        requires
            old(self).wf(),
        ensures
            final(self).wf(),
            r is Err ==> *final(self) == *old(self),
            caller != old(self).owner ==> r == Err::<(), VaultError>(VaultError::Unauthorized),
            caller == old(self).owner && new_owner == 0 ==> r == Err::<(), VaultError>(
                VaultError::InvalidIdentifier,
            ),
            caller == old(self).owner && new_owner != 0 ==> {
                &&& r is Ok
                &&& final(self).owner == new_owner
                &&& final(self).asset == old(self).asset
                &&& final(self).treasury == old(self).treasury
                &&& final(self).origination_fee_bps == old(self).origination_fee_bps
                &&& final(self).authorized_circles@ == old(self).authorized_circles@
                &&& final(self).authorized_factories@ == old(self).authorized_factories@
                &&& Self::holdings_unchanged(old(self), final(self))
            },
    {
        if caller != self.owner {
            return Err(VaultError::Unauthorized);
        }
        if new_owner == 0 {
            return Err(VaultError::InvalidIdentifier);
        }
        self.owner = new_owner;
        Ok(())
    }
}

} // verus!
