use vstd::prelude::*;
use vstd::arithmetic::div_mod::{lemma_div_is_ordered, lemma_div_pos_is_pos};
use vstd::arithmetic::mul::{lemma_mul_inequality, lemma_mul_nonnegative};

verus! {

/// Seconds in a day; loan durations are quoted in whole days.
pub const SECONDS_PER_DAY: u64 = 86_400;

/// Seconds in the 365-day year that annualizes interest rates.
pub const SECONDS_PER_YEAR: u64 = 31_536_000;

/// Basis-point denominator.
pub const BPS_DENOM: u64 = 10_000;

/// One borrower's loan record.  A record is never deleted: full repayment
/// or liquidation clears `is_active` and leaves the terminal values
/// queryable.
#[derive(Clone, Copy, Debug, PartialEq, Eq, Structural)]
pub struct Loan {
    /// Asset units lent out; the origination fee is carved out of the
    /// disbursement, not added on top.
    pub principal: u64,
    /// Simple annual interest rate in basis points.
    pub interest_rate: u64,
    /// Time the loan was opened, in seconds.
    pub start_time: u64,
    /// Accrual window in seconds; no interest accrues past it.
    pub duration: u64,
    /// Asset units repaid so far.
    pub paid: u64,
    /// Whether the loan is still open.
    pub is_active: bool,
}

impl Loan {
    /// Seconds of accrual at time `now`: clamped below by the start time
    /// and above by the duration.
    pub open spec fn spec_elapsed(self, now: u64) -> int {
        let raw = if now > self.start_time {
            now - self.start_time
        } else {
            0
        };
        if raw > self.duration {
            self.duration as int
        } else {
            raw
        }
    }

    /// Simple interest accrued by `now`:
    /// `floor(principal * rate * elapsed / (10000 * seconds_per_year))`.
    pub open spec fn spec_interest(self, now: u64) -> int {
        (self.principal * self.interest_rate * self.spec_elapsed(now)) / (
        BPS_DENOM as int * SECONDS_PER_YEAR as int)
    }

    /// Principal plus interest accrued by `now`.
    pub open spec fn spec_total_debt(self, now: u64) -> int {
        self.principal + self.spec_interest(now)
    }

    /// Debt still owed at `now`: total debt less payments, floored at zero.
    pub open spec fn spec_outstanding(self, now: u64) -> int {
        if self.spec_total_debt(now) > self.paid {
            self.spec_total_debt(now) - self.paid
        } else {
            0
        }
    }

    /// Bounds under which debt arithmetic stays within machine integers,
    /// for every clamped elapsed time.
    pub open spec fn debt_fits(self) -> bool {
        &&& self.principal * self.interest_rate * self.duration <= u128::MAX
        &&& self.principal + (self.principal * self.interest_rate * self.duration) / (
        BPS_DENOM as int * SECONDS_PER_YEAR as int) <= u64::MAX
    }
}

/// Under `debt_fits`, every quantity in the debt formula stays within
/// machine integers at every time.
pub proof fn lemma_debt_in_range(l: Loan, now: u64)
    requires
        l.debt_fits(),
    ensures
        0 <= l.spec_interest(now),
        l.principal * l.interest_rate * l.spec_elapsed(now) <= l.principal * l.interest_rate
            * l.duration,
        0 <= l.spec_total_debt(now) <= u64::MAX,
        0 <= l.spec_outstanding(now) <= u64::MAX,
{
    let p = l.principal as int;
    let r = l.interest_rate as int;
    let e = l.spec_elapsed(now);
    let d = l.duration as int;
    let denom = BPS_DENOM as int * SECONDS_PER_YEAR as int;
    lemma_mul_nonnegative(p, r);
    lemma_mul_inequality(e, d, p * r);
    lemma_mul_nonnegative(p * r, e);
    lemma_div_pos_is_pos(p * r * e, denom);
    lemma_div_is_ordered(p * r * e, p * r * d, denom);
}

/// Accrued debt is monotone non-decreasing in elapsed time: waiting never
/// lowers what is owed.
pub proof fn lemma_debt_monotone(l: Loan, t1: u64, t2: u64)
    requires
        t1 <= t2,
    ensures
        l.spec_elapsed(t1) <= l.spec_elapsed(t2),
        l.spec_total_debt(t1) <= l.spec_total_debt(t2),
        l.spec_outstanding(t1) <= l.spec_outstanding(t2),
{
    let p = l.principal as int;
    let r = l.interest_rate as int;
    let denom = BPS_DENOM as int * SECONDS_PER_YEAR as int;
    lemma_mul_nonnegative(p, r);
    lemma_mul_inequality(l.spec_elapsed(t1), l.spec_elapsed(t2), p * r);
    lemma_div_is_ordered(p * r * l.spec_elapsed(t1), p * r * l.spec_elapsed(t2), denom);
}

/// Interest accrual is capped at maturity: past the loan's duration the
/// debt no longer grows.
pub proof fn lemma_debt_capped(l: Loan, t: u64)
    requires
        t >= l.start_time + l.duration,
    ensures
        l.spec_elapsed(t) == l.duration,
        l.spec_total_debt(t) == l.principal + (l.principal * l.interest_rate * l.duration) / (
        BPS_DENOM as int * SECONDS_PER_YEAR as int),
{
}

/// Principal out on active loans, summed across a sequence of
/// `(borrower, loan)` entries.
pub open spec fn sum_active_principal(s: Seq<(u64, Loan)>) -> int
    decreases s.len(),
{
    if s.len() == 0 {
        0
    } else {
        (if s[0].1.is_active {
            s[0].1.principal as int
        } else {
            0
        }) + sum_active_principal(s.drop_first())
    }
}

/// The loan of `borrower`, if any entry is keyed by it.
pub open spec fn loan_in(s: Seq<(u64, Loan)>, borrower: u64) -> Option<Loan>
    decreases s.len(),
{
    if s.len() == 0 {
        Option::None
    } else if s[0].0 == borrower {
        Option::Some(s[0].1)
    } else {
        loan_in(s.drop_first(), borrower)
    }
}

/// No borrower appears in two entries.
pub open spec fn borrowers_unique(s: Seq<(u64, Loan)>) -> bool {
    forall|i: int, j: int|
        0 <= i < j < s.len() ==> (#[trigger] s[i]).0 != (#[trigger] s[j]).0
}

proof fn lemma_active_nonneg(s: Seq<(u64, Loan)>)
    ensures
        sum_active_principal(s) >= 0,
    decreases s.len(),
{
    if s.len() > 0 {
        lemma_active_nonneg(s.drop_first());
    }
}

proof fn lemma_active_update(s: Seq<(u64, Loan)>, i: int, l: Loan)
    requires
        0 <= i < s.len(),
    ensures
        sum_active_principal(s.update(i, (s[i].0, l))) == sum_active_principal(s) - (
        if s[i].1.is_active {
            s[i].1.principal as int
        } else {
            0
        }) + (if l.is_active {
            l.principal as int
        } else {
            0
        }),
    decreases s.len(),
{
    if i == 0 {
        assert(s.update(0, (s[0].0, l)).drop_first() =~= s.drop_first());
    } else {
        lemma_active_update(s.drop_first(), i - 1, l);
        assert(s.update(i, (s[i].0, l)).drop_first() =~= s.drop_first().update(
            i - 1,
            (s[i].0, l),
        ));
    }
}

proof fn lemma_active_push(s: Seq<(u64, Loan)>, e: (u64, Loan))
    ensures
        sum_active_principal(s.push(e)) == sum_active_principal(s) + (if e.1.is_active {
            e.1.principal as int
        } else {
            0
        }),
    decreases s.len(),
{
    if s.len() == 0 {
        assert(s.push(e).drop_first() =~= s);
    } else {
        lemma_active_push(s.drop_first(), e);
        assert(s.push(e).drop_first() =~= s.drop_first().push(e));
    }
}

proof fn lemma_loan_at_index(s: Seq<(u64, Loan)>, i: int)
    requires
        borrowers_unique(s),
        0 <= i < s.len(),
    ensures
        loan_in(s, s[i].0) == Option::Some(s[i].1),
    decreases s.len(),
{
    if i > 0 {
        lemma_loan_at_index(s.drop_first(), i - 1);
    }
}

proof fn lemma_loan_absent(s: Seq<(u64, Loan)>, borrower: u64)
    requires
        forall|i: int| 0 <= i < s.len() ==> (#[trigger] s[i]).0 != borrower,
    ensures
        loan_in(s, borrower) is None,
    decreases s.len(),
{
    if s.len() > 0 {
        lemma_loan_absent(s.drop_first(), borrower);
    }
}

proof fn lemma_loan_other(s: Seq<(u64, Loan)>, i: int, l: Loan, b: u64)
    requires
        0 <= i < s.len(),
        b != s[i].0,
    ensures
        loan_in(s.update(i, (s[i].0, l)), b) == loan_in(s, b),
    decreases s.len(),
{
    if i == 0 {
        assert(s.update(0, (s[0].0, l)).drop_first() =~= s.drop_first());
    } else {
        lemma_loan_other(s.drop_first(), i - 1, l, b);
        assert(s.update(i, (s[i].0, l)).drop_first() =~= s.drop_first().update(
            i - 1,
            (s[i].0, l),
        ));
    }
}

proof fn lemma_loan_push(s: Seq<(u64, Loan)>, borrower: u64, l: Loan)
    requires
        forall|i: int| 0 <= i < s.len() ==> (#[trigger] s[i]).0 != borrower,
    ensures
        loan_in(s.push((borrower, l)), borrower) == Option::Some(l),
        forall|b: u64| b != borrower ==> loan_in(s.push((borrower, l)), b) == loan_in(s, b),
    decreases s.len(),
{
    if s.len() == 0 {
        assert(s.push((borrower, l)).drop_first() =~= s);
    } else {
        lemma_loan_push(s.drop_first(), borrower, l);
        assert(s.push((borrower, l)).drop_first() =~= s.drop_first().push((borrower, l)));
        assert forall|b: u64| b != borrower implies loan_in(s.push((borrower, l)), b)
            == loan_in(s, b) by {
            if s[0].0 != b {
                assert(loan_in(s.push((borrower, l)).drop_first(), b) == loan_in(
                    s.drop_first(),
                    b,
                ));
            }
        }
    }
}

/// An active loan's principal never exceeds the active-principal total.
pub proof fn lemma_principal_le_sum(s: Seq<(u64, Loan)>, borrower: u64)
    requires
        loan_in(s, borrower) is Some,
        loan_in(s, borrower)->Some_0.is_active,
    ensures
        loan_in(s, borrower)->Some_0.principal <= sum_active_principal(s),
    decreases s.len(),
{
    if s.len() > 0 {
        if s[0].0 == borrower {
            lemma_active_nonneg(s.drop_first());
        } else {
            lemma_principal_le_sum(s.drop_first(), borrower);
        }
    }
}

/// One loan record per borrower, never deleted once created.
#[derive(Clone)]
pub struct LoanBook {
    entries: Vec<(u64, Loan)>,
}

impl LoanBook {
    pub closed spec fn view(&self) -> Seq<(u64, Loan)> {
        self.entries@
    }

    pub open spec fn wf(&self) -> bool {
        borrowers_unique(self@)
    }

    /// The loan record held for `borrower`, if any.
    pub open spec fn spec_loan(&self, borrower: u64) -> Option<Loan> {
        loan_in(self@, borrower)
    }

    /// Whether `borrower` has an active loan.
    pub open spec fn spec_active(&self, borrower: u64) -> bool {
        match self.spec_loan(borrower) {
            Option::Some(l) => l.is_active,
            Option::None => false,
        }
    }

    /// Principal currently out on active loans.
    pub open spec fn active_principal(&self) -> int {
        sum_active_principal(self@)
    }

    pub fn new() -> (r: LoanBook)
        ensures
            r.wf(),
            r.active_principal() == 0,
            forall|b: u64| r.spec_loan(b) is None,
    {
        let r = LoanBook { entries: Vec::new() };
        proof {
            assert forall|b: u64| r.spec_loan(b) is None by {
                lemma_loan_absent(r@, b);
            }
        }
        r
    }

    fn find(&self, borrower: u64) -> (r: Option<usize>)
        ensures
            match r {
                Some(i) => i < self@.len() && self@[i as int].0 == borrower,
                None => forall|i: int|
                    0 <= i < self@.len() ==> (#[trigger] self@[i]).0 != borrower,
            },
    {
        let n = self.entries.len();
        let mut k: usize = 0;
        while k < n
            invariant
                n == self@.len(),
                k <= n,
                forall|i: int| 0 <= i < k ==> (#[trigger] self@[i]).0 != borrower,
            decreases n - k,
        {
            if self.entries[k].0 == borrower {
                return Some(k);
            }
            k += 1;
        }
        None
    }

    /// Copy of the loan record for `borrower`, if it holds one.
    pub fn get(&self, borrower: u64) -> (r: Option<Loan>)
        requires
            self.wf(),
        ensures
            r == self.spec_loan(borrower),
    {
        match self.find(borrower) {
            Some(i) => {
                proof {
                    lemma_loan_at_index(self@, i as int);
                }
                Some(self.entries[i].1)
            },
            None => {
                proof {
                    lemma_loan_absent(self@, borrower);
                }
                None
            },
        }
    }

    /// Write the record of `borrower`, creating or replacing its entry.
    pub fn set(&mut self, borrower: u64, loan: Loan)
        requires
            old(self).wf(),
        ensures
            final(self).wf(),
            final(self).spec_loan(borrower) == Option::Some(loan),
            forall|b: u64|
                b != borrower ==> final(self).spec_loan(b) == old(self).spec_loan(b),
            final(self).active_principal() == old(self).active_principal() - (
            match old(self).spec_loan(borrower) {
                Option::Some(l) => if l.is_active {
                    l.principal as int
                } else {
                    0
                },
                Option::None => 0,
            }) + (if loan.is_active {
                loan.principal as int
            } else {
                0
            }),
    {
        match self.find(borrower) {
            Some(i) => {
                let ghost s = self@;
                proof {
                    lemma_loan_at_index(s, i as int);
                }
                self.entries[i] = (borrower, loan);
                proof {
                    assert(self@ =~= s.update(i as int, (s[i as int].0, loan)));
                    lemma_active_update(s, i as int, loan);
                    let t = s.update(i as int, (s[i as int].0, loan));
                    assert forall|p: int, q: int| 0 <= p < q < t.len() implies (
                    #[trigger] t[p]).0 != (#[trigger] t[q]).0 by {
                        assert(s[p].0 != s[q].0);
                    }
                    lemma_loan_at_index(t, i as int);
                    assert forall|b: u64| b != borrower implies loan_in(t, b) == loan_in(
                        s,
                        b,
                    ) by {
                        lemma_loan_other(s, i as int, loan, b);
                    }
                }
            },
            None => {
                proof {
                    lemma_loan_absent(self@, borrower);
                    lemma_active_push(self@, (borrower, loan));
                    lemma_loan_push(self@, borrower, loan);
                    let s = self@.push((borrower, loan));
                    assert forall|p: int, q: int| 0 <= p < q < s.len() implies (
                    #[trigger] s[p]).0 != (#[trigger] s[q]).0 by {}
                }
                self.entries.push((borrower, loan));
            },
        }
    }
}

} // verus!
