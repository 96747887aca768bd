use vstd::prelude::*;

verus! {

/// Total claim units held across a sequence of `(account, units)` entries.
pub open spec fn sum_units(s: Seq<(u64, u64)>) -> int
    decreases s.len(),
{
    if s.len() == 0 {
        0
    } else {
        s[0].1 + sum_units(s.drop_first())
    }
}

/// Claim units of `account`: the value of the first entry keyed by it, or
/// zero when it holds none.
pub open spec fn units_in(s: Seq<(u64, u64)>, account: u64) -> u64
    decreases s.len(),
{
    if s.len() == 0 {
        0
    } else if s[0].0 == account {
        s[0].1
    } else {
        units_in(s.drop_first(), account)
    }
}

/// No account appears in two entries.
pub open spec fn keys_unique(s: Seq<(u64, u64)>) -> bool {
    forall|i: int, j: int|
        0 <= i < j < s.len() ==> (#[trigger] s[i]).0 != (#[trigger] s[j]).0
}

proof fn lemma_sum_nonneg(s: Seq<(u64, u64)>)
    ensures
        sum_units(s) >= 0,
    decreases s.len(),
{
    if s.len() > 0 {
        lemma_sum_nonneg(s.drop_first());
    }
}

/// Summing after replacing entry `i` shifts the total by the change in
/// that entry alone.
proof fn lemma_sum_update(s: Seq<(u64, u64)>, i: int, e: (u64, u64))
    requires
        0 <= i < s.len(),
    ensures
        sum_units(s.update(i, e)) == sum_units(s) - s[i].1 + e.1,
    decreases s.len(),
{
    if i == 0 {
        assert(s.update(0, e).drop_first() =~= s.drop_first());
    } else {
        lemma_sum_update(s.drop_first(), i - 1, e);
        assert(s.update(i, e).drop_first() =~= s.drop_first().update(i - 1, e));
    }
}

proof fn lemma_sum_push(s: Seq<(u64, u64)>, e: (u64, u64))
    ensures
        sum_units(s.push(e)) == sum_units(s) + e.1,
    decreases s.len(),
{
    if s.len() == 0 {
        assert(s.push(e).drop_first() =~= s);
    } else {
        lemma_sum_push(s.drop_first(), e);
        assert(s.push(e).drop_first() =~= s.drop_first().push(e));
    }
}

/// With unique keys, an entry holding `account` fixes `units_in`.
proof fn lemma_units_at_index(s: Seq<(u64, u64)>, i: int)
    requires
        keys_unique(s),
        0 <= i < s.len(),
    ensures
        units_in(s, s[i].0) == s[i].1,
    decreases s.len(),
{
    if i > 0 {
        lemma_units_at_index(s.drop_first(), i - 1);
    }
}

/// An account absent from every entry holds no units.
proof fn lemma_units_absent(s: Seq<(u64, u64)>, account: u64)
    requires
        forall|i: int| 0 <= i < s.len() ==> (#[trigger] s[i]).0 != account,
    ensures
        units_in(s, account) == 0,
    decreases s.len(),
{
    if s.len() > 0 {
        lemma_units_absent(s.drop_first(), account);
    }
}

/// Replacing entry `i` leaves every other account's units unchanged, and
/// sets the entry's own account to the new value.
proof fn lemma_units_update(s: Seq<(u64, u64)>, i: int, v: u64)
    requires
        keys_unique(s),
        0 <= i < s.len(),
    ensures
        units_in(s.update(i, (s[i].0, v)), s[i].0) == v,
        forall|a: u64|
            a != s[i].0 ==> units_in(s.update(i, (s[i].0, v)), a) == units_in(s, a),
        keys_unique(s.update(i, (s[i].0, v))),
    decreases s.len(),
{
    let t = s.update(i, (s[i].0, v));
    assert forall|p: int, q: int| 0 <= p < q < t.len() implies (#[trigger] t[p]).0
        != (#[trigger] t[q]).0 by {
        assert(s[p].0 != s[q].0);
    }
    lemma_units_at_index(t, i);
    assert forall|a: u64| a != s[i].0 implies units_in(t, a) == units_in(s, a) by {
        lemma_units_other(s, i, v, a);
    }
}

proof fn lemma_units_other(s: Seq<(u64, u64)>, i: int, v: u64, a: u64)
    requires
        0 <= i < s.len(),
        a != s[i].0,
    ensures
        units_in(s.update(i, (s[i].0, v)), a) == units_in(s, a),
    decreases s.len(),
{
    if i == 0 {
        assert(s.update(0, (s[0].0, v)).drop_first() =~= s.drop_first());
    } else {
        lemma_units_other(s.drop_first(), i - 1, v, a);
        assert(s.update(i, (s[i].0, v)).drop_first() =~= s.drop_first().update(
            i - 1,
            (s[i].0, v),
        ));
    }
}

/// Appending an entry for a fresh account sets that account's units and
/// leaves all others unchanged.
proof fn lemma_units_push(s: Seq<(u64, u64)>, account: u64, v: u64)
    requires
        forall|i: int| 0 <= i < s.len() ==> (#[trigger] s[i]).0 != account,
    ensures
        units_in(s.push((account, v)), account) == v,
        forall|a: u64| a != account ==> units_in(s.push((account, v)), a) == units_in(s, a),
    decreases s.len(),
{
    if s.len() == 0 {
        assert(s.push((account, v)).drop_first() =~= s);
    } else {
        lemma_units_push(s.drop_first(), account, v);
        assert(s.push((account, v)).drop_first() =~= s.drop_first().push((account, v)));
        assert(units_in(s.push((account, v)), account) == v);
        assert forall|a: u64| a != account implies units_in(s.push((account, v)), a)
            == units_in(s, a) by {
            if s[0].0 != a {
                assert(units_in(s.push((account, v)).drop_first(), a) == units_in(
                    s.drop_first(),
                    a,
                ));
            }
        }
    }
}

/// No single account ever holds more units than the ledger total.
pub proof fn lemma_units_le_sum(s: Seq<(u64, u64)>, account: u64)
    ensures
        units_in(s, account) <= sum_units(s),
    decreases s.len(),
{
    if s.len() > 0 {
        lemma_units_le_sum(s.drop_first(), account);
        lemma_sum_nonneg(s.drop_first());
    }
}

/// Per-account claim units.  Each account appears at most once; the entry
/// order carries no meaning.  The total across all accounts is exactly the
/// vault's outstanding claim-unit supply.
#[derive(Clone)]
pub struct ShareLedger {
    entries: Vec<(u64, u64)>,
}

impl ShareLedger {
    pub closed spec fn view(&self) -> Seq<(u64, u64)> {
        self.entries@
    }

    pub open spec fn wf(&self) -> bool {
        keys_unique(self@)
    }

    /// Claim units currently credited to `account`.
    pub open spec fn spec_units(&self, account: u64) -> u64 {
        units_in(self@, account)
    }

    /// Total claim units across every account.
    pub open spec fn total(&self) -> int {
        sum_units(self@)
    }

    pub fn new() -> (r: ShareLedger)
        ensures
            r.wf(),
            r.total() == 0,
            forall|a: u64| r.spec_units(a) == 0,
    {
        let r = ShareLedger { entries: Vec::new() };
        proof {
            assert forall|a: u64| r.spec_units(a) == 0 by {
                lemma_units_absent(r@, a);
            }
        }
        r
    }

    fn find(&self, account: u64) -> (r: Option<usize>)
        ensures
            match r {
                Some(i) => i < self@.len() && self@[i as int].0 == account,
                None => forall|i: int|
                    0 <= i < self@.len() ==> (#[trigger] self@[i]).0 != account,
            },
    {
        let n = self.entries.len();
        let mut k: usize = 0;
        while k < n
            invariant
                n == self@.len(),
                k <= n,
                forall|i: int| 0 <= i < k ==> (#[trigger] self@[i]).0 != account,
            decreases n - k,
        {
            if self.entries[k].0 == account {
                return Some(k);
            }
            k += 1;
        }
        None
    }

    /// Units of `account`, read without touching any other state.
    pub fn units(&self, account: u64) -> (r: u64)
        requires
            self.wf(),
        ensures
            r == self.spec_units(account),
    {
        match self.find(account) {
            Some(i) => {
                proof {
                    lemma_units_at_index(self@, i as int);
                }
                self.entries[i].1
            },
            None => {
                proof {
                    lemma_units_absent(self@, account);
                }
                0
            },
        }
    }

    /// Add `amount` units to `account`, creating its entry if needed.
    pub fn credit(&mut self, account: u64, amount: u64)
        requires
            old(self).wf(),
            old(self).spec_units(account) + amount <= u64::MAX,
        ensures
            final(self).wf(),
            final(self).spec_units(account) == old(self).spec_units(account) + amount,
            forall|a: u64|
                a != account ==> final(self).spec_units(a) == old(self).spec_units(a),
            final(self).total() == old(self).total() + amount,
    {
        match self.find(account) {
            Some(i) => {
                proof {
                    lemma_units_at_index(self@, i as int);
                }
                let cur = self.entries[i].1;
                let ghost s = self@;
                self.entries[i] = (account, cur + amount);
                proof {
                    assert(self@ =~= s.update(i as int, (s[i as int].0, (cur + amount) as u64)));
                    lemma_sum_update(s, i as int, (account, (cur + amount) as u64));
                    lemma_units_update(s, i as int, (cur + amount) as u64);
                }
            },
            None => {
                proof {
                    lemma_units_absent(self@, account);
                    lemma_sum_push(self@, (account, amount));
                    lemma_units_push(self@, account, amount);
                    let s = self@.push((account, amount));
                    assert forall|p: int, q: int| 0 <= p < q < s.len() implies (
                    #[trigger] s[p]).0 != (#[trigger] s[q]).0 by {}
                }
                self.entries.push((account, amount));
            },
        }
    }

    /// Remove `amount` units from `account`.  The entry stays, possibly at
    /// zero, matching the lifecycle of a claim balance that is zeroed on
    /// full withdrawal rather than deleted.
    pub fn debit(&mut self, account: u64, amount: u64)
        requires
            old(self).wf(),
            amount <= old(self).spec_units(account),
        ensures
            final(self).wf(),
            final(self).spec_units(account) == old(self).spec_units(account) - amount,
            forall|a: u64|
                a != account ==> final(self).spec_units(a) == old(self).spec_units(a),
            final(self).total() == old(self).total() - amount,
    {
        match self.find(account) {
            Some(i) => {
                proof {
                    lemma_units_at_index(self@, i as int);
                }
                let cur = self.entries[i].1;
                let ghost s = self@;
                self.entries[i] = (account, cur - amount);
                proof {
                    assert(self@ =~= s.update(i as int, (s[i as int].0, (cur - amount) as u64)));
                    lemma_sum_update(s, i as int, (account, (cur - amount) as u64));
                    lemma_units_update(s, i as int, (cur - amount) as u64);
                }
            },
            None => {
                proof {
                    lemma_units_absent(self@, account);
                }
            },
        }
    }
}

} // verus!
