use vstd::prelude::*;
use vstd::arithmetic::div_mod::{lemma_div_is_ordered, lemma_div_multiples_vanish};
use vstd::arithmetic::mul::lemma_mul_inequality;
use crate::errors::OracleError;

verus! {

/// A leverage tier: groups whose average standing level reaches
/// `min_average_level` may borrow at `multiplier` (in hundredths) and
/// `interest_rate_bps`.
#[derive(Clone, Copy, Debug, PartialEq, Eq, Structural)]
pub struct LeverageTier {
    /// Least average level that qualifies for this tier.
    pub min_average_level: u8,
    /// Leverage granted, in hundredths of the group's own stake.
    pub multiplier: u64,
    /// Annual interest rate priced for this tier, in basis points.
    pub interest_rate_bps: u64,
}

/// What the external standing registry reports about one member: whether
/// a standing token exists, its level, and whether it is stained.  The
/// embedding host queries the registry and hands these in as plain
/// values; a failed query counts as having no token.
#[derive(Clone, Copy, Debug, PartialEq, Eq, Structural)]
pub struct MemberRecord {
    /// Whether the member holds a standing token at all.
    pub has_token: bool,
    /// The token's level; meaningful only when a token exists.
    pub level: u8,
    /// Whether the token is stained by past defaults.
    pub is_stained: bool,
}

/// A member in good standing: holds a token of level at least one,
/// without stains.
pub open spec fn spec_eligible(m: MemberRecord) -> bool {
    m.has_token && m.level >= 1 && !m.is_stained
}

/// Lottery weight of one member: a base of 100, plus 10 per level for
/// token holders.
pub open spec fn spec_weight(m: MemberRecord) -> int {
    if m.has_token {
        100 + m.level * 10
    } else {
        100
    }
}

/// Sum of levels across a group; members without a token count zero.
pub open spec fn spec_level_sum(s: Seq<MemberRecord>) -> int
    decreases s.len(),
{
    if s.len() == 0 {
        0
    } else {
        (if s[0].has_token {
            s[0].level as int
        } else {
            0
        }) + spec_level_sum(s.drop_first())
    }
}

/// Average level of a group: the level sum over the full member count,
/// floored.
pub open spec fn spec_average_level(s: Seq<MemberRecord>) -> int {
    spec_level_sum(s) / (s.len() as int)
}

proof fn lemma_level_sum_bound(s: Seq<MemberRecord>)
    ensures
        0 <= spec_level_sum(s) <= 255 * s.len(),
    decreases s.len(),
{
    if s.len() > 0 {
        lemma_level_sum_bound(s.drop_first());
    }
}

/// Risk oracle: prices group loans from the standing of the group's
/// members, against an ordered list of leverage tiers.
pub struct RiskOracle {
    /// Identifier allowed to manage tiers; zero until `init`.
    pub owner: u64,
    /// Identifier of the external standing registry the host queries.
    pub aguayo_sbt: u64,
    /// Cap on the leverage multiplier, in whole multiples.
    pub max_leverage_multiplier: u64,
    /// The tier table, scanned in insertion order.
    pub tiers: Vec<LeverageTier>,
}

impl RiskOracle {
    /// The qualifying tier for `level` among the first `n` tiers, as
    /// `(index, min_average_level)`: the greatest qualifying
    /// `min_average_level` wins, the last inserted on a tie, and index
    /// zero stands when nothing qualifies.
    pub open spec fn spec_best_tier(tiers: Seq<LeverageTier>, level: u8, n: int) -> (int, u8)
        decreases n,
    {
        if n <= 0 {
            (0, 0u8)
        } else {
            let prev = Self::spec_best_tier(tiers, level, n - 1);
            let t = tiers[n - 1];
            if level >= t.min_average_level && t.min_average_level >= prev.1 {
                (n - 1, t.min_average_level)
            } else {
                prev
            }
        }
    }

    proof fn lemma_best_tier_in_range(tiers: Seq<LeverageTier>, level: u8, n: int)
        requires
            0 <= n <= tiers.len(),
        ensures
            0 <= Self::spec_best_tier(tiers, level, n).0,
            n > 0 ==> Self::spec_best_tier(tiers, level, n).0 < n,
            n == 0 ==> Self::spec_best_tier(tiers, level, n).0 == 0,
        decreases n,
    {
        if n > 0 {
            Self::lemma_best_tier_in_range(tiers, level, n - 1);
        }
    }

    /// An oracle with no owner and no tiers; unusable until `init`.
    pub fn new() -> (r: RiskOracle)
        ensures
            r.owner == 0,
            r.aguayo_sbt == 0,
            r.max_leverage_multiplier == 0,
            r.tiers@ == Seq::<LeverageTier>::empty(),
    {
        RiskOracle { owner: 0, aguayo_sbt: 0, max_leverage_multiplier: 0, tiers: Vec::new() }
    }

    /// Take ownership for `caller`, bind the oracle to a standing
    /// registry, cap leverage at five times, and append the three
    /// default tiers.
    pub fn init(&mut self, caller: u64, aguayo_sbt_address: u64) -> (r: Result<(), OracleError>)
        ensures
            r is Ok,
            final(self).owner == caller,
            final(self).aguayo_sbt == aguayo_sbt_address,
            final(self).max_leverage_multiplier == 5,
            final(self).tiers@ == old(self).tiers@ + seq![
                LeverageTier { min_average_level: 1, multiplier: 150, interest_rate_bps: 1200 },
                LeverageTier { min_average_level: 3, multiplier: 300, interest_rate_bps: 1000 },
                LeverageTier { min_average_level: 5, multiplier: 500, interest_rate_bps: 800 },
            ],
    {
        self.owner = caller;
        self.aguayo_sbt = aguayo_sbt_address;
        self.max_leverage_multiplier = 5;
        let _ = self.add_tier(caller, 1, 150, 1200);
        let _ = self.add_tier(caller, 3, 300, 1000);
        let _ = self.add_tier(caller, 5, 500, 800);
        proof {
            assert(self.tiers@ =~= old(self).tiers@ + seq![
                LeverageTier { min_average_level: 1, multiplier: 150, interest_rate_bps: 1200 },
                LeverageTier { min_average_level: 3, multiplier: 300, interest_rate_bps: 1000 },
                LeverageTier { min_average_level: 5, multiplier: 500, interest_rate_bps: 800 },
            ]);
        }
        Ok(())
    }

    /// Whether every listed member is in good standing: holds a token,
    /// level at least one, no stains.
    pub fn are_all_members_eligible(&self, members: Vec<MemberRecord>) -> (r: Result<
        bool,
        OracleError,
    >)
        ensures
            r == Ok::<bool, OracleError>(
                forall|i: int| 0 <= i < members@.len() ==> spec_eligible(#[trigger] members@[i]),
            ),
    {
        let n = members.len();
        let mut k: usize = 0;
        while k < n
            invariant
                n == members@.len(),
                k <= n,
                forall|i: int| 0 <= i < k ==> spec_eligible(#[trigger] members@[i]),
            decreases n - k,
        {
            let m = members[k];
            if !m.has_token {
                return Ok(false);
            }
            if m.level == 0 || m.is_stained {
                return Ok(false);
            }
            k += 1;
        }
        Ok(true)
    }

    /// The leverage multiplier and interest rate for a group: its
    /// average standing level, looked up in the tier table.  An empty
    /// group is rejected.
    pub fn get_leverage_level(&self, members: Vec<MemberRecord>) -> (r: Result<
        (u64, u64),
        OracleError,
    >)
        requires
            self.tiers@.len() > 0,
            members@.len() * 255 <= u64::MAX,
        ensures
            members@.len() == 0 ==> r == Err::<(u64, u64), OracleError>(
                OracleError::EmptyMemberList,
            ),
            members@.len() > 0 ==> {
                let level = spec_average_level(members@) as u8;
                let best = Self::spec_best_tier(self.tiers@, level, self.tiers@.len() as int);
                r == Ok::<(u64, u64), OracleError>(
                    (self.tiers@[best.0].multiplier, self.tiers@[best.0].interest_rate_bps),
                )
            },
    {
        if members.len() == 0 {
            return Err(OracleError::EmptyMemberList);
        }
        let avg_level = self.calculate_average_level(&members);
        let (multiplier, interest_rate) = self.find_tier_for_level(avg_level);
        Ok((multiplier, interest_rate))
    }

    /// Lottery weights for a draw among `members`: a base of 100, plus
    /// 10 per standing level for token holders.
    pub fn get_weighted_probabilities(&self, members: Vec<MemberRecord>) -> (r: Result<
        Vec<u64>,
        OracleError,
    >)
        ensures
            r matches Ok(v) && v@.len() == members@.len() && forall|i: int|
                0 <= i < members@.len() ==> v@[i] == spec_weight(#[trigger] members@[i]),
    {
        let n = members.len();
        let mut weights: Vec<u64> = Vec::new();
        let mut k: usize = 0;
        while k < n
            invariant
                n == members@.len(),
                k <= n,
                weights@.len() == k,
                forall|i: int| 0 <= i < k ==> weights@[i] == spec_weight(#[trigger] members@[i]),
            decreases n - k,
        {
            let m = members[k];
            if m.has_token {
                weights.push(100 + (m.level as u64) * 10);
            } else {
                weights.push(100);
            }
            k += 1;
        }
        Ok(weights)
    }

    /// Whether one member may join: credit mode asks for good standing,
    /// savings mode only for a token.
    pub fn is_member_eligible(&self, member: MemberRecord, is_credit_mode: bool) -> (r: Result<
        bool,
        OracleError,
    >)
        ensures
            r == Ok::<bool, OracleError>(
                member.has_token && (!is_credit_mode || (member.level >= 1 && !member.is_stained)),
            ),
    {
        if !member.has_token {
            return Ok(false);
        }
        if is_credit_mode {
            Ok(member.level >= 1 && !member.is_stained)
        } else {
            Ok(true)
        }
    }

    /// Append a tier.  Owner-only.
    pub fn add_tier(
        &mut self,
        caller: u64,
        min_level: u8,
        multiplier: u64,
        interest_rate_bps: u64,
    ) -> (r: Result<(), OracleError>)
        ensures
            caller != old(self).owner ==> r == Err::<(), OracleError>(OracleError::NotOwner)
                && *final(self) == *old(self),
            caller == old(self).owner ==> {
                &&& r is Ok
                &&& final(self).tiers@ == old(self).tiers@.push(
                    LeverageTier {
                        min_average_level: min_level,
                        multiplier: multiplier,
                        interest_rate_bps: interest_rate_bps,
                    },
                )
                &&& final(self).owner == old(self).owner
                &&& final(self).aguayo_sbt == old(self).aguayo_sbt
                &&& final(self).max_leverage_multiplier == old(self).max_leverage_multiplier
            },
    {
        if caller != self.owner {
            return Err(OracleError::NotOwner);
        }
        self.tiers.push(
            LeverageTier {
                min_average_level: min_level,
                multiplier: multiplier,
                interest_rate_bps: interest_rate_bps,
            },
        );
        Ok(())
    }

    /// Set the leverage cap.  Owner-only.
    pub fn set_max_leverage_multiplier(&mut self, caller: u64, new_max: u64) -> (r: Result<
        (),
        OracleError,
    >)
        ensures
            caller != old(self).owner ==> r == Err::<(), OracleError>(OracleError::NotOwner)
                && *final(self) == *old(self),
            caller == old(self).owner ==> {
                &&& r is Ok
                &&& final(self).max_leverage_multiplier == new_max
                &&& final(self).owner == old(self).owner
                &&& final(self).aguayo_sbt == old(self).aguayo_sbt
                &&& final(self).tiers@ == old(self).tiers@
            },
    {
        if caller != self.owner {
            return Err(OracleError::NotOwner);
        }
        self.max_leverage_multiplier = new_max;
        Ok(())
    }

    /// Floor of the group's average standing level.
    fn calculate_average_level(&self, members: &Vec<MemberRecord>) -> (r: u8)
        requires
            members@.len() > 0,
            members@.len() * 255 <= u64::MAX,
        ensures
            r == spec_average_level(members@) as u8,
            r == spec_average_level(members@),
    {
        let n = members.len();
        let mut total_level: u64 = 0;
        let mut k: usize = 0;
        while k < n
            invariant
                n == members@.len(),
                n * 255 <= u64::MAX,
                k <= n,
                total_level == spec_level_sum(members@.take(k as int)),
                total_level <= 255 * k,
            decreases n - k,
        {
            let m = members[k];
            proof {
                lemma_level_sum_take_step(members@, k as int);
            }
            if m.has_token {
                total_level = total_level + (m.level as u64);
            }
            k += 1;
        }
        proof {
            assert(members@.take(n as int) =~= members@);
            lemma_level_sum_bound(members@);
            lemma_mul_inequality(spec_level_sum(members@), 255 * n, 1);
            lemma_div_is_ordered(spec_level_sum(members@), 255 * (n as int), n as int);
            lemma_div_multiples_vanish(255, n as int);
        }
        (total_level / (n as u64)) as u8
    }

    /// The qualifying tier's multiplier and rate for `level`.
    fn find_tier_for_level(&self, level: u8) -> (r: (u64, u64))
        requires
            self.tiers@.len() > 0,
        ensures
            ({
                let best = Self::spec_best_tier(self.tiers@, level, self.tiers@.len() as int);
                r == (self.tiers@[best.0].multiplier, self.tiers@[best.0].interest_rate_bps)
            }),
    {
        let tiers_len = self.tiers.len();
        let mut best_tier_index: usize = 0;
        let mut best_min_level: u8 = 0;
        let mut i: usize = 0;
        while i < tiers_len
            invariant
                tiers_len == self.tiers@.len(),
                i <= tiers_len,
                best_tier_index <= i,
                best_tier_index < tiers_len || best_tier_index == 0,
                (best_tier_index as int, best_min_level) == Self::spec_best_tier(
                    self.tiers@,
                    level,
                    i as int,
                ),
            decreases tiers_len - i,
        {
            let tier = self.tiers[i];
            let min_level = tier.min_average_level;
            if level >= min_level && min_level >= best_min_level {
                best_tier_index = i;
                best_min_level = min_level;
            }
            i += 1;
        }
        proof {
            Self::lemma_best_tier_in_range(self.tiers@, level, tiers_len as int);
        }
        let tier = self.tiers[best_tier_index];
        (tier.multiplier, tier.interest_rate_bps)
    }
}

proof fn lemma_level_sum_take_step(s: Seq<MemberRecord>, k: int)
    requires
        0 <= k < s.len(),
    ensures
        spec_level_sum(s.take(k + 1)) == spec_level_sum(s.take(k)) + (if s[k].has_token {
            s[k].level as int
        } else {
            0
        }),
    decreases k,
{
    if k == 0 {
        assert(s.take(1).drop_first() =~= s.take(0));
    } else {
        lemma_level_sum_take_step(s.drop_first(), k - 1);
        assert(s.take(k + 1).drop_first() =~= s.drop_first().take(k));
        assert(s.take(k).drop_first() =~= s.drop_first().take(k - 1));
    }
}

} // verus!
