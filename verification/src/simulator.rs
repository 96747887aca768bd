use vstd::prelude::*;
use vstd::arithmetic::div_mod::{lemma_div_nonincreasing, lemma_div_pos_is_pos};
use vstd::arithmetic::mul::lemma_mul_upper_bound;
use vstd::seq_lib::to_multiset_insert;
use vstd::seq_lib::to_multiset_build;
use crate::errors::SimulatorError;

verus! {

// ---------------------------------------------------------------------
// The deterministic draw.
// ---------------------------------------------------------------------

/// The pseudo-random draw for one member in one round, in `0..10000`:
/// the inputs are folded together with 32-bit wrapping arithmetic and
/// passed through a linear congruential step reduced modulo `2^31`.
/// A pure function of its arguments, so a whole simulation is a pure
/// function of the simulator state and its parameters.
#[verifier::opaque]
pub open spec fn spec_draw(entropy: u32, round: u8, member: u8, seed: u16) -> int {
    let c1 = (entropy + round) % 0x1_0000_0000;
    let c2 = (c1 * member) % 0x1_0000_0000;
    let c3 = (c2 + seed) % 0x1_0000_0000;
    let r1 = (1103515245 * c3 + 12345) % 0x1_0000_0000;
    (r1 % 0x8000_0000) % 10000
}

fn pseudo_random(entropy: u32, round: u8, member: u8, seed: u16) -> (r: u32)
    ensures
        r == spec_draw(entropy, round, member, seed),
        r < 10000,
{
    proof {
        reveal(spec_draw);
    }
    let c1: u64 = ((entropy as u64) + (round as u64)) % 0x1_0000_0000;
    proof {
        lemma_mul_upper_bound(c1 as int, 0xFFFF_FFFF, member as int, 255);
    }
    let c2: u64 = (c1 * (member as u64)) % 0x1_0000_0000;
    let c3: u64 = (c2 + (seed as u64)) % 0x1_0000_0000;
    let r1: u64 = (1103515245u64 * c3 + 12345) % 0x1_0000_0000;
    ((r1 % 0x8000_0000) % 10000) as u32
}

/// Whether the member pays this round: the draw must clear the default
/// probability (also in `0..10000`).
pub open spec fn spec_pays(entropy: u32, round: u8, member: u8, seed: u16, prob: u32) -> bool {
    spec_draw(entropy, round, member, seed) > prob
}

fn member_will_pay(entropy: u32, default_prob: u32, round: u8, member_idx: u8, seed: u16) -> (r:
    bool)
    ensures
        r == spec_pays(entropy, round, member_idx, seed, default_prob),
{
    let random_value = pseudo_random(entropy, round, member_idx, seed);
    random_value > default_prob
}

// ---------------------------------------------------------------------
// One simulated cohort.
// ---------------------------------------------------------------------

/// How many of the first `m` members pay in `round`.
pub open spec fn spec_round_payments(
    entropy: u32,
    round: u8,
    seed: u16,
    prob: u32,
    m: int,
) -> int
    decreases m,
{
    if m <= 0 {
        0
    } else {
        spec_round_payments(entropy, round, seed, prob, m - 1) + (if spec_pays(
            entropy,
            round,
            (m - 1) as u8,
            seed,
            prob,
        ) {
            1int
        } else {
            0
        })
    }
}

/// A round fails the cohort when the members not paying exceed thirty
/// percent, floored.
pub open spec fn spec_threshold(nm: u8) -> int {
    (nm * 30) / 100
}

/// One simulated cohort run over rounds `r .. nr`, as
/// `(survives, collected, defaults)`: the first round whose defaults
/// exceed the threshold stops the run with nothing collected from it,
/// counting its defaults.
pub open spec fn spec_run(
    entropy: u32,
    nm: u8,
    cuota: u64,
    prob: u32,
    seed: u16,
    r: int,
    nr: int,
) -> (bool, int, int)
    decreases nr - r,
{
    if r < 0 || r >= nr {
        (true, 0, 0)
    } else {
        let pays = spec_round_payments(entropy, r as u8, seed, prob, nm as int);
        let defs = nm - pays;
        if defs > spec_threshold(nm) {
            (false, 0, defs)
        } else {
            let rest = spec_run(entropy, nm, cuota, prob, seed, r + 1, nr);
            (rest.0, cuota * pays + rest.1, defs + rest.2)
        }
    }
}

/// Whether the cohort with draw seed `seed` survives every round.
pub open spec fn spec_success(
    entropy: u32,
    nm: u8,
    cuota: u64,
    nr: u8,
    prob: u32,
    seed: u16,
) -> bool {
    spec_run(entropy, nm, cuota, prob, seed, 0, nr as int).0
}

/// Payout per member for the cohort with draw seed `seed`: everything
/// collected split evenly, or nothing after a catastrophic round.
pub open spec fn spec_payout(
    entropy: u32,
    nm: u8,
    cuota: u64,
    nr: u8,
    prob: u32,
    seed: u16,
) -> int {
    let run = spec_run(entropy, nm, cuota, prob, seed, 0, nr as int);
    if run.0 {
        run.1 / (nm as int)
    } else {
        0
    }
}

/// How many of the seeds `0 .. n` survive.
pub open spec fn spec_successes(
    entropy: u32,
    nm: u8,
    cuota: u64,
    nr: u8,
    prob: u32,
    n: int,
) -> int
    decreases n,
{
    if n <= 0 {
        0
    } else {
        spec_successes(entropy, nm, cuota, nr, prob, n - 1) + (if spec_success(
            entropy,
            nm,
            cuota,
            nr,
            prob,
            (n - 1) as u16,
        ) {
            1int
        } else {
            0
        })
    }
}

/// Sum of the payouts over the seeds `0 .. n`.
pub open spec fn spec_return_sum(
    entropy: u32,
    nm: u8,
    cuota: u64,
    nr: u8,
    prob: u32,
    n: int,
) -> int
    decreases n,
{
    if n <= 0 {
        0
    } else {
        spec_return_sum(entropy, nm, cuota, nr, prob, n - 1) + spec_payout(
            entropy,
            nm,
            cuota,
            nr,
            prob,
            (n - 1) as u16,
        )
    }
}

/// The payout of every seed in `0 .. n`, in seed order.
pub open spec fn spec_payouts(
    entropy: u32,
    nm: u8,
    cuota: u64,
    nr: u8,
    prob: u32,
    n: int,
) -> Seq<u128> {
    Seq::new(n as nat, |i: int| spec_payout(entropy, nm, cuota, nr, prob, i as u16) as u128)
}

#[verifier::rlimit(100)]
fn run_single_simulation(
    entropy: u32,
    num_members: u8,
    cuota: u64,
    num_rounds: u8,
    avg_default_prob: u32,
    seed: u16,
) -> (r: (bool, u128, u32))
    requires
        1 <= num_members <= 100,
    ensures
        ({
            let run = spec_run(entropy, num_members, cuota, avg_default_prob, seed, 0,
                num_rounds as int);
            &&& r.0 == run.0
            &&& r.1 == spec_payout(entropy, num_members, cuota, num_rounds, avg_default_prob, seed)
            &&& r.2 == run.2
            &&& r.1 <= 25500 * (cuota as int)
        }),
{
    let ghost whole = spec_run(entropy, num_members, cuota, avg_default_prob, seed, 0,
        num_rounds as int);
    let mut total_collected: u128 = 0;
    let mut defaults_count: u32 = 0;
    let mut had_catastrophic_default = false;
    let mut round: u8 = 0;
    while round < num_rounds && !had_catastrophic_default
        invariant
            1 <= num_members <= 100,
            round <= num_rounds,
            total_collected <= (round as int) * (num_members as int) * (cuota as int),
            defaults_count <= (round as int) * (num_members as int),
            !had_catastrophic_default ==> {
                let rest = spec_run(entropy, num_members, cuota, avg_default_prob, seed,
                    round as int, num_rounds as int);
                &&& whole.0 == rest.0
                &&& whole.1 == total_collected + rest.1
                &&& whole.2 == defaults_count + rest.2
            },
            had_catastrophic_default ==> {
                &&& whole.0 == false
                &&& whole.2 == defaults_count
            },
            whole == spec_run(entropy, num_members, cuota, avg_default_prob, seed, 0,
                num_rounds as int),
        decreases num_rounds - round,
    {
        let ghost pre_defaults = defaults_count;
        proof {
            assert(pre_defaults <= 25500) by (nonlinear_arith)
                requires
                    pre_defaults <= (round as int) * (num_members as int),
                    round <= 255,
                    num_members <= 100,
                    0 <= round,
                    0 <= num_members,
            ;
        }
        let mut round_payments: u8 = 0;
        let mut member_idx: u8 = 0;
        while member_idx < num_members
            invariant
                1 <= num_members <= 100,
                member_idx <= num_members,
                round_payments <= member_idx,
                round_payments == spec_round_payments(entropy, round, seed, avg_default_prob,
                    member_idx as int),
                defaults_count == pre_defaults + member_idx - round_payments,
                pre_defaults <= 25500,
                round < num_rounds,
            decreases num_members - member_idx,
        {
            let will_pay = member_will_pay(entropy, avg_default_prob, round, member_idx, seed);
            if will_pay {
                round_payments += 1;
            } else {
                defaults_count += 1;
            }
            member_idx += 1;
        }
        proof {
            assert(((round as int) + 1) * (num_members as int) == (round as int) * (
            num_members as int) + (num_members as int)) by (nonlinear_arith);
            assert(((round as int) + 1) * (num_members as int) * (cuota as int) >= (
            round as int) * (num_members as int) * (cuota as int)) by (nonlinear_arith)
                requires
                    0 <= round,
                    0 <= num_members,
                    0 <= cuota,
            ;
        }
        let default_threshold = (num_members as u32) * 30 / 100;
        if ((num_members - round_payments) as u32) > default_threshold {
            had_catastrophic_default = true;
        } else {
            let ghost tc = total_collected as int;
            proof {
                assert(tc + (cuota as int) * (round_payments as int) <= ((round as int) + 1) * (
                num_members as int) * (cuota as int)) by (nonlinear_arith)
                    requires
                        tc <= (round as int) * (num_members as int) * (cuota as int),
                        round_payments <= num_members,
                        0 <= round_payments,
                        0 <= cuota,
                        0 <= round,
                        0 <= num_members,
                ;
                assert(((round as int) + 1) * (num_members as int) * (cuota as int) <= 25500 * (
                u64::MAX as int)) by (nonlinear_arith)
                    requires
                        (round as int) + 1 <= 255,
                        num_members <= 100,
                        cuota <= u64::MAX,
                        0 <= round,
                        0 <= num_members,
                        0 <= cuota,
                ;
            }
            total_collected = total_collected + (cuota as u128) * (round_payments as u128);
        }
        round += 1;
    }
    let final_payout: u128 = if had_catastrophic_default {
        0
    } else {
        proof {
            assert(total_collected as int / (num_members as int) <= total_collected as int) by {
                lemma_div_nonincreasing(total_collected as int, num_members as int);
            }
            assert((round as int) * (num_members as int) * (cuota as int) <= 25500 * (
            cuota as int)) by (nonlinear_arith)
                requires
                    round <= 255,
                    num_members <= 100,
                    0 <= cuota,
                    0 <= round,
                    0 <= num_members,
            ;
            lemma_div_pos_is_pos(total_collected as int, num_members as int);
        }
        total_collected / (num_members as u128)
    };
    (!had_catastrophic_default, final_payout, defaults_count)
}

// ---------------------------------------------------------------------
// Sorting the outcomes.
// ---------------------------------------------------------------------

/// Insertion sort.  The result is ordered and holds exactly the input's
/// values.
fn sort_payouts(v: Vec<u128>) -> (r: Vec<u128>)
    ensures
        r@.len() == v@.len(),
        r@.to_multiset() == v@.to_multiset(),
        forall|i: int, j: int| 0 <= i < j < r@.len() ==> r@[i] <= r@[j],
{
    let n = v.len();
    let mut out: Vec<u128> = Vec::new();
    let mut k: usize = 0;
    proof {
        assert(v@.take(0) =~= Seq::<u128>::empty());
        assert(out@.to_multiset() =~= v@.take(0).to_multiset());
    }
    while k < n
        invariant
            n == v@.len(),
            k <= n,
            out@.len() == k,
            out@.to_multiset() == v@.take(k as int).to_multiset(),
            forall|i: int, j: int| 0 <= i < j < out@.len() ==> out@[i] <= out@[j],
        decreases n - k,
    {
        let x = v[k];
        let mut pos: usize = 0;
        while pos < out.len() && out[pos] <= x
            invariant
                pos <= out@.len(),
                forall|i: int| 0 <= i < pos ==> out@[i] <= x,
                out@.len() == k,
                forall|i: int, j: int| 0 <= i < j < out@.len() ==> out@[i] <= out@[j],
            decreases out@.len() - pos,
        {
            pos += 1;
        }
        let ghost prev = out@;
        out.insert(pos, x);
        proof {
            to_multiset_insert(prev, pos as int, x);
            to_multiset_build(v@.take(k as int), v@[k as int]);
            assert(v@.take(k as int + 1) =~= v@.take(k as int).push(v@[k as int]));
            assert(out@.to_multiset() =~= v@.take(k as int + 1).to_multiset());
            assert forall|i: int, j: int| 0 <= i < j < out@.len() implies out@[i] <= out@[j] by {
                if j < pos {
                    assert(out@[i] == prev[i] && out@[j] == prev[j]);
                } else if i > pos {
                    assert(out@[i] == prev[i - 1] && out@[j] == prev[j - 1]);
                } else if i == pos && j > pos {
                    assert(out@[j] == prev[j - 1]);
                    assert(prev[pos as int] <= prev[j - 1]);
                } else if j == pos && i < pos {
                    assert(out@[i] == prev[i]);
                } else if i < pos && j > pos {
                    assert(out@[i] == prev[i] && out@[j] == prev[j - 1]);
                    if pos < prev.len() {
                        assert(prev[i] <= prev[j - 1]);
                    }
                }
            }
        }
        k += 1;
    }
    proof {
        assert(v@.take(n as int) =~= v@);
    }
    out
}

// ---------------------------------------------------------------------
// The simulator.
// ---------------------------------------------------------------------

/// Projects how a borrowing cohort of members paying a fixed
/// contribution over a number of rounds would fare, by running many
/// deterministic pseudo-random scenarios and reporting the success
/// rate, the expected payout and its spread.
pub struct CircleSimulator {
    /// Identifier that initialized the simulator; zero until then.
    pub owner: u64,
    /// Scenarios run so far; doubles as the entropy for the next batch.
    pub simulation_count: u64,
    /// Retained cost gauge of the last batch; informational only.
    pub last_simulation_gas: u64,
}

impl CircleSimulator {
    /// The 32-bit entropy the next batch draws from.
    pub open spec fn spec_entropy(&self) -> u32 {
        (self.simulation_count % 0x1_0000_0000) as u32
    }

    /// A simulator with no owner and no simulations run.
    pub fn new() -> (r: CircleSimulator)
        ensures
            r.owner == 0,
            r.simulation_count == 0,
            r.last_simulation_gas == 0,
    {
        CircleSimulator { owner: 0, simulation_count: 0, last_simulation_gas: 0 }
    }

    /// Make `caller` the owner.  Fails once an owner is set.
    pub fn initialize(&mut self, caller: u64) -> (r: Result<(), SimulatorError>)
        ensures
            old(self).owner != 0 ==> r == Err::<(), SimulatorError>(
                SimulatorError::AlreadyInitialized,
            ) && *final(self) == *old(self),
            old(self).owner == 0 ==> {
                &&& r is Ok
                &&& final(self).owner == caller
                &&& final(self).simulation_count == old(self).simulation_count
                &&& final(self).last_simulation_gas == old(self).last_simulation_gas
            },
    {
        if self.owner != 0 {
            return Err(SimulatorError::AlreadyInitialized);
        }
        self.owner = caller;
        Ok(())
    }

    /// Run `num_simulations` cohort scenarios of `num_members` members
    /// paying `cuota_amount` per round for `num_rounds` rounds under
    /// `avg_default_probability` (in hundredths of a percent), and
    /// report `(success rate in hundredths of a percent, expected
    /// payout, surviving runs, 95th percentile payout, 5th percentile
    /// payout)`.  Each batch bumps the simulation count, which seeds the
    /// next batch's draws, so two simulators in the same state report
    /// the same figures.
    pub fn simulate_circle(
        &mut self,
        num_members: u8,
        cuota_amount: u64,
        num_rounds: u8,
        avg_default_probability: u32,
        num_simulations: u16,
    ) -> (r: Result<(u32, u128, u32, u128, u128), SimulatorError>)
        requires
            old(self).simulation_count < u64::MAX,
        ensures
            final(self).owner == old(self).owner,
            final(self).last_simulation_gas == old(self).last_simulation_gas,
            (num_members == 0 || num_members > 100) ==> r == Err::<
                (u32, u128, u32, u128, u128),
                SimulatorError,
            >(SimulatorError::InvalidMemberCount) && *final(self) == *old(self),
            (1 <= num_members <= 100) && (num_simulations == 0 || num_simulations > 10000) ==> r
                == Err::<(u32, u128, u32, u128, u128), SimulatorError>(
                SimulatorError::InvalidSimulationCount,
            ) && *final(self) == *old(self),
            (1 <= num_members <= 100) && (1 <= num_simulations <= 10000) ==> {
                let e = old(self).spec_entropy();
                let ns = num_simulations as int;
                let succ = spec_successes(e, num_members, cuota_amount, num_rounds,
                    avg_default_probability, ns);
                &&& final(self).simulation_count == old(self).simulation_count + 1
                &&& r matches Ok(t) && {
                    &&& t.2 == succ
                    &&& t.0 == (succ * 10000) / ns
                    &&& t.1 == spec_return_sum(e, num_members, cuota_amount, num_rounds,
                        avg_default_probability, ns) / ns
                    &&& exists|sorted: Seq<u128>|
                        {
                            &&& #[trigger] sorted.to_multiset() == spec_payouts(e, num_members,
                                cuota_amount, num_rounds, avg_default_probability,
                                ns).to_multiset()
                            &&& sorted.len() == ns
                            &&& forall|i: int, j: int|
                                0 <= i < j < sorted.len() ==> sorted[i] <= sorted[j]
                            &&& t.3 == sorted[ns * 95 / 100]
                            &&& t.4 == sorted[ns * 5 / 100]
                        }
                }
            },
    {
        if num_members == 0 || num_members > 100 {
            return Err(SimulatorError::InvalidMemberCount);
        }
        if num_simulations == 0 || num_simulations > 10000 {
            return Err(SimulatorError::InvalidSimulationCount);
        }
        let entropy: u32 = (self.simulation_count % 0x1_0000_0000) as u32;
        let mut successes: u32 = 0;
        let mut total_return: u128 = 0;
        let mut results: Vec<u128> = Vec::new();
        let mut sim: u16 = 0;
        while sim < num_simulations
            invariant
                *self == *old(self),
                1 <= num_members <= 100,
                1 <= num_simulations <= 10000,
                entropy == old(self).spec_entropy(),
                sim <= num_simulations,
                results@.len() == sim as int,
                successes == spec_successes(entropy, num_members, cuota_amount, num_rounds,
                    avg_default_probability, sim as int),
                successes <= sim,
                total_return == spec_return_sum(entropy, num_members, cuota_amount, num_rounds,
                    avg_default_probability, sim as int),
                total_return <= (sim as int) * 25500 * (cuota_amount as int),
                forall|i: int|
                    0 <= i < sim as int ==> results@[i] == spec_payout(entropy, num_members,
                        cuota_amount, num_rounds, avg_default_probability, i as u16) as u128,
            decreases num_simulations - sim,
        {
            let outcome = run_single_simulation(entropy, num_members, cuota_amount, num_rounds,
                avg_default_probability, sim);
            if outcome.0 {
                successes += 1;
            }
            let ghost tr = total_return as int;
            proof {
                assert(tr + 25500 * (cuota_amount as int) <= ((sim as int) + 1) * 25500 * (
                cuota_amount as int)) by (nonlinear_arith)
                    requires
                        tr <= (sim as int) * 25500 * (cuota_amount as int),
                        0 <= cuota_amount,
                        0 <= sim,
                ;
                assert(((sim as int) + 1) * 25500 * (cuota_amount as int) <= 10000 * 25500 * (
                u64::MAX as int)) by (nonlinear_arith)
                    requires
                        (sim as int) + 1 <= 10000,
                        cuota_amount <= u64::MAX,
                        0 <= sim,
                        0 <= cuota_amount,
                ;
            }
            total_return = total_return + outcome.1;
            results.push(outcome.1);
            sim += 1;
        }
        let success_rate = (successes * 10000) / (num_simulations as u32);
        let expected_return = total_return / (num_simulations as u128);
        let sorted_results = sort_payouts(results);
        proof {
            assert(sorted_results@.to_multiset() == spec_payouts(
                old(self).spec_entropy(),
                num_members,
                cuota_amount,
                num_rounds,
                avg_default_probability,
                num_simulations as int,
            ).to_multiset()) by {
                assert(results@ =~= spec_payouts(
                    old(self).spec_entropy(),
                    num_members,
                    cuota_amount,
                    num_rounds,
                    avg_default_probability,
                    num_simulations as int,
                ));
            }
            let ns = num_simulations as int;
            assert(ns * 95 / 100 < ns && ns * 5 / 100 < ns && 0 <= ns * 5 / 100 && 0 <= ns * 95
                / 100) by (nonlinear_arith)
                requires
                    1 <= ns <= 10000,
            ;
            assert(sorted_results@.len() == ns);
        }
        let best_case = sorted_results[(num_simulations as usize) * 95 / 100];
        let worst_case = sorted_results[(num_simulations as usize) * 5 / 100];
        self.simulation_count = self.simulation_count + 1;
        Ok((success_rate, expected_return, successes, best_case, worst_case))
    }

    /// A hundred-scenario preview over the standard twelve rounds:
    /// `(success rate, expected payout)`.
    pub fn quick_simulate(&mut self, num_members: u8, cuota_amount: u64, avg_default_prob: u32)
        -> (r: Result<(u32, u128), SimulatorError>)
        requires
            old(self).simulation_count < u64::MAX,
        ensures
            final(self).owner == old(self).owner,
            final(self).last_simulation_gas == old(self).last_simulation_gas,
            (num_members == 0 || num_members > 100) ==> r == Err::<(u32, u128), SimulatorError>(
                SimulatorError::InvalidMemberCount,
            ) && *final(self) == *old(self),
            (1 <= num_members <= 100) ==> {
                let e = old(self).spec_entropy();
                let succ = spec_successes(e, num_members, cuota_amount, 12, avg_default_prob, 100);
                &&& final(self).simulation_count == old(self).simulation_count + 1
                &&& r matches Ok(t) && {
                    &&& t.0 == (succ * 10000) / 100
                    &&& t.1 == spec_return_sum(e, num_members, cuota_amount, 12, avg_default_prob,
                        100) / 100
                }
            },
    {
        let result = self.simulate_circle(num_members, cuota_amount, 12, avg_default_prob, 100);
        match result {
            Ok((success_rate, expected_return, _successes, _best, _worst)) => Ok(
                (success_rate, expected_return),
            ),
            Err(e) => Err(e),
        }
    }

    /// The owner's identifier.
    pub fn owner(&self) -> (r: u64)
        ensures
            r == self.owner,
    {
        self.owner
    }

    /// Scenarios run so far.
    pub fn simulation_count(&self) -> (r: u64)
        ensures
            r == self.simulation_count,
    {
        self.simulation_count
    }

    /// Cost gauge of the last batch.
    pub fn last_gas_used(&self) -> (r: u64)
        ensures
            r == self.last_simulation_gas,
    {
        self.last_simulation_gas
    }
}

} // verus!
