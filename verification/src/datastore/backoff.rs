//! Bounded, jittered, exponential backoff: the policy by which a caller waits
//! for a worker of the pool or for the refresh lock.

use vstd::prelude::*;

verus! {

/// Two to the power `n`.
pub open spec fn power_of_two(n: nat) -> nat
    decreases n,
{
    if n == 0 {
        1
    } else {
        2 * power_of_two((n - 1) as nat)
    }
}

/// The milliseconds to wait after the failed attempt number `retries`,
/// counted from zero: the base, doubled with every attempt, and the jitter.
pub open spec fn delay_ms(base_ms: nat, retries: nat, jitter: nat) -> nat {
    power_of_two(retries) * base_ms + jitter
}

/// The powers of two grow with the exponent.
pub proof fn lemma_power_of_two_grows(a: nat, b: nat)
    requires
        a <= b,
    ensures
        power_of_two(a) <= power_of_two(b),
    decreases b,
{
    if a < b {
        lemma_power_of_two_grows(a, (b - 1) as nat);
    }
}

/// Two to the power 32.
pub proof fn lemma_power_of_two_32()
    ensures
        power_of_two(32) == 0x1_0000_0000,
{
    reveal_with_fuel(power_of_two, 33);
}

/// `rand::Rng::random_range` on the generator of the thread, over the range
/// from zero up to and excluding `bound`: a value of that range.
#[verifier::external_body]
pub(crate) fn random_below(bound: u64) -> (value: u64)
    requires
        bound > 0,
    ensures
        value < bound,
{
    rand::Rng::random_range(&mut rand::rng(), 0..bound)
}

/// A backoff policy: how often to try, how long to wait after the first
/// failure, and the bound below which a random jitter is added to every wait.
#[derive(Debug, Clone, Copy, PartialEq, Eq, Structural)]
pub struct Backoff {
    pub attempts: u32,
    pub base_ms: u64,
    pub jitter_ms: u64,
}

/// What a caller does next.
#[derive(Debug, Clone, Copy, PartialEq, Eq, Structural)]
pub enum Step {
    /// Try, for the attempt with this number.
    Attempt { retries: u32 },
    /// Give up: every attempt has failed.
    GiveUp,
}

impl Backoff {
    /// The policy can be followed: it tries at most 32 times, and its base and
    /// its jitter are small enough for every wait to be counted in 64 bits.
    pub open spec fn wf(&self) -> bool {
        &&& self.attempts <= 32
        &&& self.base_ms <= 0xffff_ffff
        &&& 1 <= self.jitter_ms <= 0xffff_ffff
    }

    /// The policy of a caller that waits for a worker of the pool.
    pub fn pool() -> (policy: Backoff)
        ensures
            policy.wf(),
            policy == (Backoff { attempts: 9, base_ms: 2, jitter_ms: 3 }),
    {
        Backoff { attempts: 9, base_ms: 2, jitter_ms: 3 }
    }

    /// The policy of a caller that waits for the refresh lock.
    pub fn refresh_lock() -> (policy: Backoff)
        ensures
            policy.wf(),
            policy == (Backoff { attempts: 9, base_ms: 200, jitter_ms: 50 }),
    {
        Backoff { attempts: 9, base_ms: 200, jitter_ms: 50 }
    }

    /// What a caller does after `retries` failed attempts: it tries again
    /// unless it has tried as often as the policy allows.
    pub fn next(&self, retries: u32) -> (step: Step)
        ensures
            step == if retries < self.attempts {
                Step::Attempt { retries }
            } else {
                Step::GiveUp
            },
    {
        if retries < self.attempts {
            Step::Attempt { retries }
        } else {
            Step::GiveUp
        }
    }

    /// The milliseconds to wait after the failed attempt number `retries`,
    /// with the given jitter.
    pub fn delay(&self, retries: u32, jitter: u64) -> (wait: u64)
        requires
            self.wf(),
            retries < self.attempts,
            jitter < self.jitter_ms,
        ensures
            wait == delay_ms(self.base_ms as nat, retries as nat, jitter as nat),
    {
        let mut power: u64 = 1;
        let mut i: u32 = 0;
        while i < retries
            invariant
                i <= retries < 32,
                power == power_of_two(i as nat),
                power <= 0x8000_0000,
            decreases retries - i,
        {
            proof {
                lemma_power_of_two_grows((i + 1) as nat, 31);
                lemma_power_of_two_32();
            }
            power = power * 2;
            i += 1;
        }
        assert(power * self.base_ms <= 0x8000_0000 * 0xffff_ffff) by (nonlinear_arith)
            requires
                power <= 0x8000_0000,
                self.base_ms <= 0xffff_ffff,
        ;
        power * self.base_ms + jitter
    }

    /// The milliseconds to wait after the failed attempt number `retries`,
    /// with a random jitter below the bound of the policy.
    pub fn jittered_delay(&self, retries: u32) -> (wait: u64)
        requires
            self.wf(),
            retries < self.attempts,
        ensures
            delay_ms(self.base_ms as nat, retries as nat, 0) <= wait < delay_ms(
                self.base_ms as nat,
                retries as nat,
                self.jitter_ms as nat,
            ),
    {
        let jitter = random_below(self.jitter_ms);
        self.delay(retries, jitter)
    }
}

/// The wait before jitter doubles from one attempt to the next.
pub proof fn theorem_delay_doubles(base_ms: nat, retries: nat)
    ensures
        delay_ms(base_ms, retries + 1, 0) == 2 * delay_ms(base_ms, retries, 0),
{
    assert(power_of_two(retries + 1) == 2 * power_of_two(retries));
    assert(2 * power_of_two(retries) * base_ms == 2 * (power_of_two(retries) * base_ms))
        by (nonlinear_arith);
}

/// The milliseconds that a caller has waited in all when it gives up after
/// `attempts` failed attempts, with the largest jitter every time.
pub open spec fn longest_wait(policy: Backoff, attempts: nat) -> nat
    decreases attempts,
{
    if attempts == 0 {
        0
    } else {
        longest_wait(policy, (attempts - 1) as nat) + delay_ms(
            policy.base_ms as nat,
            (attempts - 1) as nat,
            (policy.jitter_ms - 1) as nat,
        )
    }
}

/// A caller never waits without end: with the policy of the pool it gives up
/// after nine attempts and little more than a second, with the policy of the
/// refresh lock after nine attempts and less than two minutes.
pub proof fn theorem_waits_are_bounded()
    ensures
        longest_wait(Backoff { attempts: 9, base_ms: 2, jitter_ms: 3 }, 9) == 1040,
        longest_wait(Backoff { attempts: 9, base_ms: 200, jitter_ms: 50 }, 9) == 102641,
{
    reveal_with_fuel(longest_wait, 10);
    reveal_with_fuel(power_of_two, 10);
}

} // verus!
