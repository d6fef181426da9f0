//! The worker: owns one buffer's lifecycle (allocate, hold, verify, free)
//! and loops until cancelled or failed. Its hold time is computed once at
//! spawn from the base hold time, the worker's index and the stagger
//! exponent, so lower-index workers hold memory longer and allocation
//! bursts stay layered rather than synchronized.

use vstd::prelude::*;
use vstd::arithmetic::power::{pow, lemma_pow_positive, lemma_pow_increases};
use vstd::arithmetic::div_mod::{
    lemma_basic_div, lemma_div_is_ordered, lemma_div_multiples_vanish, lemma_div_nonincreasing,
    lemma_fundamental_div_mod, lemma_mod_bound,
};
use vstd::arithmetic::mul::lemma_mul_is_commutative;
use crate::coordinator::{Message, WorkerState};
use crate::pattern::{make_allocation, stamped, verify_and_free, CorruptionDetected};

verus! {

// ---------------------------------------------------------------------------
// Hold-time staggering
// ---------------------------------------------------------------------------

/// The hold time of the worker with the given index: the base time when
/// staggering is disabled (exponent 1), otherwise the base time divided by
/// `(index + 1)` raised to the stagger exponent, rounded down.
pub open spec fn spec_hold_time(base: u64, index: nat, exponent: nat) -> int {
    if exponent == 1 {
        base as int
    } else {
        (base as int) / pow(index as int + 1, exponent)
    }
}

/// `pow(b, e)` computed with saturation: the exact power while it fits,
/// `u128::MAX` once it overflows (callers only divide by it, and any
/// saturated divisor already exceeds every dividend they use).
fn pow_saturating(b: u128, e: u32) -> (r: u128)
    requires
        b >= 1,
    ensures
        r as int == pow(b as int, e as nat) || (r == u128::MAX && pow(b as int, e as nat)
            > u128::MAX),
        r >= 1,
{
    proof {
        reveal(pow);
    }
    let mut r: u128 = 1;
    let mut k: u32 = 0;
    while k < e
        invariant
            b >= 1,
            0 <= k <= e,
            r as int == pow(b as int, k as nat),
            r >= 1,
        decreases e - k,
    {
        proof {
            reveal(pow);
            lemma_pow_positive(b as int, (k + 1) as nat);
        }
        match r.checked_mul(b) {
            Some(x) => {
                proof {
                    reveal(pow);
                    lemma_mul_is_commutative(r as int, b as int);
                    assert(pow(b as int, (k + 1) as nat) == b * pow(b as int, k as nat));
                    assert(x >= 1) by (nonlinear_arith)
                        requires
                            r >= 1,
                            b >= 1,
                            x == r * b,
                    ;
                }
                r = x;
            },
            None => {
                proof {
                    reveal(pow);
                    lemma_mul_is_commutative(r as int, b as int);
                    assert(pow(b as int, (k + 1) as nat) == b * pow(b as int, k as nat));
                    assert(pow(b as int, (k + 1) as nat) > u128::MAX);
                    lemma_pow_increases(b as nat, (k + 1) as nat, e as nat);
                }
                return u128::MAX;
            },
        }
        k = k + 1;
    }
    r
}

/// Computes a worker's hold time once, at spawn. Exponent 1 disables
/// staggering: every worker holds for the base time. Any other exponent
/// divides the base time by `(index + 1)` to that power, producing a
/// strictly descending schedule wherever the integer divisions stay apart.
pub fn hold_time_ms(base: u64, index: u16, exponent: u32) -> (r: u64)
    ensures
        r == spec_hold_time(base, index as nat, exponent as nat),
{
    if exponent == 1 {
        return base;
    }
    let divisor = pow_saturating(index as u128 + 1, exponent);
    proof {
        if divisor == u128::MAX && pow(index as int + 1, exponent as nat) > u128::MAX {
            lemma_basic_div(base as int, pow(index as int + 1, exponent as nat));
            lemma_basic_div(base as int, u128::MAX as int);
        }
        lemma_div_nonincreasing(base as int, divisor as int);
    }
    (base as u128 / divisor) as u64
}

/// Base monotonicity of powers: a strictly larger base gives a strictly
/// larger power, for any positive exponent.
proof fn lemma_pow_base_strictly_increases(b1: int, b2: int, e: nat)
    requires
        1 <= b1 < b2,
        e >= 1,
    ensures
        pow(b1, e) < pow(b2, e),
    decreases e,
{
    reveal(pow);
    lemma_pow_positive(b1, (e - 1) as nat);
    lemma_pow_positive(b2, (e - 1) as nat);
    if e == 1 {
        assert(pow(b1, 1) == b1 * pow(b1, 0));
        assert(pow(b2, 1) == b2 * pow(b2, 0));
    } else {
        lemma_pow_base_strictly_increases(b1, b2, (e - 1) as nat);
        assert(b1 * pow(b1, (e - 1) as nat) < b2 * pow(b2, (e - 1) as nat)) by (nonlinear_arith)
            requires
                1 <= b1 < b2,
                0 < pow(b1, (e - 1) as nat) < pow(b2, (e - 1) as nat),
        ;
    }
}

/// With staggering disabled (exponent 1), every worker computes the same
/// hold time: the base hold time itself.
pub proof fn lemma_hold_time_uniform(base: u64, index: nat)
    ensures
        spec_hold_time(base, index, 1) == base,
{
}

/// With staggering enabled (exponent at least 2), hold times strictly
/// descend with the worker index, as long as the base hold time is large
/// enough that the two integer divisions stay apart; a small base collapses
/// neighbouring quotients (base 10 with exponent 2 gives workers three and
/// four the same zero hold time), and exponent 0 gives every worker the
/// base time.
pub proof fn lemma_hold_time_strictly_descends(base: u64, index: nat, exponent: nat)
    requires
        exponent >= 2,
        base as int >= pow(index as int + 1, exponent) * pow(index as int + 2, exponent),
    ensures
        spec_hold_time(base, index + 1, exponent) < spec_hold_time(base, index, exponent),
{
    let d1 = pow(index as int + 1, exponent);
    let d2 = pow(index as int + 2, exponent);
    lemma_pow_positive(index as int + 1, exponent);
    lemma_pow_positive(index as int + 2, exponent);
    lemma_pow_base_strictly_increases(index as int + 1, index as int + 2, exponent);
    let q1 = (base as int) / d1;
    let q2 = (base as int) / d2;
    // base >= d1 * d2 puts the smaller quotient at or above d1
    assert(q2 >= d1) by {
        lemma_div_is_ordered(d1 * d2, base as int, d2);
        lemma_mul_is_commutative(d1, d2);
        lemma_div_multiples_vanish(d1, d2);
    }
    // d1 * (q2 + 1) <= base, so q1 >= q2 + 1
    assert(d1 * (q2 + 1) <= base as int) by {
        lemma_fundamental_div_mod(base as int, d2);
        lemma_mod_bound(base as int, d2);
        assert(d2 * q2 <= base as int);
        assert(d1 * q2 <= (d2 - 1) * q2) by (nonlinear_arith)
            requires
                d1 < d2,
                q2 >= 0,
        ;
        assert((d2 - 1) * q2 == d2 * q2 - q2) by (nonlinear_arith);
        assert(d1 * (q2 + 1) == d1 * q2 + d1) by (nonlinear_arith);
    }
    assert(q1 >= q2 + 1) by {
        lemma_div_is_ordered(d1 * (q2 + 1), base as int, d1);
        lemma_mul_is_commutative(d1, q2 + 1);
        lemma_div_multiples_vanish(q2 + 1, d1);
    }
}

// ---------------------------------------------------------------------------
// One worker cycle
// ---------------------------------------------------------------------------

/// The outcome of one allocate-stamp-verify pass.
pub enum CycleOutcome {
    /// The allocator refused the buffer: fatal for this worker.
    AllocationFailed,
    /// The pattern did not verify: fatal for the whole run.
    Corruption(CorruptionDetected),
    /// The buffer verified cleanly and was released.
    Clean,
}

/// One full cycle over a fresh buffer: allocate, stamp, verify, free.
/// Round trip of the pattern engine: with tags at least 8 bytes apart, a
/// buffer that was just stamped always verifies cleanly, so corruption is
/// never reported here, whatever the noise settings.
pub fn worker_cycle(size: usize, stride: usize, rand_data_len: usize) -> (r: CycleOutcome)
    requires
        size >= 8,
        stride >= 8,
        rand_data_len <= 4096,
        rand_data_len > 0 ==> size % 4096 == 0,
    ensures
        !(r is Corruption),
{
    match make_allocation(size, stride, rand_data_len) {
        None => CycleOutcome::AllocationFailed,
        Some(data) => {
            proof {
                assert(stamped(data@, stride as nat));
            }
            match verify_and_free(data, stride) {
                Ok(_) => CycleOutcome::Clean,
                Err(e) => {
                    proof {
                        assert(false);
                    }
                    CycleOutcome::Corruption(e)
                },
            }
        },
    }
}

// ---------------------------------------------------------------------------
// The worker state machine
// ---------------------------------------------------------------------------

/// Where a worker stands in its allocate-hold-verify loop. The two control
/// phases (`CycleStart`, `Finished`) frame the three working phases the
/// coordinator sees.
pub enum WorkerPhase {
    /// About to re-check the cancellation flag before a new cycle.
    CycleStart,
    /// Allocating and stamping a buffer.
    Allocating,
    /// Holding the buffer under memory pressure.
    Holding,
    /// Verifying the pattern before release.
    Verifying,
    /// The loop has ended: cancellation or failure.
    Finished,
}

/// The decision core of one worker. The surrounding thread performs the
/// outside work (sleeping, sending) and feeds each step's outcome back in;
/// every transition and every emitted event is decided here.
pub struct Worker {
    pub id: u16,
    pub phase: WorkerPhase,
}

impl Worker {
    pub fn new(id: u16) -> (r: Worker)
        ensures
            r.id == id,
            r.phase is CycleStart,
    {
        Worker { id, phase: WorkerPhase::CycleStart }
    }

    /// Re-checks the cancellation flag at the top of a cycle: an unset
    /// flag ends the loop with no further transition (the next observable
    /// step is thread exit, not a new allocation); a set flag enters the
    /// allocation phase and announces it.
    pub fn on_cycle_start(&mut self, running: bool) -> (r: Option<Message>)
        requires
            old(self).phase is CycleStart,
        ensures
            final(self).id == old(self).id,
            !running ==> final(self).phase is Finished && r is None,
            running ==> final(self).phase is Allocating && (r matches Some(
                Message::WorkerState(id, ws),
            ) && id == old(self).id && ws is Allocating),
    {
        if running {
            self.phase = WorkerPhase::Allocating;
            Some(Message::WorkerState(self.id, WorkerState::Allocating))
        } else {
            self.phase = WorkerPhase::Finished;
            None
        }
    }

    /// Takes the allocation outcome: success enters the holding phase and
    /// announces it; an allocator refusal is fatal for this worker and
    /// becomes its failure report.
    pub fn on_allocated(&mut self, ok: bool) -> (r: Message)
        requires
            old(self).phase is Allocating,
        ensures
            final(self).id == old(self).id,
            ok ==> final(self).phase is Holding && (r matches Message::WorkerState(id, ws) && id
                == old(self).id && ws is Holding),
            !ok ==> final(self).phase is Finished && (r matches Message::ThreadError(id, _) && id@
                == crate::coordinator::spec_worker_id(old(self).id as nat)),
    {
        if ok {
            self.phase = WorkerPhase::Holding;
            Message::WorkerState(self.id, WorkerState::Holding)
        } else {
            self.phase = WorkerPhase::Finished;
            Message::ThreadError(
                crate::coordinator::worker_id_string(self.id),
                String::from_str("Allocation failed"),
            )
        }
    }

    /// The hold time has elapsed: enter the verification phase and
    /// announce it.
    pub fn on_hold_elapsed(&mut self) -> (r: Message)
        requires
            old(self).phase is Holding,
        ensures
            final(self).id == old(self).id,
            final(self).phase is Verifying,
            r matches Message::WorkerState(id, ws) && id == old(self).id && ws is Verifying,
    {
        self.phase = WorkerPhase::Verifying;
        Message::WorkerState(self.id, WorkerState::Verifying)
    }

    /// Takes the verification outcome: a clean pass completes the cycle
    /// and loops back to the flag check; a mismatch is fatal and becomes
    /// this worker's failure report. A failed worker does not retry.
    pub fn on_verified(&mut self, ok: bool) -> (r: Message)
        requires
            old(self).phase is Verifying,
        ensures
            final(self).id == old(self).id,
            ok ==> final(self).phase is CycleStart && r is VerificationCompleted,
            !ok ==> final(self).phase is Finished && (r matches Message::ThreadError(id, _) && id@
                == crate::coordinator::spec_worker_id(old(self).id as nat)),
    {
        if ok {
            self.phase = WorkerPhase::CycleStart;
            Message::VerificationCompleted
        } else {
            self.phase = WorkerPhase::Finished;
            Message::ThreadError(
                crate::coordinator::worker_id_string(self.id),
                String::from_str("Verification error."),
            )
        }
    }
}

} // verus!
