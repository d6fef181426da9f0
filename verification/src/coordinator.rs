//! The coordinator: sole consumer of the event channel and sole owner of
//! the aggregate run state. It updates one slot per event, decides when to
//! redraw, and owns the termination policy: a reached verification target
//! or any reported failure halts the whole run.

use vstd::prelude::*;
use vstd::string::*;
use crate::stats::{FreeStats, MemStats, StatsError, ZswapStats};

verus! {

/// The phase a worker last reported itself in.
pub enum WorkerState {
    Allocating,
    Holding,
    Verifying,
}

/// The events workers and the sampler put on the shared channel.
pub enum Message {
    WorkerState(u16, WorkerState),
    MemStats(MemStats),
    ThreadError(String, String),
    VerificationCompleted,
}

/// The aggregate run state: the target byte count shown on the dashboard,
/// the latest statistics snapshot, one state slot per worker, and the
/// running verification counter.
pub struct State {
    pub target: u128,
    pub mem_stats: MemStats,
    pub workers: Vec<WorkerState>,
    pub verifications: u128,
}

/// What the coordinator does after consuming one event.
pub enum Decision {
    /// Redraw the dashboard and keep consuming.
    Render,
    /// The verification target is reached: flip the cancellation flag and
    /// stop consuming.
    HaltTargetReached,
    /// A producer failed: report it, capture diagnostics, flip the flag
    /// and stop consuming.
    HaltFailure,
}

impl State {
    /// The state at startup: zero verifications, a zeroed statistics
    /// snapshot, and every worker shown as allocating.
    pub fn new(target: u128, thread_count: u16) -> (r: State)
        ensures
            r.target == target,
            r.verifications == 0,
            r.workers.len() == thread_count,
            forall|i: int| 0 <= i < thread_count ==> r.workers[i] is Allocating,
            r.mem_stats.free.mem_total == 0 && r.mem_stats.free.mem_available == 0
                && r.mem_stats.free.swap_total == 0 && r.mem_stats.free.swap_available == 0,
            r.mem_stats.zswap.written_back == 0 && r.mem_stats.zswap.rejects == 0
                && r.mem_stats.zswap.pool_size == 0,
    {
        let mut workers: Vec<WorkerState> = Vec::new();
        let mut i: u16 = 0;
        while i < thread_count
            invariant
                0 <= i <= thread_count,
                workers.len() == i,
                forall|j: int| 0 <= j < i ==> workers[j] is Allocating,
            decreases thread_count - i,
        {
            workers.push(WorkerState::Allocating);
            i = i + 1;
        }
        State { target, mem_stats: Default::default(), workers, verifications: 0 }
    }

    /// Consumes one event: a worker-state or statistics event updates the
    /// corresponding slot and triggers a redraw; a completed verification
    /// bumps the counter and halts the run exactly when it reaches the
    /// configured target; a reported thread failure halts the run at once.
    pub fn apply_message(&mut self, msg: Message, target: Option<u128>) -> (d: Decision)
        requires
            msg matches Message::WorkerState(id, _) ==> (id as int) < old(self).workers.len(),
            old(self).verifications < u128::MAX,
        ensures
            final(self).target == old(self).target,
            match msg {
                Message::WorkerState(id, ws) => {
                    &&& final(self).workers@ == old(self).workers@.update(id as int, ws)
                    &&& final(self).mem_stats == old(self).mem_stats
                    &&& final(self).verifications == old(self).verifications
                    &&& d is Render
                },
                Message::MemStats(s) => {
                    &&& final(self).mem_stats == s
                    &&& final(self).workers@ == old(self).workers@
                    &&& final(self).verifications == old(self).verifications
                    &&& d is Render
                },
                Message::ThreadError(_, _) => {
                    &&& *final(self) == *old(self)
                    &&& d is HaltFailure
                },
                Message::VerificationCompleted => {
                    &&& final(self).verifications == old(self).verifications + 1
                    &&& final(self).workers@ == old(self).workers@
                    &&& final(self).mem_stats == old(self).mem_stats
                    &&& (d is HaltTargetReached <==> target == Some(final(self).verifications))
                    &&& (d is Render <==> target != Some(final(self).verifications))
                },
            },
    {
        match msg {
            Message::WorkerState(id, ws) => {
                self.workers[id as usize] = ws;
                Decision::Render
            },
            Message::MemStats(s) => {
                self.mem_stats = s;
                Decision::Render
            },
            Message::ThreadError(_, _) => Decision::HaltFailure,
            Message::VerificationCompleted => {
                self.verifications = self.verifications + 1;
                match target {
                    Some(t) => if t == self.verifications {
                        Decision::HaltTargetReached
                    } else {
                        Decision::Render
                    },
                    None => Decision::Render,
                }
            },
        }
    }
}

/// The coordinator's wall-clock cutoff: reached exactly when a timeout is
/// configured and the elapsed time is at or past it.
pub fn timeout_reached(elapsed_secs: u64, timeout_secs: Option<u64>) -> (r: bool)
    ensures
        r <==> (timeout_secs matches Some(t) && elapsed_secs >= t),
{
    match timeout_secs {
        Some(t) => elapsed_secs >= t,
        None => false,
    }
}

// ---------------------------------------------------------------------------
// Producer-side event construction
// ---------------------------------------------------------------------------

/// The stable name of the worker with the given index, as carried in its
/// failure reports.
pub open spec fn spec_worker_id(id: nat) -> Seq<char> {
    "worker-"@ + crate::text::dec_digits(id)
}

pub fn worker_id_string(id: u16) -> (r: String)
    ensures
        r@ == spec_worker_id(id as nat),
{
    let mut s = String::from_str("worker-");
    let digits = crate::text::u64_to_string(id as u64);
    s.append(digits.as_str());
    s
}

/// One telemetry tick's decision: the first failed read becomes the
/// sampler's fatal failure report, a successful pair becomes a statistics
/// event; the sampler keeps running exactly when both reads parsed.
pub fn sampler_step(
    free_result: Result<FreeStats, StatsError>,
    zswap_result: Result<ZswapStats, StatsError>,
) -> (r: (Message, bool))
    ensures
        free_result is Err ==> (r.0 matches Message::ThreadError(id, _) && id@ == "stats"@
            && !r.1),
        free_result is Ok && zswap_result is Err ==> (r.0 matches Message::ThreadError(id, _)
            && id@ == "stats"@ && !r.1),
        free_result matches Ok(f) ==> zswap_result matches Ok(z) ==> (r.0
            matches Message::MemStats(m) && m.free == f && m.zswap == z && r.1),
{
    match free_result {
        Err(_) => (
            (
                Message::ThreadError(
                    String::from_str("stats"),
                    String::from_str("Error while reading free."),
                ),
                false,
            )
        ),
        Ok(free) => match zswap_result {
            Err(_) => (
                (
                    Message::ThreadError(
                        String::from_str("stats"),
                        String::from_str("Error while reading zswap stats."),
                    ),
                    false,
                )
            ),
            Ok(zswap) => ((Message::MemStats(MemStats { free, zswap }), true)),
        },
    }
}

} // verus!
