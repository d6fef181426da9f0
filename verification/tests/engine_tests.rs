use memstress::coordinator::{Decision, Message, State, WorkerState};
use memstress::coordinator::{sampler_step, timeout_reached, worker_id_string};
use memstress::pattern::{make_allocation, verify_and_free};
use memstress::sizing::{compute_thread_allocation_size, get_available_memory, page_round_up};
use memstress::stats::{FreeStats, MemStats, StatsError, ZswapStats};
use memstress::worker::{hold_time_ms, worker_cycle, CycleOutcome, Worker, WorkerPhase};

// ---------------------------------------------------------------------------
// Hold-time staggering
// ---------------------------------------------------------------------------

#[test]
fn hold_time_uniform_when_staggering_disabled() {
    for k in 0..8u16 {
        assert_eq!(hold_time_ms(200, k, 1), 200);
    }
}

#[test]
fn hold_time_strictly_descends_for_large_base() {
    let base = 1_000_000u64;
    let mut prev = hold_time_ms(base, 0, 2);
    assert_eq!(prev, 1_000_000);
    for k in 1..6u16 {
        let h = hold_time_ms(base, k, 2);
        assert!(h < prev, "hold time did not descend at index {}", k);
        prev = h;
    }
    assert_eq!(hold_time_ms(base, 1, 2), 250_000);
    assert_eq!(hold_time_ms(base, 2, 2), 111_111);
}

#[test]
fn hold_time_quotients_collapse_for_small_base() {
    // Small bases defeat strict descent: both quotients truncate to zero.
    assert_eq!(hold_time_ms(10, 3, 2), 0);
    assert_eq!(hold_time_ms(10, 4, 2), 0);
}

#[test]
fn hold_time_zero_base_gives_zero() {
    assert_eq!(hold_time_ms(0, 0, 1), 0);
    assert_eq!(hold_time_ms(0, 3, 2), 0);
}

#[test]
fn hold_time_survives_huge_exponent() {
    // The divisor saturates; the hold time is exactly zero.
    assert_eq!(hold_time_ms(u64::MAX, u16::MAX, u32::MAX), 0);
}

// ---------------------------------------------------------------------------
// Sizing
// ---------------------------------------------------------------------------

#[test]
fn page_round_up_bumps_exact_multiples() {
    assert_eq!(page_round_up(0), 4096);
    assert_eq!(page_round_up(4096), 8192);
    assert_eq!(page_round_up(1), 4096);
    assert_eq!(page_round_up(4097), 8192);
}

#[test]
fn thread_allocation_size_is_page_aligned_share() {
    let r = compute_thread_allocation_size(10_000_000, 3);
    assert_eq!(r % 4096, 0);
    assert!(r as u128 >= 10_000_000 / 3);
    assert_eq!(r, 3_334_144);
    assert_eq!(compute_thread_allocation_size(3 * 4096, 3), 8192);
}

#[test]
fn available_memory_discounts_swap() {
    let free = FreeStats {
        mem_total: 0,
        mem_available: 1_000_000,
        swap_total: 0,
        swap_available: 500_000,
    };
    assert_eq!(get_available_memory(&free), 1_000_000 + 200_000);
}

// ---------------------------------------------------------------------------
// Coordinator
// ---------------------------------------------------------------------------

#[test]
fn coordinator_updates_worker_slot() {
    let mut state = State::new(4096, 2);
    let d = state.apply_message(Message::WorkerState(1, WorkerState::Holding), None);
    assert!(matches!(d, Decision::Render));
    assert!(matches!(state.workers[1], WorkerState::Holding));
    assert!(matches!(state.workers[0], WorkerState::Allocating));
}

#[test]
fn coordinator_replaces_stats_snapshot() {
    let mut state = State::new(4096, 1);
    let stats = MemStats {
        free: FreeStats { mem_total: 7, mem_available: 5, swap_total: 3, swap_available: 2 },
        zswap: ZswapStats { written_back: 1, rejects: 0, pool_size: 9 },
    };
    let d = state.apply_message(Message::MemStats(stats), None);
    assert!(matches!(d, Decision::Render));
    assert_eq!(state.mem_stats.free.mem_total, 7);
    assert_eq!(state.mem_stats.zswap.pool_size, 9);
}

#[test]
fn coordinator_halts_on_thread_error() {
    let mut state = State::new(4096, 1);
    let d = state.apply_message(
        Message::ThreadError("worker-0".to_string(), "boom".to_string()),
        Some(5),
    );
    assert!(matches!(d, Decision::HaltFailure));
    assert_eq!(state.verifications, 0);
}

#[test]
fn coordinator_halts_exactly_at_target() {
    let mut state = State::new(4096, 1);
    for expected in 1..3u128 {
        let d = state.apply_message(Message::VerificationCompleted, Some(3));
        assert!(matches!(d, Decision::Render));
        assert_eq!(state.verifications, expected);
    }
    let d = state.apply_message(Message::VerificationCompleted, Some(3));
    assert!(matches!(d, Decision::HaltTargetReached));
    assert_eq!(state.verifications, 3);
}

#[test]
fn coordinator_never_halts_without_target() {
    let mut state = State::new(4096, 1);
    for _ in 0..10 {
        let d = state.apply_message(Message::VerificationCompleted, None);
        assert!(matches!(d, Decision::Render));
    }
    assert_eq!(state.verifications, 10);
}

#[test]
fn timeout_reached_only_with_configured_timeout() {
    assert!(!timeout_reached(1_000_000, None));
    assert!(!timeout_reached(59, Some(60)));
    assert!(timeout_reached(60, Some(60)));
    assert!(timeout_reached(61, Some(60)));
}

#[test]
fn sampler_step_outcomes() {
    let free = FreeStats { mem_total: 1, mem_available: 2, swap_total: 3, swap_available: 4 };
    let zswap = ZswapStats { written_back: 5, rejects: 6, pool_size: 7 };
    let (msg, cont) = sampler_step(Ok(free), Ok(zswap));
    assert!(cont);
    match msg {
        Message::MemStats(m) => {
            assert_eq!(m.free.mem_available, 2);
            assert_eq!(m.zswap.rejects, 6);
        }
        _ => panic!("expected a statistics event"),
    }
    let (msg, cont) = sampler_step(Err(StatsError::MissingMemLine), Ok(ZswapStats {
        written_back: 0,
        rejects: 0,
        pool_size: 0,
    }));
    assert!(!cont);
    assert!(matches!(msg, Message::ThreadError(id, _) if id == "stats"));
}

#[test]
fn worker_id_strings() {
    assert_eq!(worker_id_string(0), "worker-0");
    assert_eq!(worker_id_string(37), "worker-37");
}

// ---------------------------------------------------------------------------
// End-to-end scenarios
// ---------------------------------------------------------------------------

/// Scenario: one worker, a 4096-byte buffer, stride 4096, target 3.
/// The run halts after exactly three completed verifications and no
/// thread failure.
#[test]
fn scenario_target_halts_after_three_verifications() {
    let threads = 1u16;
    let bytes = 4096usize;
    let stride = 4096usize;
    let target = Some(3u128);

    let mut state = State::new(bytes as u128 * threads as u128, threads);
    let mut worker = Worker::new(0);
    let mut running = true;
    let mut failures = 0u32;
    let mut halted_on_target = false;
    let mut steps = 0u32;

    while running {
        steps += 1;
        assert!(steps < 100, "run did not halt");
        // One full worker cycle, events consumed by the coordinator as
        // they are produced.
        let mut events: Vec<Message> = Vec::new();
        match worker.on_cycle_start(running) {
            Some(m) => events.push(m),
            None => break,
        }
        let buf = make_allocation(bytes, stride, 0);
        let ok = buf.is_some();
        events.push(worker.on_allocated(ok));
        if ok {
            events.push(worker.on_hold_elapsed());
            let verified = verify_and_free(buf.unwrap(), stride).is_ok();
            events.push(worker.on_verified(verified));
        }
        for msg in events {
            if matches!(msg, Message::ThreadError(_, _)) {
                failures += 1;
            }
            match state.apply_message(msg, target) {
                Decision::Render => {}
                Decision::HaltTargetReached => {
                    halted_on_target = true;
                    running = false;
                }
                Decision::HaltFailure => {
                    running = false;
                }
            }
        }
    }

    assert!(halted_on_target);
    assert_eq!(state.verifications, 3);
    assert_eq!(failures, 0);
}

/// Scenario: a buffer corrupted between hold and verify produces exactly
/// one thread failure, and the run halts with no further completed
/// verifications.
#[test]
fn scenario_corruption_halts_run() {
    let mut state = State::new(4096, 1);
    let mut worker = Worker::new(0);
    let mut failures = 0u32;

    let mut events: Vec<Message> = Vec::new();
    events.push(worker.on_cycle_start(true).unwrap());
    let mut buf = make_allocation(4096, 512, 0).unwrap();
    events.push(worker.on_allocated(true));
    events.push(worker.on_hold_elapsed());
    // Corruption strikes while the buffer is held.
    buf[512 * 3 + 2] ^= 0x10;
    let verified = verify_and_free(buf, 512).is_ok();
    events.push(worker.on_verified(verified));

    let mut halted = false;
    for msg in events {
        if matches!(msg, Message::ThreadError(_, _)) {
            failures += 1;
        }
        match state.apply_message(msg, None) {
            Decision::HaltFailure => halted = true,
            Decision::HaltTargetReached => panic!("no target was configured"),
            Decision::Render => {}
        }
    }
    assert!(halted);
    assert_eq!(failures, 1);
    assert_eq!(state.verifications, 0);
    assert!(matches!(worker.phase, WorkerPhase::Finished));
}

/// Scenario: the cancellation flag set mid-hold ends the worker at the
/// next cycle check, with no new allocation phase.
#[test]
fn scenario_cancellation_ends_worker() {
    let mut worker = Worker::new(0);
    // A full clean cycle under a set flag.
    assert!(worker.on_cycle_start(true).is_some());
    worker.on_allocated(true);
    worker.on_hold_elapsed();
    // The flag flips while the worker holds; it finishes the in-flight
    // cycle (cancellation is cooperative, checked only at the cycle top).
    let msg = worker.on_verified(true);
    assert!(matches!(msg, Message::VerificationCompleted));
    // At the next cycle top the worker observes the flag and exits: no
    // transition to an allocating state is emitted.
    let next = worker.on_cycle_start(false);
    assert!(next.is_none());
    assert!(matches!(worker.phase, WorkerPhase::Finished));
}

#[test]
fn worker_cycle_roundtrip_is_clean() {
    match worker_cycle(4096, 100, 0) {
        CycleOutcome::Clean => {}
        CycleOutcome::AllocationFailed => panic!("allocation failed"),
        CycleOutcome::Corruption(_) => panic!("round trip reported corruption"),
    }
}

#[test]
fn worker_allocation_failure_reports_and_finishes() {
    let mut worker = Worker::new(4);
    worker.on_cycle_start(true);
    let msg = worker.on_allocated(false);
    match msg {
        Message::ThreadError(id, text) => {
            assert_eq!(id, "worker-4");
            assert_eq!(text, "Allocation failed");
        }
        _ => panic!("expected a failure report"),
    }
    assert!(matches!(worker.phase, WorkerPhase::Finished));
}
