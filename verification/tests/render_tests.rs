use memstress::coordinator::{State, WorkerState};
use memstress::render::{
    fmt_duration, render_free_stats, render_state, render_workers_states, render_zswap_stats,
    row2, row3,
};
use memstress::stats::{FreeStats, MemStats, ZswapStats};

#[test]
fn durations_render_zero_padded() {
    assert_eq!(fmt_duration(0), "00:00:00");
    assert_eq!(fmt_duration(59), "00:00:59");
    assert_eq!(fmt_duration(61), "00:01:01");
    assert_eq!(fmt_duration(3661), "01:01:01");
    // Hours keep growing past two digits.
    assert_eq!(fmt_duration(360_000), "100:00:00");
}

#[test]
fn rows_match_std_formatting() {
    assert_eq!(row2("Elapsed:", "00:00:01", "<>"), format!("{: <30}{: >30}\n", "Elapsed:", "00:00:01"));
    assert_eq!(
        row3("MEMORY", "available", "total", "<>>"),
        format!("{: <20}{: >20}{: >20}\n", "MEMORY", "available", "total")
    );
    assert_eq!(
        row3("X", "", "", "^^^"),
        format!("{: ^20}{: ^20}{: ^20}\n", "X", "", "")
    );
}

#[test]
fn byte_counts_use_binary_units() {
    // The rendered table must carry byte_unit's own formatting of the
    // counts, not the raw numbers.
    let stats = FreeStats {
        mem_total: 1_048_576,
        mem_available: 2048,
        swap_total: 0,
        swap_available: 0,
    };
    let out = render_free_stats(&stats);
    let expected_total = byte_unit::Byte::from_bytes(1_048_576)
        .get_appropriate_unit(true)
        .to_string();
    let expected_avail = byte_unit::Byte::from_bytes(2048)
        .get_appropriate_unit(true)
        .to_string();
    assert!(out.contains(&expected_total), "missing {:?} in {:?}", expected_total, out);
    assert!(out.contains(&expected_avail), "missing {:?} in {:?}", expected_avail, out);
    assert!(!out.contains("1048576"));
}

#[test]
fn free_stats_table_shape() {
    let stats = FreeStats { mem_total: 0, mem_available: 0, swap_total: 0, swap_available: 0 };
    let out = render_free_stats(&stats);
    let lines: Vec<&str> = out.lines().collect();
    assert_eq!(lines.len(), 3);
    assert!(lines[0].starts_with("MEMORY"));
    assert!(lines[1].starts_with("Mem"));
    assert!(lines[2].starts_with("Swap"));
    // Every row is three 20-column cells.
    for line in lines {
        assert_eq!(line.chars().count(), 60);
    }
}

#[test]
fn zswap_table_scales_pages_to_bytes() {
    let stats = ZswapStats { written_back: 2, rejects: 7, pool_size: 256 };
    let out = render_zswap_stats(&stats);
    // 256 pages of 4096 bytes are a mebibyte.
    let mib = byte_unit::Byte::from_bytes(256 * 4096)
        .get_appropriate_unit(true)
        .to_string();
    assert!(out.contains(&mib));
    assert!(out.contains("256"));
    assert!(out.contains("writebacks"));
    assert!(out.contains("failures"));
    assert!(out.contains("7"));
}

#[test]
fn worker_matrix_marks_current_state() {
    let states = vec![WorkerState::Allocating, WorkerState::Holding, WorkerState::Verifying];
    let out = render_workers_states(&states);
    let lines: Vec<&str> = out.lines().collect();
    assert_eq!(lines.len(), 4);
    assert_eq!(lines[0], format!("{: ^20}{: ^20}{: ^20}", "Allocating", "Holding", "Verifying"));
    assert_eq!(lines[1], format!("{: ^20}{: ^20}{: ^20}", "X", "", ""));
    assert_eq!(lines[2], format!("{: ^20}{: ^20}{: ^20}", "", "X", ""));
    assert_eq!(lines[3], format!("{: ^20}{: ^20}{: ^20}", "", "", "X"));
}

#[test]
fn full_dashboard_renders_every_section() {
    let mut state = State::new(8192, 2);
    state.mem_stats = MemStats {
        free: FreeStats {
            mem_total: 4096,
            mem_available: 2048,
            swap_total: 1024,
            swap_available: 512,
        },
        zswap: ZswapStats { written_back: 0, rejects: 0, pool_size: 0 },
    };
    state.verifications = 5;
    let out = render_state(&state, 61);
    // The screen-clearing escape codes lead.
    assert!(out.starts_with("\u{1b}[2J\u{1b}[2J\u{1b}[1;1H"));
    assert!(out.contains("Elapsed:"));
    assert!(out.contains("00:01:01"));
    assert!(out.contains("Target:"));
    assert!(out.contains("Verifications:"));
    assert!(out.contains("5"));
    assert!(out.contains("MEMORY"));
    assert!(out.contains("ZSWAP"));
    assert!(out.contains("Allocating"));
    // One worker row per worker, under the header.
    let marks = out.lines().filter(|l| l.trim() == "X").count();
    assert_eq!(marks, 2);
}

#[test]
fn dashboard_tolerates_zeroed_stats() {
    let state = State::new(0, 1);
    let out = render_state(&state, 0);
    assert!(out.contains("00:00:00"));
    assert!(out.contains("MEMORY"));
}
