//! The renderer: a pure projection of the aggregate run state onto the
//! full-screen textual dashboard. Every function returns the text to show;
//! printing it is the caller's business. Rows come in two shapes: two
//! 30-column cells or three 20-column cells, each cell left-aligned,
//! right-aligned or (in three-cell rows) centered.

use vstd::prelude::*;
use vstd::string::*;
use crate::coordinator::{State, WorkerState};
use crate::stats::{FreeStats, ZswapStats};
use crate::text::{
    dec_digits, pad_center, pad_center_spec, pad_left, pad_left_spec, pad_right, pad_right_spec,
    u128_to_string, u64_to_string_pad2, zero_pad2,
};

verus! {

// ---------------------------------------------------------------------------
// Byte counts in human units
// ---------------------------------------------------------------------------

/// The rendering byte_unit gives a byte count in binary-multiple units
/// (for example a mebibyte count with two decimals and the `MiB` suffix):
/// a function of the count alone.
pub uninterp spec fn bytes_display(n: u128) -> Seq<char>;

/// Relies on byte_unit's `Byte::from_bytes`, `Byte::get_appropriate_unit`
/// (with binary multiples) and the `Display` of the adjusted value: picks
/// the appropriate binary unit for the count and renders it; the result
/// depends on the count alone.
#[verifier::external_body]
pub(crate) fn fmtb(bytes: u128) -> (r: String)
    ensures
        r@ == bytes_display(bytes),
{
    byte_unit::Byte::from_bytes(bytes).get_appropriate_unit(true).to_string()
}

// ---------------------------------------------------------------------------
// Rows
// ---------------------------------------------------------------------------

/// One cell of a row: the item padded to the column width according to the
/// alignment character.
pub open spec fn spec_cell(item: Seq<char>, align: char, w: nat) -> Seq<char> {
    if align == '<' {
        pad_right_spec(item, w)
    } else if align == '>' {
        pad_left_spec(item, w)
    } else {
        pad_center_spec(item, w)
    }
}

/// A dashboard row of two 30-column cells.
pub open spec fn spec_row2(a: Seq<char>, b: Seq<char>, aligns: Seq<char>) -> Seq<char> {
    spec_cell(a, aligns[0], 30) + spec_cell(b, aligns[1], 30) + seq!['\n']
}

/// A dashboard row of three 20-column cells.
pub open spec fn spec_row3(a: Seq<char>, b: Seq<char>, c: Seq<char>, aligns: Seq<char>) -> Seq<
    char,
> {
    spec_cell(a, aligns[0], 20) + spec_cell(b, aligns[1], 20) + spec_cell(c, aligns[2], 20)
        + seq!['\n']
}

fn cell_string(item: &str, align: char, w: usize) -> (r: String)
    requires
        align == '<' || align == '>' || align == '^',
    ensures
        r@ == spec_cell(item@, align, w as nat),
{
    if align == '<' {
        pad_right(item, w)
    } else if align == '>' {
        pad_left(item, w)
    } else {
        pad_center(item, w)
    }
}

/// Renders a two-cell row; alignments may be `<` or `>` per cell.
pub fn row2(a: &str, b: &str, aligns: &str) -> (r: String)
    requires
        aligns@.len() == 2,
        forall|i: int| 0 <= i < 2 ==> (aligns@[i] == '<' || aligns@[i] == '>'),
    ensures
        r@ == spec_row2(a@, b@, aligns@),
{
    let mut out = cell_string(a, aligns.get_char(0), 30);
    let second = cell_string(b, aligns.get_char(1), 30);
    out.append(second.as_str());
    proof {
        reveal_strlit("\n");
    }
    out.append("\n");
    proof {
        assert(out@ =~= spec_row2(a@, b@, aligns@));
    }
    out
}

/// Renders a three-cell row; alignments may be `<`, `>` or `^` per cell.
pub fn row3(a: &str, b: &str, c: &str, aligns: &str) -> (r: String)
    requires
        aligns@.len() == 3,
        forall|i: int|
            0 <= i < 3 ==> (aligns@[i] == '<' || aligns@[i] == '>' || aligns@[i] == '^'),
    ensures
        r@ == spec_row3(a@, b@, c@, aligns@),
{
    let mut out = cell_string(a, aligns.get_char(0), 20);
    let second = cell_string(b, aligns.get_char(1), 20);
    out.append(second.as_str());
    let third = cell_string(c, aligns.get_char(2), 20);
    out.append(third.as_str());
    proof {
        reveal_strlit("\n");
    }
    out.append("\n");
    proof {
        assert(out@ =~= spec_row3(a@, b@, c@, aligns@));
    }
    out
}

// ---------------------------------------------------------------------------
// Elapsed time
// ---------------------------------------------------------------------------

/// A second count as `HH:MM:SS`, each part zero-padded to two digits.
pub open spec fn spec_duration(seconds: nat) -> Seq<char> {
    zero_pad2((seconds / 60) / 60) + seq![':'] + zero_pad2((seconds / 60) % 60) + seq![':']
        + zero_pad2(seconds % 60)
}

/// Renders a second count as `HH:MM:SS`.
pub fn fmt_duration(seconds: u64) -> (r: String)
    ensures
        r@ == spec_duration(seconds as nat),
{
    let minutes = (seconds / 60) % 60;
    let hours = (seconds / 60) / 60;
    let secs = seconds % 60;
    let mut out = u64_to_string_pad2(hours);
    proof {
        reveal_strlit(":");
    }
    out.append(":");
    let m = u64_to_string_pad2(minutes);
    out.append(m.as_str());
    out.append(":");
    let s = u64_to_string_pad2(secs);
    out.append(s.as_str());
    proof {
        assert(out@ =~= spec_duration(seconds as nat));
    }
    out
}

// ---------------------------------------------------------------------------
// The dashboard sections
// ---------------------------------------------------------------------------

/// The memory/swap table: a header row, the RAM row and the swap row, each
/// with available and total counts in human units.
pub open spec fn spec_free_stats_render(s: FreeStats) -> Seq<char> {
    spec_row3("MEMORY"@, "available"@, "total"@, "<>>"@) + spec_row3(
        "Mem"@,
        bytes_display(s.mem_available),
        bytes_display(s.mem_total),
        "<>>"@,
    ) + spec_row3("Swap"@, bytes_display(s.swap_available), bytes_display(s.swap_total), "<>>"@)
}

pub fn render_free_stats(stats: &FreeStats) -> (r: String)
    ensures
        r@ == spec_free_stats_render(*stats),
{
    proof {
        reveal_strlit("<>>");
    }
    let mut out = row3("MEMORY", "available", "total", "<>>");
    let avail = fmtb(stats.mem_available);
    let total = fmtb(stats.mem_total);
    let mem_row = row3("Mem", avail.as_str(), total.as_str(), "<>>");
    out.append(mem_row.as_str());
    let s_avail = fmtb(stats.swap_available);
    let s_total = fmtb(stats.swap_total);
    let swap_row = row3("Swap", s_avail.as_str(), s_total.as_str(), "<>>");
    out.append(swap_row.as_str());
    proof {
        assert(out@ =~= spec_free_stats_render(*stats));
    }
    out
}

/// The zswap table: pool size and writebacks both as bytes (pages times
/// 4096) and as page counts, and the reject counter.
pub open spec fn spec_zswap_stats_render(s: ZswapStats) -> Seq<char> {
    spec_row3("ZSWAP"@, "bytes"@, "pages"@, "<>>"@) + spec_row3(
        "size"@,
        bytes_display((s.pool_size * 4096) as u128),
        dec_digits(s.pool_size as nat),
        "<>>"@,
    ) + spec_row3(
        "writebacks"@,
        bytes_display((s.written_back * 4096) as u128),
        dec_digits(s.written_back as nat),
        "<>>"@,
    ) + spec_row3("failures"@, "-"@, dec_digits(s.rejects as nat), "<>>"@)
}

pub fn render_zswap_stats(stats: &ZswapStats) -> (r: String)
    requires
        stats.pool_size <= u128::MAX / 4096,
        stats.written_back <= u128::MAX / 4096,
    ensures
        r@ == spec_zswap_stats_render(*stats),
{
    proof {
        reveal_strlit("<>>");
    }
    let mut out = row3("ZSWAP", "bytes", "pages", "<>>");
    let pool_bytes = fmtb(stats.pool_size * 4096);
    let pool_pages = u128_to_string(stats.pool_size);
    let size_row = row3("size", pool_bytes.as_str(), pool_pages.as_str(), "<>>");
    out.append(size_row.as_str());
    let wb_bytes = fmtb(stats.written_back * 4096);
    let wb_pages = u128_to_string(stats.written_back);
    let wb_row = row3("writebacks", wb_bytes.as_str(), wb_pages.as_str(), "<>>");
    out.append(wb_row.as_str());
    let rejects = u128_to_string(stats.rejects);
    let fail_row = row3("failures", "-", rejects.as_str(), "<>>");
    out.append(fail_row.as_str());
    proof {
        assert(out@ =~= spec_zswap_stats_render(*stats));
    }
    out
}

/// One worker's row of the state matrix: an `X` in the column of its
/// current state.
pub open spec fn spec_worker_row(ws: WorkerState) -> Seq<char> {
    match ws {
        WorkerState::Allocating => spec_row3("X"@, ""@, ""@, "^^^"@),
        WorkerState::Holding => spec_row3(""@, "X"@, ""@, "^^^"@),
        WorkerState::Verifying => spec_row3(""@, ""@, "X"@, "^^^"@),
    }
}

pub open spec fn spec_worker_rows_from(states: Seq<WorkerState>, i: int) -> Seq<char>
    decreases states.len() - i,
    when 0 <= i <= states.len()
{
    if i >= states.len() {
        Seq::empty()
    } else {
        spec_worker_row(states[i]) + spec_worker_rows_from(states, i + 1)
    }
}

/// The worker-state matrix: a centered header naming the three states,
/// then one row per worker marking its current state.
pub open spec fn spec_workers_render(states: Seq<WorkerState>) -> Seq<char> {
    spec_row3("Allocating"@, "Holding"@, "Verifying"@, "^^^"@) + spec_worker_rows_from(states, 0)
}

pub fn render_workers_states(states: &Vec<WorkerState>) -> (r: String)
    ensures
        r@ == spec_workers_render(states@),
{
    proof {
        reveal_strlit("^^^");
    }
    let mut out = row3("Allocating", "Holding", "Verifying", "^^^");
    let mut i: usize = 0;
    while i < states.len()
        invariant
            0 <= i <= states@.len(),
            out@ + spec_worker_rows_from(states@, i as int) == spec_workers_render(states@),
        decreases states@.len() - i,
    {
        proof {
            reveal_strlit("^^^");
        }
        let row = match states[i] {
            WorkerState::Allocating => row3("X", "", "", "^^^"),
            WorkerState::Holding => row3("", "X", "", "^^^"),
            WorkerState::Verifying => row3("", "", "X", "^^^"),
        };
        out.append(row.as_str());
        proof {
            assert(out@ + spec_worker_rows_from(states@, i + 1) =~= spec_workers_render(states@));
        }
        i = i + 1;
    }
    proof {
        assert(out@ =~= spec_workers_render(states@));
    }
    out
}

/// The whole dashboard: the screen-clearing escape codes, the elapsed
/// time, the target size, the verification counter, then the memory,
/// zswap and worker tables separated by blank lines.
pub open spec fn spec_state_render(st: State, elapsed_secs: nat) -> Seq<char> {
    "\u{1b}[2J\u{1b}[2J\u{1b}[1;1H"@ + spec_row2("Elapsed:"@, spec_duration(elapsed_secs), "<>"@)
        + spec_row2("Target:"@, bytes_display(st.target), "<>"@) + spec_row2(
        "Verifications:"@,
        dec_digits(st.verifications as nat),
        "<>"@,
    ) + seq!['\n'] + spec_free_stats_render(st.mem_stats.free) + seq!['\n']
        + spec_zswap_stats_render(st.mem_stats.zswap) + seq!['\n'] + spec_workers_render(
        st.workers@,
    )
}

/// Renders the full dashboard for the given state and elapsed time.
pub fn render_state(state: &State, elapsed_secs: u64) -> (r: String)
    requires
        state.mem_stats.zswap.pool_size <= u128::MAX / 4096,
        state.mem_stats.zswap.written_back <= u128::MAX / 4096,
    ensures
        r@ == spec_state_render(*state, elapsed_secs as nat),
{
    proof {
        reveal_strlit("<>");
    }
    let mut out = String::from_str("\u{1b}[2J\u{1b}[2J\u{1b}[1;1H");
    let duration = fmt_duration(elapsed_secs);
    let elapsed_row = row2("Elapsed:", duration.as_str(), "<>");
    out.append(elapsed_row.as_str());
    let target = fmtb(state.target);
    let target_row = row2("Target:", target.as_str(), "<>");
    out.append(target_row.as_str());
    let count = u128_to_string(state.verifications);
    let count_row = row2("Verifications:", count.as_str(), "<>");
    out.append(count_row.as_str());
    proof {
        reveal_strlit("\n");
    }
    out.append("\n");
    let free = render_free_stats(&state.mem_stats.free);
    out.append(free.as_str());
    out.append("\n");
    let zswap = render_zswap_stats(&state.mem_stats.zswap);
    out.append(zswap.as_str());
    out.append("\n");
    let workers = render_workers_states(&state.workers);
    out.append(workers.as_str());
    proof {
        assert(out@ =~= spec_state_render(*state, elapsed_secs as nat));
    }
    out
}

} // verus!
