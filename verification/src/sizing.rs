//! Allocation sizing: how much memory the run targets and how it is
//! divided among the workers. When no explicit byte budget is given, the
//! target is the available RAM plus a fixed discount (two fifths) of the
//! available swap; the per-thread share is always rounded up to a whole
//! number of 4096-byte pages.

use vstd::prelude::*;
use crate::stats::FreeStats;

verus! {

/// The memory a run may target when no byte budget was given: available
/// RAM plus two fifths of available swap.
pub open spec fn spec_available_memory(free: FreeStats) -> int {
    free.mem_available + free.swap_available * 2 / 5
}

/// Computes the target byte budget from a statistics snapshot. The bounds
/// keep the discounted sum inside the machine word; real memory sizes sit
/// far below them.
pub fn get_available_memory(free: &FreeStats) -> (r: u128)
    requires
        free.swap_available <= u128::MAX / 2,
        free.mem_available + free.swap_available * 2 / 5 <= u128::MAX,
    ensures
        r == spec_available_memory(*free),
{
    free.mem_available + free.swap_available * 2 / 5
}

/// Rounds `n` up to the next multiple of 4096, always adding at least one
/// byte of headroom (an exact multiple is still bumped by a full page).
pub fn page_round_up(n: usize) -> (r: usize)
    requires
        n + 4096 <= usize::MAX,
    ensures
        r % 4096 == 0,
        r > n,
        r <= n + 4096,
{
    n + (4096 - (n % 4096))
}

/// Splits the total byte budget evenly over the workers: each gets its
/// even share rounded up to a whole page, so the per-thread size is at
/// least `total / threads`, a multiple of 4096, and overshoots the even
/// share by at most one page.
pub fn compute_thread_allocation_size(total_bytes: u128, threads: u16) -> (r: usize)
    requires
        threads >= 1,
        total_bytes / (threads as u128) + 4096 <= usize::MAX,
    ensures
        r % 4096 == 0,
        r > total_bytes / (threads as u128),
        r <= total_bytes / (threads as u128) + 4096,
{
    let per_thread: usize = (total_bytes / (threads as u128)) as usize;
    page_round_up(per_thread)
}

} // verus!
