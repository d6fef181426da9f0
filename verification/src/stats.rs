//! System memory statistics: the snapshot types the telemetry sampler
//! fills, and verified parsers for the text the outside collaborators hand
//! back (the output of the `free` utility and the kernel's zswap debug
//! counters).

use vstd::prelude::*;
use crate::text::{
    dec_parseable, dec_value, digits_of, parse_u128, parse_u8, sep_segments, split_char,
    split_whitespace_tokens, str_eq, trim, trimmed, ws_tokens,
};

verus! {

/// Totals and availability of RAM and swap, in bytes.
pub struct FreeStats {
    pub mem_total: u128,
    pub mem_available: u128,
    pub swap_total: u128,
    pub swap_available: u128,
}

/// Kernel zswap counters, in pages.
pub struct ZswapStats {
    pub written_back: u128,
    pub rejects: u128,
    pub pool_size: u128,
}

/// One immutable snapshot, replaced wholesale on every sampler tick.
pub struct MemStats {
    pub free: FreeStats,
    pub zswap: ZswapStats,
}

impl Default for FreeStats {
    /// An all-zero snapshot, shown until the first sample arrives.
    fn default() -> (r: FreeStats)
        ensures
            r.mem_total == 0 && r.mem_available == 0 && r.swap_total == 0 && r.swap_available
                == 0,
    {
        FreeStats { mem_total: 0, mem_available: 0, swap_total: 0, swap_available: 0 }
    }
}

impl Default for ZswapStats {
    fn default() -> (r: ZswapStats)
        ensures
            r.written_back == 0 && r.rejects == 0 && r.pool_size == 0,
    {
        ZswapStats { written_back: 0, rejects: 0, pool_size: 0 }
    }
}

impl Default for MemStats {
    fn default() -> (r: MemStats)
        ensures
            r.free.mem_total == 0 && r.free.mem_available == 0 && r.free.swap_total == 0
                && r.free.swap_available == 0,
            r.zswap.written_back == 0 && r.zswap.rejects == 0 && r.zswap.pool_size == 0,
    {
        MemStats { free: Default::default(), zswap: Default::default() }
    }
}

/// How parsing a statistics text can fail.
#[derive(Debug, Clone, Copy, PartialEq, Eq, Structural)]
pub enum StatsError {
    /// The `free` output has no second line to read memory numbers from.
    MissingMemLine,
    /// The memory line has no second column.
    MissingMemTotal,
    /// A required numeric field does not parse as a decimal number.
    BadNumber,
}

// ---------------------------------------------------------------------------
// Parsing `free -b` output
// ---------------------------------------------------------------------------

/// The swap-total field: taken from the second column of the third line
/// when that line starts with `Swap:`; a missing or malformed value is
/// silently left at zero.
pub open spec fn spec_swap_total(lines: Seq<Seq<char>>) -> u128 {
    if lines.len() > 2 {
        let sw = ws_tokens(lines[2]);
        if sw.len() > 1 && sw[0] == "Swap:"@ && dec_parseable(sw[1], u128::MAX as int) {
            dec_value(digits_of(sw[1])) as u128
        } else {
            0
        }
    } else {
        0
    }
}

/// The swap-available field: the fourth column of the `Swap:` line, under
/// the same silent fallback to zero.
pub open spec fn spec_swap_available(lines: Seq<Seq<char>>) -> u128 {
    if lines.len() > 2 {
        let sw = ws_tokens(lines[2]);
        if sw.len() > 3 && sw[0] == "Swap:"@ && dec_parseable(sw[3], u128::MAX as int) {
            dec_value(digits_of(sw[3])) as u128
        } else {
            0
        }
    } else {
        0
    }
}

/// What `parse_free` returns on a given text: the second line's second
/// column is the memory total and its last column the memory available;
/// the optional third `Swap:` line contributes the swap numbers.
pub open spec fn spec_parse_free(txt: Seq<char>) -> Result<FreeStats, StatsError> {
    let lines = sep_segments(txt, '\n');
    if lines.len() < 2 {
        Err(StatsError::MissingMemLine)
    } else {
        let mem = ws_tokens(lines[1]);
        if mem.len() < 2 {
            Err(StatsError::MissingMemTotal)
        } else if !dec_parseable(mem[1], u128::MAX as int) {
            Err(StatsError::BadNumber)
        } else if !dec_parseable(mem.last(), u128::MAX as int) {
            Err(StatsError::BadNumber)
        } else {
            Ok(
                FreeStats {
                    mem_total: dec_value(digits_of(mem[1])) as u128,
                    mem_available: dec_value(digits_of(mem.last())) as u128,
                    swap_total: spec_swap_total(lines),
                    swap_available: spec_swap_available(lines),
                },
            )
        }
    }
}

/// Parses the output of `free -b` into a `FreeStats` snapshot.
pub fn parse_free(txt: &str) -> (r: Result<FreeStats, StatsError>)
    ensures
        r == spec_parse_free(txt@),
{
    let ghost slines = sep_segments(txt@, '\n');
    let lines = split_char(txt, '\n');
    if lines.len() < 2 {
        return Err(StatsError::MissingMemLine);
    }
    proof {
        assert(lines.deep_view()[1] == slines[1]);
    }
    let mem = split_whitespace_tokens(lines[1]);
    if mem.len() < 2 {
        return Err(StatsError::MissingMemTotal);
    }
    proof {
        assert(mem.deep_view()[1] == ws_tokens(slines[1])[1]);
        assert(mem.deep_view()[mem.len() - 1] == ws_tokens(slines[1]).last());
    }
    let mem_total = match parse_u128(mem[1]) {
        Some(v) => v,
        None => {
            return Err(StatsError::BadNumber);
        },
    };
    let mem_available = match parse_u128(mem[mem.len() - 1]) {
        Some(v) => v,
        None => {
            return Err(StatsError::BadNumber);
        },
    };
    let mut swap_total: u128 = 0;
    let mut swap_available: u128 = 0;
    if lines.len() > 2 {
        proof {
            assert(lines.deep_view()[2] == slines[2]);
        }
        let sw = split_whitespace_tokens(lines[2]);
        let ghost ssw = ws_tokens(slines[2]);
        if sw.len() > 0 && str_eq(sw[0], "Swap:") {
            proof {
                assert(sw.deep_view()[0] == ssw[0]);
            }
            if sw.len() > 1 {
                proof {
                    assert(sw.deep_view()[1] == ssw[1]);
                }
                if let Some(n) = parse_u128(sw[1]) {
                    swap_total = n;
                }
            }
            if sw.len() > 3 {
                proof {
                    assert(sw.deep_view()[3] == ssw[3]);
                }
                if let Some(n) = parse_u128(sw[3]) {
                    swap_available = n;
                }
            }
        }
        proof {
            assert(swap_total == spec_swap_total(slines));
            assert(swap_available == spec_swap_available(slines));
        }
    }
    Ok(FreeStats { mem_total, mem_available, swap_total, swap_available })
}

// ---------------------------------------------------------------------------
// Parsing zswap counters
// ---------------------------------------------------------------------------

/// A kernel debug counter file: the number it holds after trimming
/// whitespace, or nothing when it does not parse.
pub open spec fn spec_counter_value(txt: Seq<char>) -> Option<u128> {
    if dec_parseable(trimmed(txt), u128::MAX as int) {
        Some(dec_value(digits_of(trimmed(txt))) as u128)
    } else {
        None
    }
}

/// Parses one zswap counter file's contents, as the original trim-and-parse
/// read does.
pub fn parse_counter(txt: &str) -> (r: Option<u128>)
    ensures
        r == spec_counter_value(txt@),
{
    parse_u128(trim(txt))
}

/// Packs the three zswap counter files (written-back pages, rejected
/// reclaims, stored pages) into a snapshot; any unparsable counter fails
/// the whole sample, counters read in that order.
pub fn parse_zswap(written_back_txt: &str, rejects_txt: &str, stored_txt: &str) -> (r: Result<
    ZswapStats,
    StatsError,
>)
    ensures
        r matches Ok(z) ==> {
            &&& Some(z.written_back) == spec_counter_value(written_back_txt@)
            &&& Some(z.rejects) == spec_counter_value(rejects_txt@)
            &&& Some(z.pool_size) == spec_counter_value(stored_txt@)
        },
        r is Err <==> spec_counter_value(written_back_txt@) is None || spec_counter_value(
            rejects_txt@,
        ) is None || spec_counter_value(stored_txt@) is None,
{
    let written_back = match parse_counter(written_back_txt) {
        Some(v) => v,
        None => {
            return Err(StatsError::BadNumber);
        },
    };
    let rejects = match parse_counter(rejects_txt) {
        Some(v) => v,
        None => {
            return Err(StatsError::BadNumber);
        },
    };
    let pool_size = match parse_counter(stored_txt) {
        Some(v) => v,
        None => {
            return Err(StatsError::BadNumber);
        },
    };
    Ok(ZswapStats { written_back, rejects, pool_size })
}

// ---------------------------------------------------------------------------
// Small value parsers used around the tools
// ---------------------------------------------------------------------------

/// How a percent argument can be rejected.
#[derive(Debug, Clone, Copy, PartialEq, Eq, Structural)]
pub enum PercentError {
    NotANumber,
    OverLimit,
}

/// Validates a percentage argument: a decimal number of at most 100.
pub fn u8_percent(s: &str) -> (r: Result<u8, PercentError>)
    ensures
        r matches Ok(v) ==> dec_parseable(s@, u8::MAX as int) && v == dec_value(digits_of(s@))
            && v <= 100,
        r == Err::<u8, PercentError>(PercentError::NotANumber) <==> !dec_parseable(
            s@,
            u8::MAX as int,
        ),
        r == Err::<u8, PercentError>(PercentError::OverLimit) <==> dec_parseable(
            s@,
            u8::MAX as int,
        ) && dec_value(digits_of(s@)) > 100,
{
    match parse_u8(s) {
        Some(v) => if v > 100 {
            Err(PercentError::OverLimit)
        } else {
            Ok(v)
        },
        None => Err(PercentError::NotANumber),
    }
}

/// Reads the leading counter from a kernel report line: the first
/// space-separated field parsed as a decimal number.
pub fn parse_peak_value(txt: &str) -> (r: Option<u64>)
    ensures
        r is Some <==> dec_parseable(sep_segments(txt@, ' ')[0], u64::MAX as int),
        r matches Some(v) ==> v == dec_value(digits_of(sep_segments(txt@, ' ')[0])),
{
    let parts = split_char(txt, ' ');
    proof {
        assert(parts.deep_view()[0] == sep_segments(txt@, ' ')[0]);
    }
    crate::text::parse_u64(parts[0])
}

} // verus!
