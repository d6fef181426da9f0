//! The kernel-allocator control tool's parameter block: the space-separated
//! line exchanged with its kernel configuration file (which keeps the
//! iteration time in nanoseconds, while the tool works in milliseconds),
//! and the command-line overrides applied to it.

use vstd::prelude::*;
use vstd::string::*;
use crate::boost_conf::ConfError;
use crate::text::{
    dec_digits, dec_parseable, dec_value, digits_of, lemma_dec_digits_all_digits,
    lemma_dec_digits_parseable, lemma_digits_not_char, lemma_sep_segments_prepend,
    lemma_sep_segments_single, parse_u128, parse_u16, parse_u64, sep_segments, split_char,
    u128_to_string,
};

verus! {

/// The kernel allocator's parameters, one line of six space-separated
/// numbers in its configuration file: iteration count, the allocation
/// target in bytes, the minimum and maximum allocation sizes, the
/// iteration time (in nanoseconds on the wire, milliseconds here), and the
/// hold time.
#[derive(Debug, Clone, Copy, PartialEq, Eq, Structural)]
pub struct Params {
    pub iterations: u16,
    pub max_iteration_time_ms: u64,
    pub max_allocation: u128,
    pub hold_time_ms: u64,
    pub min_allocation_size: u64,
    pub max_allocation_size: u64,
}

/// What `Params::from_str` yields on a given line; the fifth field is
/// divided by one million to turn nanoseconds into milliseconds.
pub open spec fn spec_parse_params(s: Seq<char>) -> Result<Params, ConfError> {
    let p = sep_segments(s, ' ');
    if p.len() != 6 {
        Err(ConfError::BadFormat)
    } else if !dec_parseable(p[0], u16::MAX as int) || !dec_parseable(p[1], u128::MAX as int)
        || !dec_parseable(p[2], u64::MAX as int) || !dec_parseable(p[3], u64::MAX as int)
        || !dec_parseable(p[4], u64::MAX as int) || !dec_parseable(p[5], u64::MAX as int) {
        Err(ConfError::BadNumber)
    } else {
        Ok(
            Params {
                iterations: dec_value(digits_of(p[0])) as u16,
                max_allocation: dec_value(digits_of(p[1])) as u128,
                min_allocation_size: dec_value(digits_of(p[2])) as u64,
                max_allocation_size: dec_value(digits_of(p[3])) as u64,
                max_iteration_time_ms: (dec_value(digits_of(p[4])) as u64) / 1_000_000u64,
                hold_time_ms: dec_value(digits_of(p[5])) as u64,
            },
        )
    }
}

/// The line `Params::to_str` writes back: the six fields in file order,
/// the iteration time scaled back up to nanoseconds.
pub open spec fn spec_params_line(p: Params) -> Seq<char> {
    dec_digits(p.iterations as nat) + " "@ + dec_digits(p.max_allocation as nat) + " "@
        + dec_digits(p.min_allocation_size as nat) + " "@ + dec_digits(
        p.max_allocation_size as nat,
    ) + " "@ + dec_digits((p.max_iteration_time_ms * 1_000_000) as nat) + " "@ + dec_digits(
        p.hold_time_ms as nat,
    )
}

impl Params {
    /// Parses the six space-separated fields of a configuration line.
    pub fn from_str(s: &str) -> (r: Result<Params, ConfError>)
        ensures
            r == spec_parse_params(s@),
    {
        let ghost sp = sep_segments(s@, ' ');
        let parts = split_char(s, ' ');
        if parts.len() != 6 {
            return Err(ConfError::BadFormat);
        }
        proof {
            assert forall|i: int| 0 <= i < 6 implies parts.deep_view()[i] == sp[i] by {}
        }
        let iterations = match parse_u16(parts[0]) {
            Some(v) => v,
            None => {
                return Err(ConfError::BadNumber);
            },
        };
        let max_allocation = match parse_u128(parts[1]) {
            Some(v) => v,
            None => {
                return Err(ConfError::BadNumber);
            },
        };
        let min_allocation_size = match parse_u64(parts[2]) {
            Some(v) => v,
            None => {
                return Err(ConfError::BadNumber);
            },
        };
        let max_allocation_size = match parse_u64(parts[3]) {
            Some(v) => v,
            None => {
                return Err(ConfError::BadNumber);
            },
        };
        let iteration_time_ns = match parse_u64(parts[4]) {
            Some(v) => v,
            None => {
                return Err(ConfError::BadNumber);
            },
        };
        let hold_time_ms = match parse_u64(parts[5]) {
            Some(v) => v,
            None => {
                return Err(ConfError::BadNumber);
            },
        };
        Ok(
            Params {
                iterations,
                max_allocation,
                min_allocation_size,
                max_allocation_size,
                max_iteration_time_ms: iteration_time_ns / 1_000_000,
                hold_time_ms,
            },
        )
    }

    /// Renders the parameters as the configuration line to write back. The
    /// iteration time must survive the scaling back to nanoseconds.
    pub fn to_str(&self) -> (r: String)
        requires
            self.max_iteration_time_ms <= u64::MAX / 1_000_000,
        ensures
            r@ == spec_params_line(*self),
    {
        proof {
            reveal_strlit(" ");
        }
        let mut out = u128_to_string(self.iterations as u128);
        out.append(" ");
        let ma = u128_to_string(self.max_allocation);
        out.append(ma.as_str());
        out.append(" ");
        let mi = u128_to_string(self.min_allocation_size as u128);
        out.append(mi.as_str());
        out.append(" ");
        let mx = u128_to_string(self.max_allocation_size as u128);
        out.append(mx.as_str());
        out.append(" ");
        let ns = u128_to_string((self.max_iteration_time_ms * 1_000_000) as u128);
        out.append(ns.as_str());
        out.append(" ");
        let ht = u128_to_string(self.hold_time_ms as u128);
        out.append(ht.as_str());
        out
    }

    /// Applies command-line overrides: each field changes only where a
    /// value was supplied; the two size orders set the corresponding
    /// allocation size to two to the power of twelve plus the order.
    pub fn apply(&mut self, update: &ParamsUpdate)
        requires
            update.min_allocation_size_order matches Some(o) ==> o <= 51,
            update.max_allocation_size_order matches Some(o) ==> o <= 51,
        ensures
            final(self).iterations == match update.iterations {
                Some(v) => v,
                None => old(self).iterations,
            },
            final(self).max_iteration_time_ms == match update.max_iteration_time_ms {
                Some(v) => v,
                None => old(self).max_iteration_time_ms,
            },
            final(self).max_allocation == match update.max_allocation {
                Some(v) => v,
                None => old(self).max_allocation,
            },
            final(self).hold_time_ms == match update.hold_time_ms {
                Some(v) => v,
                None => old(self).hold_time_ms,
            },
            final(self).max_allocation_size == match update.max_allocation_size_order {
                Some(o) => (1u64 << ((12 + o) as u64)) as u64,
                None => old(self).max_allocation_size,
            },
            final(self).min_allocation_size == match update.min_allocation_size_order {
                Some(o) => (1u64 << ((12 + o) as u64)) as u64,
                None => old(self).min_allocation_size,
            },
    {
        if let Some(iterations) = update.iterations {
            self.iterations = iterations;
        }
        if let Some(max_iteration_time_ms) = update.max_iteration_time_ms {
            self.max_iteration_time_ms = max_iteration_time_ms;
        }
        if let Some(max_allocation) = update.max_allocation {
            self.max_allocation = max_allocation;
        }
        if let Some(hold_time_ms) = update.hold_time_ms {
            self.hold_time_ms = hold_time_ms;
        }
        if let Some(max_order) = update.max_allocation_size_order {
            self.max_allocation_size = 1u64 << ((12 + max_order) as u64);
        }
        if let Some(min_order) = update.min_allocation_size_order {
            self.min_allocation_size = 1u64 << ((12 + min_order) as u64);
        }
    }
}

/// The overrides the command line may carry: an optional value per field,
/// the allocation sizes given as page orders.
pub struct ParamsUpdate {
    pub iterations: Option<u16>,
    pub max_iteration_time_ms: Option<u64>,
    pub max_allocation: Option<u128>,
    pub hold_time_ms: Option<u64>,
    pub min_allocation_size_order: Option<u8>,
    pub max_allocation_size_order: Option<u8>,
}

/// Reassociates a six-field line into the right-nested shape the splitting
/// lemmas consume.
#[verifier::rlimit(100)]
proof fn lemma_six_concat(
    f0: Seq<char>,
    f1: Seq<char>,
    f2: Seq<char>,
    f3: Seq<char>,
    f4: Seq<char>,
    f5: Seq<char>,
)
    ensures
        f0 + " "@ + f1 + " "@ + f2 + " "@ + f3 + " "@ + f4 + " "@ + f5 =~= f0 + seq![' '] + (f1
            + seq![' '] + (f2 + seq![' '] + (f3 + seq![' '] + (f4 + seq![' '] + f5)))),
{
    reveal_strlit(" ");
    assert(" "@ =~= seq![' ']);
}

/// The rendered line splits back into its six fields.
#[verifier::rlimit(100)]
proof fn lemma_params_line_splits(p: Params)
    ensures
        sep_segments(spec_params_line(p), ' ') =~= seq![
            dec_digits(p.iterations as nat),
            dec_digits(p.max_allocation as nat),
            dec_digits(p.min_allocation_size as nat),
            dec_digits(p.max_allocation_size as nat),
            dec_digits((p.max_iteration_time_ms * 1_000_000) as nat),
            dec_digits(p.hold_time_ms as nat),
        ],
{
    let f0 = dec_digits(p.iterations as nat);
    let f1 = dec_digits(p.max_allocation as nat);
    let f2 = dec_digits(p.min_allocation_size as nat);
    let f3 = dec_digits(p.max_allocation_size as nat);
    let f4 = dec_digits((p.max_iteration_time_ms * 1_000_000) as nat);
    let f5 = dec_digits(p.hold_time_ms as nat);
    lemma_dec_digits_all_digits(p.iterations as nat);
    lemma_dec_digits_all_digits(p.max_allocation as nat);
    lemma_dec_digits_all_digits(p.min_allocation_size as nat);
    lemma_dec_digits_all_digits(p.max_allocation_size as nat);
    lemma_dec_digits_all_digits((p.max_iteration_time_ms * 1_000_000) as nat);
    lemma_dec_digits_all_digits(p.hold_time_ms as nat);
    lemma_digits_not_char(f0, ' ');
    lemma_digits_not_char(f1, ' ');
    lemma_digits_not_char(f2, ' ');
    lemma_digits_not_char(f3, ' ');
    lemma_digits_not_char(f4, ' ');
    lemma_digits_not_char(f5, ' ');
    let tail4 = f4 + seq![' '] + f5;
    let tail3 = f3 + seq![' '] + tail4;
    let tail2 = f2 + seq![' '] + tail3;
    let tail1 = f1 + seq![' '] + tail2;
    lemma_six_concat(f0, f1, f2, f3, f4, f5);
    assert(spec_params_line(p) == f0 + seq![' '] + tail1);
    lemma_sep_segments_prepend(f0, ' ', tail1);
    lemma_sep_segments_prepend(f1, ' ', tail2);
    lemma_sep_segments_prepend(f2, ' ', tail3);
    lemma_sep_segments_prepend(f3, ' ', tail4);
    lemma_sep_segments_prepend(f4, ' ', f5);
    lemma_sep_segments_single(f5, ' ');
}

/// Round trip: parsing a rendered parameter line yields the parameters
/// unchanged, as long as the iteration time survives the scaling to
/// nanoseconds (the same bound rendering itself needs).
#[verifier::rlimit(100)]
pub proof fn lemma_params_line_round_trip(p: Params)
    requires
        p.max_iteration_time_ms <= u64::MAX / 1_000_000,
    ensures
        spec_parse_params(spec_params_line(p)) == Ok::<Params, ConfError>(p),
{
    lemma_params_line_splits(p);
    let ns = p.max_iteration_time_ms * 1_000_000;
    assert(ns <= u64::MAX) by {
        vstd::arithmetic::mul::lemma_mul_inequality(
            p.max_iteration_time_ms as int,
            (u64::MAX / 1_000_000) as int,
            1_000_000,
        );
        vstd::arithmetic::div_mod::lemma_fundamental_div_mod(u64::MAX as int, 1_000_000);
        vstd::arithmetic::div_mod::lemma_mod_bound(u64::MAX as int, 1_000_000);
    }
    lemma_dec_digits_parseable(p.iterations as nat, u16::MAX as int);
    lemma_dec_digits_parseable(p.max_allocation as nat, u128::MAX as int);
    lemma_dec_digits_parseable(p.min_allocation_size as nat, u64::MAX as int);
    lemma_dec_digits_parseable(p.max_allocation_size as nat, u64::MAX as int);
    lemma_dec_digits_parseable(ns as nat, u64::MAX as int);
    lemma_dec_digits_parseable(p.hold_time_ms as nat, u64::MAX as int);
    assert((ns as u64) / 1_000_000u64 == p.max_iteration_time_ms) by {
        vstd::arithmetic::mul::lemma_mul_is_commutative(p.max_iteration_time_ms as int, 1_000_000);
        vstd::arithmetic::div_mod::lemma_div_multiples_vanish(
            p.max_iteration_time_ms as int,
            1_000_000,
        );
    }
}

} // verus!
