//! The atomic-boost control tool's parameter block: the space-separated
//! line read from and written back to its kernel configuration file, and
//! the command-line overrides applied to it. Reading and writing the file
//! itself is the surrounding program's business; this module owns the
//! format.

use vstd::prelude::*;
use vstd::string::*;
use crate::text::{
    dec_digits, dec_parseable, dec_value, digit_value, digits_of, lemma_dec_digits_parseable,
    lemma_digits_not_char, lemma_sep_segments_prepend, lemma_sep_segments_single, parse_u64,
    parse_u8, sep_segments, split_char, u128_to_string,
};

verus! {

/// A ratio given as `numerator/denominator`.
#[derive(Debug, Clone, Copy, PartialEq, Eq, Structural)]
pub struct Ratio {
    pub numerator: u64,
    pub denominator: u64,
}

/// How a parameter line or a ratio argument can be rejected.
#[derive(Debug, Clone, Copy, PartialEq, Eq, Structural)]
pub enum ConfError {
    /// The wrong number of fields (a ratio takes exactly two, a parameter
    /// line exactly seven).
    BadFormat,
    /// A field does not parse as a decimal number of its width.
    BadNumber,
}

/// Parses `numerator/denominator`, rejecting anything but exactly two
/// `/`-separated decimal numbers.
pub fn parse_ratio(s: &str) -> (r: Result<Ratio, ConfError>)
    ensures
        ({
            let parts = sep_segments(s@, '/');
            &&& (r == Err::<Ratio, ConfError>(ConfError::BadFormat) <==> parts.len() != 2)
            &&& (r matches Ok(ratio) ==> {
                &&& parts.len() == 2
                &&& dec_parseable(parts[0], u64::MAX as int)
                &&& dec_parseable(parts[1], u64::MAX as int)
                &&& ratio.numerator == dec_value(digits_of(parts[0]))
                &&& ratio.denominator == dec_value(digits_of(parts[1]))
            })
            &&& (r is Err <==> parts.len() != 2 || !dec_parseable(parts[0], u64::MAX as int)
                || !dec_parseable(parts[1], u64::MAX as int))
        }),
{
    let parts = split_char(s, '/');
    if parts.len() != 2 {
        return Err(ConfError::BadFormat);
    }
    proof {
        assert(parts.deep_view()[0] == sep_segments(s@, '/')[0]);
        assert(parts.deep_view()[1] == sep_segments(s@, '/')[1]);
    }
    let numerator = match parse_u64(parts[0]) {
        Some(v) => v,
        None => {
            return Err(ConfError::BadNumber);
        },
    };
    let denominator = match parse_u64(parts[1]) {
        Some(v) => v,
        None => {
            return Err(ConfError::BadNumber);
        },
    };
    Ok(Ratio { numerator, denominator })
}

/// The boost controller's parameters, one line of seven space-separated
/// numbers in its configuration file: enabled flag (0 or 1), run interval,
/// the two adjustment intervals in nanoseconds, the boost step, and the
/// low ratio's numerator and denominator.
#[derive(Debug, Clone, Copy, PartialEq, Eq, Structural)]
pub struct Params {
    pub enabled: bool,
    pub run_interval: u8,
    pub min_increase_interval_ns: u64,
    pub min_decrease_interval_ns: u64,
    pub boost_step: u64,
    pub low_ratio: Ratio,
}

/// What `Params::from_str` yields on a given line.
pub open spec fn spec_parse_params(s: Seq<char>) -> Result<Params, ConfError> {
    let p = sep_segments(s, ' ');
    if p.len() != 7 {
        Err(ConfError::BadFormat)
    } else if !dec_parseable(p[0], u8::MAX as int) || !dec_parseable(p[1], u8::MAX as int)
        || !dec_parseable(p[2], u64::MAX as int) || !dec_parseable(p[3], u64::MAX as int)
        || !dec_parseable(p[4], u64::MAX as int) || !dec_parseable(p[5], u64::MAX as int)
        || !dec_parseable(p[6], u64::MAX as int) {
        Err(ConfError::BadNumber)
    } else {
        Ok(
            Params {
                enabled: dec_value(digits_of(p[0])) > 0,
                run_interval: dec_value(digits_of(p[1])) as u8,
                min_increase_interval_ns: dec_value(digits_of(p[2])) as u64,
                min_decrease_interval_ns: dec_value(digits_of(p[3])) as u64,
                boost_step: dec_value(digits_of(p[4])) as u64,
                low_ratio: Ratio {
                    numerator: dec_value(digits_of(p[5])) as u64,
                    denominator: dec_value(digits_of(p[6])) as u64,
                },
            },
        )
    }
}

/// The line `Params::to_str` writes back: the seven fields in the same
/// order, space-separated, the enabled flag as `1` or `0`.
pub open spec fn spec_params_line(p: Params) -> Seq<char> {
    (if p.enabled {
        "1"@
    } else {
        "0"@
    }) + " "@ + dec_digits(p.run_interval as nat) + " "@ + dec_digits(
        p.min_increase_interval_ns as nat,
    ) + " "@ + dec_digits(p.min_decrease_interval_ns as nat) + " "@ + dec_digits(
        p.boost_step as nat,
    ) + " "@ + dec_digits(p.low_ratio.numerator as nat) + " "@ + dec_digits(
        p.low_ratio.denominator as nat,
    )
}

impl Params {
    /// Parses the seven space-separated fields of a configuration line.
    pub fn from_str(s: &str) -> (r: Result<Params, ConfError>)
        ensures
            r == spec_parse_params(s@),
    {
        let ghost sp = sep_segments(s@, ' ');
        let parts = split_char(s, ' ');
        if parts.len() != 7 {
            return Err(ConfError::BadFormat);
        }
        proof {
            assert forall|i: int| 0 <= i < 7 implies parts.deep_view()[i] == sp[i] by {}
        }
        let enabled_raw = match parse_u8(parts[0]) {
            Some(v) => v,
            None => {
                return Err(ConfError::BadNumber);
            },
        };
        let run_interval = match parse_u8(parts[1]) {
            Some(v) => v,
            None => {
                return Err(ConfError::BadNumber);
            },
        };
        let min_increase_interval_ns = match parse_u64(parts[2]) {
            Some(v) => v,
            None => {
                return Err(ConfError::BadNumber);
            },
        };
        let min_decrease_interval_ns = match parse_u64(parts[3]) {
            Some(v) => v,
            None => {
                return Err(ConfError::BadNumber);
            },
        };
        let boost_step = match parse_u64(parts[4]) {
            Some(v) => v,
            None => {
                return Err(ConfError::BadNumber);
            },
        };
        let numerator = match parse_u64(parts[5]) {
            Some(v) => v,
            None => {
                return Err(ConfError::BadNumber);
            },
        };
        let denominator = match parse_u64(parts[6]) {
            Some(v) => v,
            None => {
                return Err(ConfError::BadNumber);
            },
        };
        Ok(
            Params {
                enabled: enabled_raw > 0,
                run_interval,
                min_increase_interval_ns,
                min_decrease_interval_ns,
                boost_step,
                low_ratio: Ratio { numerator, denominator },
            },
        )
    }

    /// Renders the parameters as the configuration line to write back.
    pub fn to_str(&self) -> (r: String)
        ensures
            r@ == spec_params_line(*self),
    {
        proof {
            reveal_strlit("1");
            reveal_strlit("0");
            reveal_strlit(" ");
        }
        let mut out = String::from_str(if self.enabled {
            "1"
        } else {
            "0"
        });
        out.append(" ");
        let ri = u128_to_string(self.run_interval as u128);
        out.append(ri.as_str());
        out.append(" ");
        let mi = u128_to_string(self.min_increase_interval_ns as u128);
        out.append(mi.as_str());
        out.append(" ");
        let md = u128_to_string(self.min_decrease_interval_ns as u128);
        out.append(md.as_str());
        out.append(" ");
        let bs = u128_to_string(self.boost_step as u128);
        out.append(bs.as_str());
        out.append(" ");
        let num = u128_to_string(self.low_ratio.numerator as u128);
        out.append(num.as_str());
        out.append(" ");
        let den = u128_to_string(self.low_ratio.denominator as u128);
        out.append(den.as_str());
        out
    }

    /// Applies command-line overrides: the enabled flag changes only when
    /// one of the two switches was given (`on` wins where both are), and
    /// every other field changes only where a value was supplied.
    pub fn apply(&mut self, update: &ParamsUpdate)
        ensures
            final(self).enabled == if update.on || update.off {
                update.on
            } else {
                old(self).enabled
            },
            final(self).run_interval == match update.run_interval {
                Some(v) => v,
                None => old(self).run_interval,
            },
            final(self).min_increase_interval_ns == match update.min_increase_interval_ns {
                Some(v) => v,
                None => old(self).min_increase_interval_ns,
            },
            final(self).min_decrease_interval_ns == match update.min_decrease_interval_ns {
                Some(v) => v,
                None => old(self).min_decrease_interval_ns,
            },
            final(self).boost_step == match update.boost_step {
                Some(v) => v,
                None => old(self).boost_step,
            },
            final(self).low_ratio == match update.low_ratio {
                Some(ratio) => ratio,
                None => old(self).low_ratio,
            },
    {
        if update.on || update.off {
            self.enabled = update.on;
        }
        if let Some(run_interval) = update.run_interval {
            self.run_interval = run_interval;
        }
        if let Some(interval) = update.min_increase_interval_ns {
            self.min_increase_interval_ns = interval;
        }
        if let Some(interval) = update.min_decrease_interval_ns {
            self.min_decrease_interval_ns = interval;
        }
        if let Some(step) = update.boost_step {
            self.boost_step = step;
        }
        if let Some(ratio) = &update.low_ratio {
            self.low_ratio = *ratio;
        }
    }
}

/// The overrides the command line may carry: two switches for the enabled
/// flag and an optional value per remaining field.
pub struct ParamsUpdate {
    pub on: bool,
    pub off: bool,
    pub run_interval: Option<u8>,
    pub min_increase_interval_ns: Option<u64>,
    pub min_decrease_interval_ns: Option<u64>,
    pub boost_step: Option<u64>,
    pub low_ratio: Option<Ratio>,
}

/// Round trip: parsing a rendered parameter line yields the parameters
/// unchanged.
/// Reassociates a seven-field line into the right-nested shape the
/// splitting lemmas consume.
#[verifier::rlimit(100)]
proof fn lemma_seven_concat(
    f0: Seq<char>,
    f1: Seq<char>,
    f2: Seq<char>,
    f3: Seq<char>,
    f4: Seq<char>,
    f5: Seq<char>,
    f6: Seq<char>,
)
    ensures
        f0 + " "@ + f1 + " "@ + f2 + " "@ + f3 + " "@ + f4 + " "@ + f5 + " "@ + f6 =~= f0 + seq![
            ' ',
        ] + (f1 + seq![' '] + (f2 + seq![' '] + (f3 + seq![' '] + (f4 + seq![' '] + (f5 + seq![' ']
            + f6))))),
{
    reveal_strlit(" ");
    assert(" "@ =~= seq![' ']);
}

/// The rendered line splits back into its seven fields.
#[verifier::rlimit(100)]
proof fn lemma_params_line_splits(p: Params)
    ensures
        sep_segments(spec_params_line(p), ' ') =~= seq![
            if p.enabled {
                "1"@
            } else {
                "0"@
            },
            dec_digits(p.run_interval as nat),
            dec_digits(p.min_increase_interval_ns as nat),
            dec_digits(p.min_decrease_interval_ns as nat),
            dec_digits(p.boost_step as nat),
            dec_digits(p.low_ratio.numerator as nat),
            dec_digits(p.low_ratio.denominator as nat),
        ],
{
    reveal_strlit("1");
    reveal_strlit("0");
    reveal_strlit(" ");
    let f0: Seq<char> = if p.enabled {
        "1"@
    } else {
        "0"@
    };
    let f1 = dec_digits(p.run_interval as nat);
    let f2 = dec_digits(p.min_increase_interval_ns as nat);
    let f3 = dec_digits(p.min_decrease_interval_ns as nat);
    let f4 = dec_digits(p.boost_step as nat);
    let f5 = dec_digits(p.low_ratio.numerator as nat);
    let f6 = dec_digits(p.low_ratio.denominator as nat);
    crate::text::lemma_dec_digits_all_digits(p.run_interval as nat);
    crate::text::lemma_dec_digits_all_digits(p.min_increase_interval_ns as nat);
    crate::text::lemma_dec_digits_all_digits(p.min_decrease_interval_ns as nat);
    crate::text::lemma_dec_digits_all_digits(p.boost_step as nat);
    crate::text::lemma_dec_digits_all_digits(p.low_ratio.numerator as nat);
    crate::text::lemma_dec_digits_all_digits(p.low_ratio.denominator as nat);
    assert(crate::text::all_digits(f0)) by {
        if p.enabled {
            assert(f0[0] == '1');
        } else {
            assert(f0[0] == '0');
        }
    }
    lemma_digits_not_char(f0, ' ');
    lemma_digits_not_char(f1, ' ');
    lemma_digits_not_char(f2, ' ');
    lemma_digits_not_char(f3, ' ');
    lemma_digits_not_char(f4, ' ');
    lemma_digits_not_char(f5, ' ');
    lemma_digits_not_char(f6, ' ');

    let tail5 = f5 + seq![' '] + f6;
    let tail4 = f4 + seq![' '] + tail5;
    let tail3 = f3 + seq![' '] + tail4;
    let tail2 = f2 + seq![' '] + tail3;
    let tail1 = f1 + seq![' '] + tail2;
    lemma_seven_concat(f0, f1, f2, f3, f4, f5, f6);
    assert(spec_params_line(p) == f0 + seq![' '] + tail1);
    lemma_sep_segments_prepend(f0, ' ', tail1);
    lemma_sep_segments_prepend(f1, ' ', tail2);
    lemma_sep_segments_prepend(f2, ' ', tail3);
    lemma_sep_segments_prepend(f3, ' ', tail4);
    lemma_sep_segments_prepend(f4, ' ', tail5);
    lemma_sep_segments_prepend(f5, ' ', f6);
    lemma_sep_segments_single(f6, ' ');
}

/// Round trip: parsing a rendered parameter line yields the parameters
/// unchanged.
#[verifier::rlimit(100)]
pub proof fn lemma_params_line_round_trip(p: Params)
    ensures
        spec_parse_params(spec_params_line(p)) == Ok::<Params, ConfError>(p),
{
    reveal_strlit("1");
    reveal_strlit("0");
    lemma_params_line_splits(p);
    let f0: Seq<char> = if p.enabled {
        "1"@
    } else {
        "0"@
    };
    lemma_dec_digits_parseable(p.run_interval as nat, u8::MAX as int);
    lemma_dec_digits_parseable(p.min_increase_interval_ns as nat, u64::MAX as int);
    lemma_dec_digits_parseable(p.min_decrease_interval_ns as nat, u64::MAX as int);
    lemma_dec_digits_parseable(p.boost_step as nat, u64::MAX as int);
    lemma_dec_digits_parseable(p.low_ratio.numerator as nat, u64::MAX as int);
    lemma_dec_digits_parseable(p.low_ratio.denominator as nat, u64::MAX as int);
    assert(crate::text::all_digits(f0) && f0.len() == 1 && f0[0] != '+') by {
        if p.enabled {
            assert(f0[0] == '1');
        } else {
            assert(f0[0] == '0');
        }
    }
    assert(digits_of(f0) =~= f0);
    assert(dec_value(f0) == if p.enabled {
        1int
    } else {
        0int
    }) by {
        assert(f0.drop_last() =~= Seq::<char>::empty());
        assert(dec_value(f0) == dec_value(f0.drop_last()) * 10 + digit_value(f0.last()));
        assert(digit_value('1') == 1);
        assert(digit_value('0') == 0);
    }
    assert(dec_parseable(f0, u8::MAX as int));
}

} // verus!
