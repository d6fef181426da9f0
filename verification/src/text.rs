//! Verified text utilities: decimal number parsing and formatting,
//! whitespace tokenizing, line splitting, trimming, and column padding.
//! These back the statistics parsers and the dashboard renderer.

use vstd::prelude::*;
use vstd::string::*;

verus! {

// ---------------------------------------------------------------------------
// Character classes
// ---------------------------------------------------------------------------

pub open spec fn is_digit_char(c: char) -> bool {
    '0' <= c && c <= '9'
}

pub open spec fn digit_value(c: char) -> int {
    c as int - '0' as int
}

/// The ASCII whitespace characters that the tokenizer and trimmer treat as
/// separators.
pub open spec fn is_space_char(c: char) -> bool {
    c == ' ' || c == '\t' || c == '\n' || c == '\r'
}

pub open spec fn all_digits(s: Seq<char>) -> bool {
    forall|i: int| 0 <= i < s.len() ==> is_digit_char(#[trigger] s[i])
}

// ---------------------------------------------------------------------------
// Decimal parsing
// ---------------------------------------------------------------------------

/// The value of a string of decimal digits, most significant first.
pub open spec fn dec_value(s: Seq<char>) -> int
    decreases s.len(),
{
    if s.len() == 0 {
        0
    } else {
        dec_value(s.drop_last()) * 10 + digit_value(s.last())
    }
}

/// The digit part of a decimal literal: an optional leading `+` is skipped.
pub open spec fn digits_of(s: Seq<char>) -> Seq<char> {
    if s.len() > 0 && s[0] == '+' {
        s.subrange(1, s.len() as int)
    } else {
        s
    }
}

/// Whether `s` is a decimal literal whose value is at most `bound`:
/// an optional `+`, then one or more digits, denoting a value in range.
pub open spec fn dec_parseable(s: Seq<char>, bound: int) -> bool {
    &&& digits_of(s).len() > 0
    &&& all_digits(digits_of(s))
    &&& dec_value(digits_of(s)) <= bound
}

pub proof fn lemma_dec_value_nonneg(s: Seq<char>)
    requires
        all_digits(s),
    ensures
        dec_value(s) >= 0,
    decreases s.len(),
{
    if s.len() > 0 {
        assert(all_digits(s.drop_last()));
        lemma_dec_value_nonneg(s.drop_last());
    }
}

proof fn lemma_dec_value_step(s: Seq<char>, j: int)
    requires
        0 <= j < s.len(),
    ensures
        dec_value(s.subrange(0, j + 1)) == dec_value(s.subrange(0, j)) * 10 + digit_value(s[j]),
{
    let p = s.subrange(0, j + 1);
    assert(p.drop_last() =~= s.subrange(0, j));
    assert(p.last() == s[j]);
}

/// Once a prefix of a digit string exceeds a bound, the whole string does.
proof fn lemma_dec_value_prefix_le(s: Seq<char>, j: int)
    requires
        all_digits(s),
        0 <= j <= s.len(),
    ensures
        dec_value(s.subrange(0, j)) <= dec_value(s),
    decreases s.len() - j,
{
    if j == s.len() {
        assert(s.subrange(0, j) =~= s);
    } else {
        lemma_dec_value_step(s, j);
        let pj = s.subrange(0, j);
        assert(all_digits(pj));
        lemma_dec_value_nonneg(pj);
        assert(dec_value(s.subrange(0, j + 1)) >= dec_value(pj) * 10) by {
            assert(digit_value(s[j]) >= 0);
        }
        assert(dec_value(pj) * 10 >= dec_value(pj)) by (nonlinear_arith)
            requires
                dec_value(pj) >= 0,
        ;
        lemma_dec_value_prefix_le(s, j + 1);
    }
}

/// Parses a decimal literal (optional `+`, then digits) as the original
/// tools' `str::parse` calls do, rejecting anything else and any value
/// above `u128::MAX`.
pub fn parse_u128(s: &str) -> (r: Option<u128>)
    ensures
        r is Some <==> dec_parseable(s@, u128::MAX as int),
        r is Some ==> r->0 == dec_value(digits_of(s@)),
{
    let n = s.unicode_len();
    let start: usize = if n > 0 && s.get_char(0) == '+' {
        1
    } else {
        0
    };
    let ghost d = digits_of(s@);
    proof {
        assert(d =~= s@.subrange(start as int, n as int));
    }
    if n == start {
        return None;
    }
    let mut acc: u128 = 0;
    let mut j: usize = start;
    while j < n
        invariant
            start <= j <= n,
            n == s@.len(),
            start <= 1,
            d == digits_of(s@),
            d =~= s@.subrange(start as int, n as int),
            forall|i: int| 0 <= i < j - start ==> is_digit_char(#[trigger] d[i]),
            acc == dec_value(d.subrange(0, j - start)),
        decreases n - j,
    {
        let ghost k = j - start;
        let c = s.get_char(j);
        proof {
            assert(d[k] == s@[j as int]);
        }
        if !('0' <= c && c <= '9') {
            proof {
                assert(!is_digit_char(d[k]));
                assert(!all_digits(d));
            }
            return None;
        }
        let digit: u128 = (c as u32 - '0' as u32) as u128;
        proof {
            lemma_dec_value_step(d, k);
            assert(digit == digit_value(d[k]));
        }
        let shifted = match acc.checked_mul(10) {
            Some(x) => x,
            None => {
                proof {
                    overflow_means_unparseable(d, k + 1, acc * 10 + digit);
                }
                return None;
            },
        };
        let next = match shifted.checked_add(digit) {
            Some(x) => x,
            None => {
                proof {
                    overflow_means_unparseable(d, k + 1, acc * 10 + digit);
                }
                return None;
            },
        };
        acc = next;
        j = j + 1;
        proof {
            assert(d.subrange(0, j - start) == d.subrange(0, k + 1));
        }
    }
    proof {
        assert(d.subrange(0, n - start) =~= d);
        assert(all_digits(d));
    }
    Some(acc)
}

/// If some prefix of the digits already exceeds `u128::MAX`, the whole
/// literal is out of range.
proof fn overflow_means_unparseable(d: Seq<char>, j: int, prefix_value: int)
    requires
        0 < j <= d.len(),
        prefix_value == dec_value(d.subrange(0, j)),
        prefix_value > u128::MAX as int,
    ensures
        all_digits(d) ==> dec_value(d) > u128::MAX as int,
{
    if all_digits(d) {
        lemma_dec_value_prefix_le(d, j);
    }
}

/// `str::parse::<u64>` semantics on the same literal shape.
pub fn parse_u64(s: &str) -> (r: Option<u64>)
    ensures
        r is Some <==> dec_parseable(s@, u64::MAX as int),
        r is Some ==> r->0 == dec_value(digits_of(s@)),
{
    match parse_u128(s) {
        Some(v) => if v <= u64::MAX as u128 {
            Some(v as u64)
        } else {
            None
        },
        None => None,
    }
}

/// `str::parse::<u16>` semantics on the same literal shape.
pub fn parse_u16(s: &str) -> (r: Option<u16>)
    ensures
        r is Some <==> dec_parseable(s@, u16::MAX as int),
        r is Some ==> r->0 == dec_value(digits_of(s@)),
{
    match parse_u128(s) {
        Some(v) => if v <= u16::MAX as u128 {
            Some(v as u16)
        } else {
            None
        },
        None => None,
    }
}

/// `str::parse::<u8>` semantics on the same literal shape.
pub fn parse_u8(s: &str) -> (r: Option<u8>)
    ensures
        r is Some <==> dec_parseable(s@, u8::MAX as int),
        r is Some ==> r->0 == dec_value(digits_of(s@)),
{
    match parse_u128(s) {
        Some(v) => if v <= u8::MAX as u128 {
            Some(v as u8)
        } else {
            None
        },
        None => None,
    }
}

// ---------------------------------------------------------------------------
// Decimal formatting
// ---------------------------------------------------------------------------

pub open spec fn digit_char(d: int) -> char {
    if d == 0 {
        '0'
    } else if d == 1 {
        '1'
    } else if d == 2 {
        '2'
    } else if d == 3 {
        '3'
    } else if d == 4 {
        '4'
    } else if d == 5 {
        '5'
    } else if d == 6 {
        '6'
    } else if d == 7 {
        '7'
    } else if d == 8 {
        '8'
    } else {
        '9'
    }
}

/// The decimal representation of `n`, most significant digit first,
/// without leading zeros (except for `n == 0` itself).
pub open spec fn dec_digits(n: nat) -> Seq<char>
    decreases n,
{
    if n < 10 {
        seq![digit_char(n as int)]
    } else {
        dec_digits(n / 10).push(digit_char((n % 10) as int))
    }
}

fn digit_str(d: u8) -> (r: &'static str)
    requires
        d < 10,
    ensures
        r@ =~= seq![digit_char(d as int)],
{
    proof {
        reveal_strlit("0");
        reveal_strlit("1");
        reveal_strlit("2");
        reveal_strlit("3");
        reveal_strlit("4");
        reveal_strlit("5");
        reveal_strlit("6");
        reveal_strlit("7");
        reveal_strlit("8");
        reveal_strlit("9");
    }
    if d == 0 {
        "0"
    } else if d == 1 {
        "1"
    } else if d == 2 {
        "2"
    } else if d == 3 {
        "3"
    } else if d == 4 {
        "4"
    } else if d == 5 {
        "5"
    } else if d == 6 {
        "6"
    } else if d == 7 {
        "7"
    } else if d == 8 {
        "8"
    } else {
        "9"
    }
}

/// Renders `n` in decimal, as the original tools' `format!("{}")` does.
pub fn u128_to_string(n: u128) -> (r: String)
    ensures
        r@ == dec_digits(n as nat),
    decreases n,
{
    if n < 10 {
        String::from_str(digit_str(n as u8))
    } else {
        let mut s = u128_to_string(n / 10);
        let last = digit_str((n % 10) as u8);
        s.append(last);
        proof {
            assert(dec_digits((n / 10) as nat) + seq![digit_char((n % 10) as int)] =~= dec_digits(
                (n / 10) as nat,
            ).push(digit_char((n % 10) as int)));
        }
        s
    }
}

pub fn u64_to_string(n: u64) -> (r: String)
    ensures
        r@ == dec_digits(n as nat),
{
    u128_to_string(n as u128)
}

/// A number padded on the left with `0` to at least two digits, as
/// `format!("{:0>2}")` renders it.
pub open spec fn zero_pad2(n: nat) -> Seq<char> {
    if n < 10 {
        seq!['0'].push(digit_char(n as int))
    } else {
        dec_digits(n)
    }
}

pub fn u64_to_string_pad2(n: u64) -> (r: String)
    ensures
        r@ == zero_pad2(n as nat),
{
    if n < 10 {
        proof {
            reveal_strlit("0");
        }
        let mut s = String::from_str("0");
        s.append(digit_str(n as u8));
        proof {
            assert(seq!['0'] + seq![digit_char(n as int)] =~= seq!['0'].push(
                digit_char(n as int),
            ));
        }
        s
    } else {
        u64_to_string(n)
    }
}

// ---------------------------------------------------------------------------
// Comparison and trimming
// ---------------------------------------------------------------------------

/// Character-wise string equality.
pub fn str_eq(a: &str, b: &str) -> (r: bool)
    ensures
        r == (a@ == b@),
{
    let na = a.unicode_len();
    let nb = b.unicode_len();
    if na != nb {
        return false;
    }
    let mut i: usize = 0;
    while i < na
        invariant
            0 <= i <= na,
            na == a@.len(),
            na == b@.len(),
            forall|k: int| 0 <= k < i ==> a@[k] == b@[k],
        decreases na - i,
    {
        if a.get_char(i) != b.get_char(i) {
            return false;
        }
        i = i + 1;
    }
    proof {
        assert(a@ =~= b@);
    }
    true
}

pub fn is_space(c: char) -> (r: bool)
    ensures
        r == is_space_char(c),
{
    c == ' ' || c == '\t' || c == '\n' || c == '\r'
}

/// `s` with leading whitespace removed.
pub open spec fn trim_front(s: Seq<char>) -> Seq<char>
    decreases s.len(),
{
    if s.len() > 0 && is_space_char(s[0]) {
        trim_front(s.subrange(1, s.len() as int))
    } else {
        s
    }
}

/// `s` with trailing whitespace removed.
pub open spec fn trim_back(s: Seq<char>) -> Seq<char>
    decreases s.len(),
{
    if s.len() > 0 && is_space_char(s.last()) {
        trim_back(s.drop_last())
    } else {
        s
    }
}

/// `s` with whitespace removed from both ends, as `str::trim` leaves it.
pub open spec fn trimmed(s: Seq<char>) -> Seq<char> {
    trim_back(trim_front(s))
}

proof fn lemma_trim_front_skip(s: Seq<char>, lo: int)
    requires
        0 <= lo <= s.len(),
        forall|i: int| 0 <= i < lo ==> is_space_char(#[trigger] s[i]),
        lo < s.len() ==> !is_space_char(s[lo]),
    ensures
        trim_front(s) == s.subrange(lo, s.len() as int),
    decreases lo,
{
    if lo == 0 {
        assert(s.subrange(0, s.len() as int) =~= s);
    } else {
        let t = s.subrange(1, s.len() as int);
        lemma_trim_front_skip(t, lo - 1);
        assert(t.subrange(lo - 1, t.len() as int) =~= s.subrange(lo, s.len() as int));
    }
}

proof fn lemma_trim_back_skip(s: Seq<char>, hi: int)
    requires
        0 <= hi <= s.len(),
        forall|i: int| hi <= i < s.len() ==> is_space_char(#[trigger] s[i]),
        hi > 0 ==> !is_space_char(s[hi - 1]),
    ensures
        trim_back(s) == s.subrange(0, hi),
    decreases s.len() - hi,
{
    if hi == s.len() {
        if s.len() > 0 {
            assert(s.subrange(0, hi) =~= s);
        } else {
            assert(s.subrange(0, hi) =~= s);
        }
    } else {
        let t = s.drop_last();
        assert(is_space_char(s.last()));
        lemma_trim_back_skip(t, hi);
        assert(t.subrange(0, hi) =~= s.subrange(0, hi));
    }
}

/// Removes whitespace from both ends, as the original tools' `str::trim`
/// calls do before parsing a number.
pub fn trim(s: &str) -> (r: &str)
    ensures
        r@ == trimmed(s@),
{
    let n = s.unicode_len();
    let mut lo: usize = 0;
    while lo < n && is_space(s.get_char(lo))
        invariant
            0 <= lo <= n,
            n == s@.len(),
            forall|i: int| 0 <= i < lo ==> is_space_char(#[trigger] s@[i]),
        decreases n - lo,
    {
        lo = lo + 1;
    }
    proof {
        lemma_trim_front_skip(s@, lo as int);
    }
    if lo == n {
        let r = s.substring_char(n, n);
        proof {
            assert(trim_front(s@) =~= Seq::<char>::empty());
            assert(trimmed(s@) =~= r@);
        }
        return r;
    }
    let mut hi: usize = n;
    while hi > lo + 1 && is_space(s.get_char(hi - 1))
        invariant
            lo + 1 <= hi <= n,
            n == s@.len(),
            forall|i: int| hi <= i < n ==> is_space_char(#[trigger] s@[i]),
        decreases hi,
    {
        hi = hi - 1;
    }
    let r = s.substring_char(lo, hi);
    proof {
        let t = s@.subrange(lo as int, n as int);
        assert(!is_space_char(t[0]));
        assert(forall|i: int| hi - lo <= i < t.len() ==> is_space_char(#[trigger] t[i]));
        assert(!is_space_char(t[hi - lo - 1]));
        lemma_trim_back_skip(t, hi - lo);
        assert(t.subrange(0, hi - lo) =~= s@.subrange(lo as int, hi as int));
    }
    r
}

// ---------------------------------------------------------------------------
// Whitespace tokenizing
// ---------------------------------------------------------------------------

/// The position just past the token starting at `i`: the first index at or
/// after `i` holding whitespace, or the end of the string.
pub open spec fn token_end(s: Seq<char>, i: int) -> int
    decreases s.len() - i,
    when 0 <= i <= s.len()
{
    if i >= s.len() || is_space_char(s[i]) {
        i
    } else {
        token_end(s, i + 1)
    }
}

pub proof fn lemma_token_end_props(s: Seq<char>, i: int)
    requires
        0 <= i <= s.len(),
    ensures
        i <= token_end(s, i) <= s.len(),
        forall|k: int| i <= k < token_end(s, i) ==> !is_space_char(#[trigger] s[k]),
        token_end(s, i) < s.len() ==> is_space_char(s[token_end(s, i)]),
    decreases s.len() - i,
{
    if i < s.len() && !is_space_char(s[i]) {
        lemma_token_end_props(s, i + 1);
    }
}

proof fn lemma_token_end_unique(s: Seq<char>, i: int, j: int)
    requires
        0 <= i <= j <= s.len(),
        forall|k: int| i <= k < j ==> !is_space_char(#[trigger] s[k]),
        j < s.len() ==> is_space_char(s[j]),
    ensures
        token_end(s, i) == j,
    decreases j - i,
{
    if i < j {
        lemma_token_end_unique(s, i + 1, j);
    }
}

/// The whitespace-separated tokens of `s` starting at position `i`, as
/// `str::split_whitespace` yields them.
pub open spec fn ws_tokens_from(s: Seq<char>, i: int) -> Seq<Seq<char>>
    decreases s.len() - i,
    when 0 <= i <= s.len()
    via ws_tokens_from_decreases
{
    if i >= s.len() {
        Seq::empty()
    } else if is_space_char(s[i]) {
        ws_tokens_from(s, i + 1)
    } else {
        seq![s.subrange(i, token_end(s, i))] + ws_tokens_from(s, token_end(s, i))
    }
}

#[via_fn]
proof fn ws_tokens_from_decreases(s: Seq<char>, i: int) {
    if 0 <= i < s.len() && !is_space_char(s[i]) {
        lemma_token_end_props(s, i);
    }
}

pub open spec fn ws_tokens(s: Seq<char>) -> Seq<Seq<char>> {
    ws_tokens_from(s, 0)
}

/// Splits on whitespace, as the original tools' `str::split_whitespace`
/// calls do.
pub fn split_whitespace_tokens<'a>(s: &'a str) -> (r: Vec<&'a str>)
    ensures
        r.deep_view() == ws_tokens(s@),
{
    let n = s.unicode_len();
    let mut toks: Vec<&'a str> = Vec::new();
    let mut i: usize = 0;
    while i < n
        invariant
            0 <= i <= n,
            n == s@.len(),
            ws_tokens(s@) == toks.deep_view() + ws_tokens_from(s@, i as int),
        decreases n - i,
    {
        let c = s.get_char(i);
        if is_space(c) {
            i = i + 1;
        } else {
            let mut j: usize = i + 1;
            while j < n && !is_space(s.get_char(j))
                invariant
                    i < j <= n,
                    n == s@.len(),
                    forall|k: int| i <= k < j ==> !is_space_char(#[trigger] s@[k]),
                decreases n - j,
            {
                j = j + 1;
            }
            proof {
                lemma_token_end_unique(s@, i as int, j as int);
            }
            let t = s.substring_char(i, j);
            let ghost old_toks = toks.deep_view();
            toks.push(t);
            proof {
                assert(toks.deep_view() =~= old_toks.push(t@));
                assert(old_toks.push(t@) + ws_tokens_from(s@, j as int) =~= old_toks + (seq![
                    s@.subrange(i as int, j as int),
                ] + ws_tokens_from(s@, j as int)));
            }
            i = j;
        }
    }
    proof {
        assert(toks.deep_view() + ws_tokens_from(s@, n as int) =~= toks.deep_view());
    }
    toks
}

// ---------------------------------------------------------------------------
// Splitting on a separator character
// ---------------------------------------------------------------------------

/// The position of the first `sep` at or after `i`, or the end of the string.
pub open spec fn seg_end(s: Seq<char>, sep: char, i: int) -> int
    decreases s.len() - i,
    when 0 <= i <= s.len()
{
    if i >= s.len() || s[i] == sep {
        i
    } else {
        seg_end(s, sep, i + 1)
    }
}

pub proof fn lemma_seg_end_props(s: Seq<char>, sep: char, i: int)
    requires
        0 <= i <= s.len(),
    ensures
        i <= seg_end(s, sep, i) <= s.len(),
        forall|k: int| i <= k < seg_end(s, sep, i) ==> s[k] != sep,
        seg_end(s, sep, i) < s.len() ==> s[seg_end(s, sep, i)] == sep,
    decreases s.len() - i,
{
    if i < s.len() && s[i] != sep {
        lemma_seg_end_props(s, sep, i + 1);
    }
}

proof fn lemma_seg_end_unique(s: Seq<char>, sep: char, i: int, j: int)
    requires
        0 <= i <= j <= s.len(),
        forall|k: int| i <= k < j ==> s[k] != sep,
        j < s.len() ==> s[j] == sep,
    ensures
        seg_end(s, sep, i) == j,
    decreases j - i,
{
    if i < j {
        lemma_seg_end_unique(s, sep, i + 1, j);
    }
}

/// The segments of `s` split on the separator `sep`, starting at `i`;
/// empty segments are kept, as `str::split` keeps them.
pub open spec fn sep_segments_from(s: Seq<char>, sep: char, i: int) -> Seq<Seq<char>>
    decreases s.len() - i,
    when 0 <= i <= s.len()
    via sep_segments_from_decreases
{
    let e = seg_end(s, sep, i);
    if e >= s.len() {
        seq![s.subrange(i, s.len() as int)]
    } else {
        seq![s.subrange(i, e)] + sep_segments_from(s, sep, e + 1)
    }
}

#[via_fn]
proof fn sep_segments_from_decreases(s: Seq<char>, sep: char, i: int) {
    if 0 <= i <= s.len() {
        lemma_seg_end_props(s, sep, i);
    }
}

pub open spec fn sep_segments(s: Seq<char>, sep: char) -> Seq<Seq<char>> {
    sep_segments_from(s, sep, 0)
}

/// Splits on a single separator character, keeping empty segments, as the
/// original tools' `str::split` calls do.
pub fn split_char<'a>(s: &'a str, sep: char) -> (r: Vec<&'a str>)
    ensures
        r.deep_view() == sep_segments(s@, sep),
        r.len() >= 1,
{
    let n = s.unicode_len();
    let mut segs: Vec<&'a str> = Vec::new();
    let mut i: usize = 0;
    loop
        invariant_except_break
            sep_segments(s@, sep) == segs.deep_view() + sep_segments_from(s@, sep, i as int),
        invariant
            0 <= i <= n,
            n == s@.len(),
        ensures
            segs.deep_view() == sep_segments(s@, sep),
            segs.len() >= 1,
        decreases n - i,
    {
        let mut j: usize = i;
        while j < n && s.get_char(j) != sep
            invariant
                i <= j <= n,
                n == s@.len(),
                forall|k: int| i <= k < j ==> s@[k] != sep,
            decreases n - j,
        {
            j = j + 1;
        }
        proof {
            lemma_seg_end_unique(s@, sep, i as int, j as int);
        }
        let t = s.substring_char(i, j);
        let ghost old_segs = segs.deep_view();
        segs.push(t);
        proof {
            assert(segs.deep_view() =~= old_segs.push(t@));
        }
        if j == n {
            proof {
                assert(old_segs.push(t@) =~= old_segs + seq![s@.subrange(i as int, n as int)]);
            }
            break;
        }
        proof {
            assert(old_segs.push(t@) + sep_segments_from(s@, sep, j + 1) =~= old_segs + (seq![
                s@.subrange(i as int, j as int),
            ] + sep_segments_from(s@, sep, j + 1)));
        }
        i = j + 1;
    }
    segs
}

// ---------------------------------------------------------------------------
// Column padding
// ---------------------------------------------------------------------------

pub open spec fn spec_spaces(n: nat) -> Seq<char> {
    Seq::new(n, |i: int| ' ')
}

/// `s` padded on the right with spaces to width `w`, as `format!("{: <w$}")`
/// renders it; a longer string is kept whole.
pub open spec fn pad_right_spec(s: Seq<char>, w: nat) -> Seq<char> {
    if s.len() >= w {
        s
    } else {
        s + spec_spaces((w - s.len()) as nat)
    }
}

/// `s` padded on the left with spaces to width `w`, as `format!("{: >w$}")`
/// renders it.
pub open spec fn pad_left_spec(s: Seq<char>, w: nat) -> Seq<char> {
    if s.len() >= w {
        s
    } else {
        spec_spaces((w - s.len()) as nat) + s
    }
}

/// `s` centered to width `w` with spaces, the extra space on the right,
/// as `format!("{: ^w$}")` renders it.
pub open spec fn pad_center_spec(s: Seq<char>, w: nat) -> Seq<char> {
    if s.len() >= w {
        s
    } else {
        let pad = (w - s.len()) as nat;
        spec_spaces(pad / 2) + s + spec_spaces((pad - pad / 2) as nat)
    }
}

pub fn spaces(n: usize) -> (r: String)
    ensures
        r@ == spec_spaces(n as nat),
{
    let mut s = String::new();
    let mut i: usize = 0;
    while i < n
        invariant
            0 <= i <= n,
            s@ =~= spec_spaces(i as nat),
        decreases n - i,
    {
        proof {
            reveal_strlit(" ");
        }
        s.append(" ");
        i = i + 1;
        proof {
            assert(s@ =~= spec_spaces(i as nat));
        }
    }
    s
}

pub fn pad_right(s: &str, w: usize) -> (r: String)
    ensures
        r@ == pad_right_spec(s@, w as nat),
{
    let n = s.unicode_len();
    let mut out = String::from_str(s);
    if n < w {
        let fill = spaces(w - n);
        out.append(fill.as_str());
    }
    out
}

pub fn pad_left(s: &str, w: usize) -> (r: String)
    ensures
        r@ == pad_left_spec(s@, w as nat),
{
    let n = s.unicode_len();
    if n >= w {
        String::from_str(s)
    } else {
        let mut out = spaces(w - n);
        out.append(s);
        out
    }
}

pub fn pad_center(s: &str, w: usize) -> (r: String)
    ensures
        r@ == pad_center_spec(s@, w as nat),
{
    let n = s.unicode_len();
    if n >= w {
        String::from_str(s)
    } else {
        let pad = w - n;
        let left = pad / 2;
        let mut out = spaces(left);
        out.append(s);
        let fill = spaces(pad - left);
        out.append(fill.as_str());
        out
    }
}

// ---------------------------------------------------------------------------
// Printing and parsing round-trip
// ---------------------------------------------------------------------------

/// The decimal rendering of a number consists of digits only, at least one.
pub proof fn lemma_dec_digits_all_digits(n: nat)
    ensures
        all_digits(dec_digits(n)),
        dec_digits(n).len() >= 1,
    decreases n,
{
    if n >= 10 {
        lemma_dec_digits_all_digits(n / 10);
    }
}

/// Printing then parsing gives the number back: the decimal digits of `n`
/// denote exactly `n`.
pub proof fn lemma_dec_digits_value(n: nat)
    ensures
        dec_value(dec_digits(n)) == n,
    decreases n,
{
    let d = (n % 10) as int;
    assert(digit_value(digit_char(d)) == d);
    if n < 10 {
        assert(dec_digits(n) =~= seq![digit_char(n as int)]);
        assert(dec_value(dec_digits(n)) == dec_value(dec_digits(n).drop_last()) * 10 + digit_value(
            dec_digits(n).last(),
        ));
        assert(dec_digits(n).drop_last() =~= Seq::<char>::empty());
    } else {
        lemma_dec_digits_value(n / 10);
        assert(dec_digits(n).drop_last() =~= dec_digits(n / 10));
        assert(dec_digits(n).last() == digit_char(d));
        vstd::arithmetic::div_mod::lemma_fundamental_div_mod(n as int, 10);
    }
}

/// The decimal rendering of a number is a parseable literal denoting it,
/// for any bound the number respects.
pub proof fn lemma_dec_digits_parseable(n: nat, bound: int)
    requires
        n <= bound,
    ensures
        dec_parseable(dec_digits(n), bound),
        digits_of(dec_digits(n)) == dec_digits(n),
        dec_value(digits_of(dec_digits(n))) == n,
{
    lemma_dec_digits_all_digits(n);
    lemma_dec_digits_value(n);
    assert(is_digit_char(dec_digits(n)[0]));
}

/// Splitting looks only at the suffix: the segments from position `off`
/// are the segments of the suffix starting there.
proof fn lemma_sep_segments_from_shift(s: Seq<char>, sep: char, off: int)
    requires
        0 <= off <= s.len(),
    ensures
        sep_segments_from(s, sep, off) == sep_segments(s.subrange(off, s.len() as int), sep),
    decreases s.len() - off,
{
    let t = s.subrange(off, s.len() as int);
    lemma_seg_end_props(t, sep, 0);
    let et = seg_end(t, sep, 0);
    assert forall|k: int| off <= k < off + et implies s[k] != sep by {
        assert(t[k - off] != sep);
    }
    if et < t.len() {
        assert(s[off + et] == t[et]);
    }
    lemma_seg_end_unique(s, sep, off, off + et);
    if et >= t.len() {
        assert(s.subrange(off, s.len() as int) =~= t.subrange(0, t.len() as int));
    } else {
        assert(s.subrange(off, off + et) =~= t.subrange(0, et));
        lemma_sep_segments_from_shift(s, sep, off + et + 1);
        lemma_sep_segments_from_shift(t, sep, et + 1);
        assert(s.subrange(off + et + 1, s.len() as int) =~= t.subrange(et + 1, t.len() as int));
    }
}

/// A string without the separator splits into itself alone.
pub proof fn lemma_sep_segments_single(a: Seq<char>, sep: char)
    requires
        forall|i: int| 0 <= i < a.len() ==> a[i] != sep,
    ensures
        sep_segments(a, sep) == seq![a],
{
    lemma_seg_end_unique(a, sep, 0, a.len() as int);
    assert(a.subrange(0, a.len() as int) =~= a);
}

/// Prepending a separator-free field and one separator prepends exactly
/// one segment.
pub proof fn lemma_sep_segments_prepend(a: Seq<char>, sep: char, rest: Seq<char>)
    requires
        forall|i: int| 0 <= i < a.len() ==> a[i] != sep,
    ensures
        sep_segments(a + seq![sep] + rest, sep) == seq![a] + sep_segments(rest, sep),
{
    let s = a + seq![sep] + rest;
    assert forall|k: int| 0 <= k < a.len() implies s[k] != sep by {
        assert(s[k] == a[k]);
    }
    assert(s[a.len() as int] == sep);
    lemma_seg_end_unique(s, sep, 0, a.len() as int);
    assert(s.subrange(0, a.len() as int) =~= a);
    lemma_sep_segments_from_shift(s, sep, a.len() as int + 1);
    assert(s.subrange(a.len() as int + 1, s.len() as int) =~= rest);
}

/// Digits are never whitespace or separators used by the tools' formats.
pub proof fn lemma_digits_not_char(a: Seq<char>, sep: char)
    requires
        all_digits(a),
        !is_digit_char(sep),
    ensures
        forall|i: int| 0 <= i < a.len() ==> a[i] != sep,
{
}

} // verus!
