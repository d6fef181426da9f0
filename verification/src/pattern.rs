//! The pattern engine: stamps a buffer with a deterministic lattice of
//! 8-byte tags (a fixed 4-byte magic followed by a big-endian sequence
//! index) every `stride` bytes, and re-walks the same offsets to detect
//! corruption. Verification is fail-fast: the first mismatching tag aborts
//! the walk and is reported together with a bounded history of the last
//! observed windows.

use vstd::prelude::*;
use vstd::arithmetic::mul::{
    lemma_mul_inequality, lemma_mul_is_distributive_add_other_way, lemma_mul_increases,
};
use vstd::arithmetic::div_mod::{
    lemma_small_mod, lemma_mod_self_0, lemma_add_mod_noop, lemma_sub_mod_noop, lemma_mod_is_zero,
    lemma_mod_bound, lemma_div_multiples_vanish, lemma_multiply_divide_lt,
};
use vstd::arithmetic::mul::lemma_mul_is_commutative;

verus! {

// ---------------------------------------------------------------------------
// The tag
// ---------------------------------------------------------------------------

/// Byte `j` of the 8-byte tag carrying sequence index `index`: the magic
/// `0x11 0x22 0x33 0x44`, then the low 32 bits of the index, big-endian.
pub open spec fn tag_byte(index: nat, j: int) -> u8 {
    let m = index % 0x1_0000_0000;
    if j == 0 {
        0x11
    } else if j == 1 {
        0x22
    } else if j == 2 {
        0x33
    } else if j == 3 {
        0x44
    } else if j == 4 {
        (m / 0x100_0000) as u8
    } else if j == 5 {
        ((m / 0x1_0000) % 0x100) as u8
    } else if j == 6 {
        ((m / 0x100) % 0x100) as u8
    } else {
        (m % 0x100) as u8
    }
}

/// The tag with index `index` stands at offset `off` of `data`.
pub open spec fn tag_ok(data: Seq<u8>, off: int, index: nat) -> bool {
    forall|j: int| 0 <= j < 8 ==> data[off + j] == #[trigger] tag_byte(index, j)
}

/// Tag number `k` of a `stride`-spaced stamping stands at its place.
pub open spec fn stamp_ok(data: Seq<u8>, stride: nat, k: nat) -> bool {
    tag_ok(data, (k * stride) as int, k)
}

/// Every tag that fits (the walk writes at offset `i` only while
/// `i < len - 8`) stands at its place: the whole buffer is stamped.
pub open spec fn stamped(data: Seq<u8>, stride: nat) -> bool {
    forall|k: nat| 8 + k * stride < data.len() ==> #[trigger] stamp_ok(data, stride, k)
}

/// The 32-bit big-endian value of four consecutive bytes of `data`.
pub open spec fn be32_at(data: Seq<u8>, off: int) -> int {
    data[off] * 0x100_0000 + data[off + 1] * 0x1_0000 + data[off + 2] * 0x100 + data[off + 3]
}

// ---------------------------------------------------------------------------
// Forensic window history
// ---------------------------------------------------------------------------

pub open spec fn zero_window() -> Seq<u8> {
    Seq::new(8, |j: int| 0u8)
}

/// The 8-byte window the verifier observed for tag number `k`; before the
/// first tag (negative `k`) the history ring holds zeroed windows.
pub open spec fn observed_window(data: Seq<u8>, stride: nat, k: int) -> Seq<u8> {
    if k < 0 {
        zero_window()
    } else {
        data.subrange(k * stride, k * stride + 8)
    }
}

/// The four windows the verifier has most recently observed after
/// processing tag number `upto`, oldest first.
pub open spec fn window_history(data: Seq<u8>, stride: nat, upto: int) -> Seq<Seq<u8>> {
    Seq::new(4, |d: int| observed_window(data, stride, upto - 3 + d))
}

// ---------------------------------------------------------------------------
// Corruption report
// ---------------------------------------------------------------------------

/// A pattern mismatch: the offset of the first tag that did not match, its
/// expected sequence index, and the last (up to four) 8-byte windows the
/// walk observed, oldest first, the failing window last.
pub struct CorruptionDetected {
    pub offset: usize,
    pub expected_index: usize,
    pub history: Vec<Vec<u8>>,
}

// ---------------------------------------------------------------------------
// Filling
// ---------------------------------------------------------------------------

/// Relies on `rand::thread_rng` and `rand::Rng::fill`: writes random bytes
/// into `data[start..start + len]`, leaving the length and every byte
/// outside that range unchanged. Nothing is assumed about the bytes
/// written.
#[verifier::external_body]
fn fill_random_range(data: &mut Vec<u8>, start: usize, len: usize)
    requires
        start + len <= old(data).len(),
    ensures
        final(data)@.len() == old(data)@.len(),
        forall|q: int|
            0 <= q < old(data)@.len() && !(start <= q < start + len) ==> final(data)@[q] == old(
                data,
            )@[q],
{
    let mut rng = rand::thread_rng();
    rand::Rng::fill(&mut rng, &mut data[start..start + len]);
}

/// Writes the 8-byte tag lattice over `data`: tag number `k` at offset
/// `k * stride`, while the offset stays below `len - 8`. With tags at
/// least 8 bytes apart no tag overwrites another, so the whole buffer
/// ends up stamped.
pub fn fill_tags(data: &mut Vec<u8>, stride: usize)
    requires
        old(data).len() >= 8,
        stride >= 1,
    ensures
        final(data).len() == old(data).len(),
        stride >= 8 ==> stamped(final(data)@, stride as nat),
{
    let size = data.len();
    let mut i: usize = 0;
    let mut index: usize = 0;
    while i < size - 8
        invariant_except_break
            i == index * stride,
            index <= i,
        invariant
            data.len() == size,
            size >= 8,
            stride >= 1,
            stride >= 8 ==> forall|k: nat|
                k < index ==> #[trigger] stamp_ok(data@, stride as nat, k),
        ensures
            data.len() == size,
            stride >= 8 ==> forall|k: nat|
                k < index ==> #[trigger] stamp_ok(data@, stride as nat, k),
            8 + index * stride >= size,
        decreases size - i,
    {
        let x = index as u64;
        proof {
            lemma_tag_bytes_of_shifts(x);
        }
        let b4 = ((x >> 24) & 0xff) as u8;
        let b5 = ((x >> 16) & 0xff) as u8;
        let b6 = ((x >> 8) & 0xff) as u8;
        let b7 = (x & 0xff) as u8;
        let ghost pre = data@;
        data[i] = 0x11;
        data[i + 1] = 0x22;
        data[i + 2] = 0x33;
        data[i + 3] = 0x44;
        data[i + 4] = b4;
        data[i + 5] = b5;
        data[i + 6] = b6;
        data[i + 7] = b7;
        proof {
            assert(stamp_ok(data@, stride as nat, index as nat)) by {
                assert forall|j: int| 0 <= j < 8 implies data@[i + j] == #[trigger] tag_byte(
                    index as nat,
                    j,
                ) by {
                    assert(data@[i as int] == 0x11);
                    assert(data@[i + 1] == 0x22);
                    assert(data@[i + 2] == 0x33);
                    assert(data@[i + 3] == 0x44);
                    assert(data@[i + 4] == b4);
                    assert(data@[i + 5] == b5);
                    assert(data@[i + 6] == b6);
                    assert(data@[i + 7] == b7);
                }
            }
            if stride >= 8 {
                assert forall|k: nat| k < index implies #[trigger] stamp_ok(
                    data@,
                    stride as nat,
                    k,
                ) by {
                    lemma_mul_inequality(k as int + 1, index as int, stride as int);
                    lemma_mul_is_distributive_add_other_way(stride as int, k as int, 1);
                    assert(k * stride + 8 <= i);
                    assert(stamp_ok(pre, stride as nat, k));
                    assert forall|j: int| 0 <= j < 8 implies data@[k * stride + j]
                        == #[trigger] tag_byte(k, j) by {
                        assert(k * stride + j < i);
                        assert(data@[k * stride + j] == pre[k * stride + j]);
                    }
                }
            }
        }
        proof {
            lemma_mul_increases(index as int + 1, stride as int);
            lemma_mul_is_distributive_add_other_way(stride as int, index as int, 1);
        }
        index = index + 1;
        match i.checked_add(stride) {
            Some(ni) => {
                if ni < size - 8 {
                    i = ni;
                } else {
                    proof {
                        assert(index * stride == i + stride);
                    }
                    break ;
                }
            },
            None => {
                proof {
                    assert(index * stride == i + stride);
                }
                break ;
            },
        }
    }
    proof {
        if stride >= 8 {
            assert forall|k: nat| 8 + k * stride < data@.len() implies #[trigger] stamp_ok(
                data@,
                stride as nat,
                k,
            ) by {
                if k >= index {
                    lemma_mul_inequality(index as int, k as int, stride as int);
                }
            }
        }
    }
}

/// The executable shift-and-mask byte extraction agrees with the
/// division form used by `tag_byte`.
proof fn lemma_tag_bytes_of_shifts(x: u64)
    ensures
        ((x >> 24) & 0xff) as u8 == tag_byte(x as nat, 4),
        ((x >> 16) & 0xff) as u8 == tag_byte(x as nat, 5),
        ((x >> 8) & 0xff) as u8 == tag_byte(x as nat, 6),
        (x & 0xff) as u8 == tag_byte(x as nat, 7),
{
    assert((x >> 24) & 0xff == (x % 0x1_0000_0000) / 0x100_0000) by (bit_vector);
    assert((x >> 16) & 0xff == ((x % 0x1_0000_0000) / 0x1_0000) % 0x100) by (bit_vector);
    assert((x >> 8) & 0xff == ((x % 0x1_0000_0000) / 0x100) % 0x100) by (bit_vector);
    assert(x & 0xff == (x % 0x1_0000_0000) % 0x100) by (bit_vector);
    assert((x >> 24) & 0xff < 256 && (x >> 16) & 0xff < 256 && (x >> 8) & 0xff < 256 && x & 0xff
        < 256) by (bit_vector);
}

/// Allocates a buffer of `size` bytes, writes `rand_data_len` bytes of
/// random noise at the start of every 4096-byte page if asked to, and
/// stamps the tag lattice over it (tags always overwrite noise). Returns
/// `None` when the allocator refuses the request.
pub fn make_allocation(size: usize, stride: usize, rand_data_len: usize) -> (r: Option<Vec<u8>>)
    requires
        size >= 8,
        stride >= 1,
        rand_data_len <= 4096,
        rand_data_len > 0 ==> size % 4096 == 0,
    ensures
        r is Some ==> r->0@.len() == size,
        r is Some && stride >= 8 ==> stamped(r->0@, stride as nat),
{
    let mut data: Vec<u8> = Vec::new();
    if data.try_reserve(size).is_err() {
        return None;
    }
    while data.len() < size
        invariant
            data.len() <= size,
        decreases size - data.len(),
    {
        data.push(0u8);
    }
    if rand_data_len > 0 {
        let mut p: usize = 0;
        while p < size
            invariant
                data.len() == size,
                size % 4096 == 0,
                p % 4096 == 0,
                0 < rand_data_len <= 4096,
            decreases size - p,
        {
            proof {
                lemma_small_mod(0, 4096);
                lemma_mod_self_0(4096);
                lemma_add_mod_noop(p as int, 4096, 4096);
                assert((p + 4096) % 4096 == 0);
                lemma_sub_mod_noop(size as int, p as int, 4096);
                assert((size - p) % 4096 == 0);
                lemma_mod_is_zero((size - p) as nat, 4096);
                assert(p + 4096 <= size);
            }
            fill_random_range(&mut data, p, rand_data_len);
            p = p + 4096;
        }
    }
    fill_tags(&mut data, stride);
    Some(data)
}

// ---------------------------------------------------------------------------
// Verifying
// ---------------------------------------------------------------------------

fn zero_window_vec() -> (r: Vec<u8>)
    ensures
        r@ == zero_window(),
{
    let mut w: Vec<u8> = Vec::new();
    w.push(0u8);
    w.push(0u8);
    w.push(0u8);
    w.push(0u8);
    w.push(0u8);
    w.push(0u8);
    w.push(0u8);
    w.push(0u8);
    proof {
        assert(w@ =~= zero_window());
    }
    w
}

/// Re-walks the tag offsets and compares each 8-byte window against the
/// expected tag, keeping the last four observed windows for forensic
/// context. Fail-fast: the first mismatch aborts the walk and is reported
/// with its offset, its expected index and the window history; tags after
/// it are not examined. On success the buffer is released.
pub fn verify_and_free(data: Vec<u8>, stride: usize) -> (r: Result<(), CorruptionDetected>)
    requires
        data.len() >= 8,
        stride >= 1,
    ensures
        r is Ok <==> stamped(data@, stride as nat),
        r matches Err(e) ==> {
            &&& e.offset == e.expected_index * stride
            &&& 8 + e.expected_index * stride < data@.len()
            &&& !stamp_ok(data@, stride as nat, e.expected_index as nat)
            &&& forall|k: nat| k < e.expected_index ==> stamp_ok(data@, stride as nat, k)
            &&& e.history.deep_view() == window_history(
                data@,
                stride as nat,
                e.expected_index as int,
            )
        },
{
    let size = data.len();
    let mut ring: Vec<Vec<u8>> = Vec::new();
    ring.push(zero_window_vec());
    ring.push(zero_window_vec());
    ring.push(zero_window_vec());
    ring.push(zero_window_vec());
    proof {
        assert(ring.deep_view() =~~= window_history(data@, stride as nat, -1));
    }
    let mut i: usize = 0;
    let mut index: usize = 0;
    while i < size - 8
        invariant_except_break
            i == index * stride,
            index <= i,
        invariant
            data.len() == size,
            size >= 8,
            stride >= 1,
            ring.len() == 4,
            ring.deep_view() == window_history(data@, stride as nat, index - 1),
            forall|k: nat| k < index ==> #[trigger] stamp_ok(data@, stride as nat, k),
        ensures
            forall|k: nat| k < index ==> #[trigger] stamp_ok(data@, stride as nat, k),
            8 + index * stride >= size,
        decreases size - i,
    {
        let x = index as u64;
        proof {
            lemma_tag_bytes_of_shifts(x);
        }
        let b4 = ((x >> 24) & 0xff) as u8;
        let b5 = ((x >> 16) & 0xff) as u8;
        let b6 = ((x >> 8) & 0xff) as u8;
        let b7 = (x & 0xff) as u8;
        let c0 = data[i];
        let c1 = data[i + 1];
        let c2 = data[i + 2];
        let c3 = data[i + 3];
        let c4 = data[i + 4];
        let c5 = data[i + 5];
        let c6 = data[i + 6];
        let c7 = data[i + 7];
        let failed = c0 != 0x11 || c1 != 0x22 || c2 != 0x33 || c3 != 0x44 || c4 != b4 || c5 != b5
            || c6 != b6 || c7 != b7;
        let mut w: Vec<u8> = Vec::new();
        w.push(c0);
        w.push(c1);
        w.push(c2);
        w.push(c3);
        w.push(c4);
        w.push(c5);
        w.push(c6);
        w.push(c7);
        proof {
            assert(w@ =~= data@.subrange(i as int, i + 8));
        }
        let ghost old_hist = ring.deep_view();
        let _ = ring.remove(0);
        ring.push(w);
        proof {
            assert(ring.deep_view() =~~= window_history(data@, stride as nat, index as int)) by {
                assert forall|d: int| 0 <= d < 4 implies ring.deep_view()[d] == window_history(
                    data@,
                    stride as nat,
                    index as int,
                )[d] by {
                    if d < 3 {
                        assert(ring.deep_view()[d] == old_hist[d + 1]);
                    } else {
                        assert(ring.deep_view()[3] =~= w@);
                    }
                }
            }
        }
        proof {
            assert(tag_byte(index as nat, 0) == 0x11);
            assert(tag_byte(index as nat, 1) == 0x22);
            assert(tag_byte(index as nat, 2) == 0x33);
            assert(tag_byte(index as nat, 3) == 0x44);
        }
        if failed {
            proof {
                assert(!stamp_ok(data@, stride as nat, index as nat)) by {
                    if stamp_ok(data@, stride as nat, index as nat) {
                        assert(data@[i + 0] == tag_byte(index as nat, 0));
                        assert(data@[i + 1] == tag_byte(index as nat, 1));
                        assert(data@[i + 2] == tag_byte(index as nat, 2));
                        assert(data@[i + 3] == tag_byte(index as nat, 3));
                        assert(data@[i + 4] == tag_byte(index as nat, 4));
                        assert(data@[i + 5] == tag_byte(index as nat, 5));
                        assert(data@[i + 6] == tag_byte(index as nat, 6));
                        assert(data@[i + 7] == tag_byte(index as nat, 7));
                    }
                }
            }
            return Err(CorruptionDetected { offset: i, expected_index: index, history: ring });
        }
        proof {
            assert(stamp_ok(data@, stride as nat, index as nat)) by {
                assert forall|j: int| 0 <= j < 8 implies data@[i + j] == #[trigger] tag_byte(
                    index as nat,
                    j,
                ) by {
                    assert(data@[i + 0] == c0);
                    assert(data@[i + 1] == c1);
                    assert(data@[i + 2] == c2);
                    assert(data@[i + 3] == c3);
                    assert(data@[i + 4] == c4);
                    assert(data@[i + 5] == c5);
                    assert(data@[i + 6] == c6);
                    assert(data@[i + 7] == c7);
                }
            }
        }
        proof {
            lemma_mul_increases(index as int + 1, stride as int);
            lemma_mul_is_distributive_add_other_way(stride as int, index as int, 1);
        }
        index = index + 1;
        match i.checked_add(stride) {
            Some(ni) => {
                if ni < size - 8 {
                    i = ni;
                } else {
                    proof {
                        assert(index * stride == i + stride);
                    }
                    break ;
                }
            },
            None => {
                proof {
                    assert(index * stride == i + stride);
                }
                break ;
            },
        }
    }
    proof {
        assert forall|k: nat| 8 + k * stride < data@.len() implies #[trigger] stamp_ok(
            data@,
            stride as nat,
            k,
        ) by {
            if k >= index {
                lemma_mul_inequality(index as int, k as int, stride as int);
            }
        }
    }
    Ok(())
}

// ---------------------------------------------------------------------------
// Laws of the pattern
// ---------------------------------------------------------------------------

/// In a stamped buffer, the 4-byte big-endian sequence index inside the tag
/// at offset `k * stride` equals that offset divided by the stride (taken
/// modulo 2^32, the width of the stored index).
pub proof fn lemma_tag_index_is_offset_over_stride(data: Seq<u8>, stride: nat, k: nat)
    requires
        stride >= 1,
        stamped(data, stride),
        8 + k * stride < data.len(),
    ensures
        be32_at(data, (k * stride + 4) as int) == (((k * stride) as int / stride as int)
            % 0x1_0000_0000),
{
    assert(stamp_ok(data, stride, k));
    let off = (k * stride) as int;
    assert(data[off + 4] == tag_byte(k, 4));
    assert(data[off + 5] == tag_byte(k, 5));
    assert(data[off + 6] == tag_byte(k, 6));
    assert(data[off + 7] == tag_byte(k, 7));
    let m = k % 0x1_0000_0000;
    assert(m < 0x1_0000_0000) by {
        lemma_mod_bound(k as int, 0x1_0000_0000);
    }
    assert(m / 0x100_0000 < 0x100) by {
        lemma_multiply_divide_lt(m as int, 0x100_0000, 0x100);
    }
    assert((m / 0x1_0000) % 0x100 < 0x100 && (m / 0x100) % 0x100 < 0x100 && m % 0x100 < 0x100) by {
        lemma_mod_bound((m / 0x1_0000) as int, 0x100);
        lemma_mod_bound((m / 0x100) as int, 0x100);
        lemma_mod_bound(m as int, 0x100);
    }
    let mv = m as u64;
    assert((mv / 0x100_0000) * 0x100_0000 + ((mv / 0x1_0000) % 0x100) * 0x1_0000 + ((mv / 0x100)
        % 0x100) * 0x100 + mv % 0x100 == mv) by (bit_vector)
        requires
            mv < 0x1_0000_0000,
    ;
    assert((k * stride) as int / stride as int == k) by {
        lemma_mul_is_commutative(k as int, stride as int);
        lemma_div_multiples_vanish(k as int, stride as int);
    }
}

/// Flipping a single byte inside the 8-byte window of tag `k` of a stamped
/// buffer breaks exactly that tag: every other tag still matches, so the
/// fail-fast walk must stop at offset `k * stride` and nowhere else.
pub proof fn lemma_single_flip_detected(orig: Seq<u8>, data: Seq<u8>, stride: nat, k: nat, p: int)
    requires
        stride >= 8,
        stamped(orig, stride),
        data.len() == orig.len(),
        8 + k * stride < orig.len(),
        k * stride <= p < k * stride + 8,
        data[p] != orig[p],
        forall|q: int| 0 <= q < data.len() && q != p ==> data[q] == orig[q],
    ensures
        !stamp_ok(data, stride, k),
        forall|k2: nat|
            8 + k2 * stride < data.len() && k2 != k ==> #[trigger] stamp_ok(data, stride, k2),
{
    let off = (k * stride) as int;
    assert(stamp_ok(orig, stride, k));
    assert(!stamp_ok(data, stride, k)) by {
        if stamp_ok(data, stride, k) {
            let j = p - off;
            assert(data[off + j] == tag_byte(k, j));
            assert(orig[off + j] == tag_byte(k, j));
        }
    }
    assert forall|k2: nat| 8 + k2 * stride < data.len() && k2 != k implies #[trigger] stamp_ok(
        data,
        stride,
        k2,
    ) by {
        assert(stamp_ok(orig, stride, k2));
        let off2 = (k2 * stride) as int;
        assert forall|j: int| 0 <= j < 8 implies data[off2 + j] == #[trigger] tag_byte(k2, j) by {
            if k2 < k {
                lemma_mul_inequality(k2 as int + 1, k as int, stride as int);
                lemma_mul_is_distributive_add_other_way(stride as int, k2 as int, 1);
                assert(off2 + j < p);
            } else {
                lemma_mul_inequality(k as int + 1, k2 as int, stride as int);
                lemma_mul_is_distributive_add_other_way(stride as int, k as int, 1);
                assert(p < off2 + j || p < off2);
            }
            assert(data[off2 + j] == orig[off2 + j]);
        }
    }
}

/// Fail-fast: with exactly two corrupted tags, the earlier one is the tag
/// the verifier reports. Any index a verifying walk can stop at (all
/// earlier tags intact, its own tag broken) is the earlier corrupted one;
/// the later offset is never reported.
pub proof fn lemma_fail_fast_reports_first(data: Seq<u8>, stride: nat, ka: nat, kb: nat, idx: nat)
    requires
        stride >= 1,
        8 + ka * stride < data.len(),
        8 + kb * stride < data.len(),
        ka < kb,
        !stamp_ok(data, stride, ka),
        !stamp_ok(data, stride, kb),
        forall|k: nat|
            8 + k * stride < data.len() && k != ka && k != kb ==> #[trigger] stamp_ok(
                data,
                stride,
                k,
            ),
        8 + idx * stride < data.len(),
        !stamp_ok(data, stride, idx),
        forall|k: nat| k < idx ==> #[trigger] stamp_ok(data, stride, k),
    ensures
        idx == ka,
{
    if idx > ka {
        assert(stamp_ok(data, stride, ka));
    }
    if idx < ka {
        assert(stamp_ok(data, stride, idx));
    }
}

} // verus!
