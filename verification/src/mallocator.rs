//! The interactive allocator tool's engine: heap allocations tracked in
//! per-size buckets, each filled with a recognizable byte pattern, with an
//! exact running total of the bytes held. The interactive command loop
//! around it is the surrounding program's business.

use vstd::prelude::*;
use vstd::arithmetic::mul::lemma_mul_nonnegative;

verus! {

// ---------------------------------------------------------------------------
// Building one allocation
// ---------------------------------------------------------------------------

/// Relies on `rand::random::<u8>`: a fresh random byte; nothing is assumed
/// of its value.
#[verifier::external_body]
fn random_u8() -> u8 {
    rand::random()
}

/// Relies on `rand::random::<u128>`: a fresh random seed; nothing is
/// assumed of its value.
#[verifier::external_body]
fn random_u128() -> u128 {
    rand::random()
}

/// The deterministic fill byte at position `i` for a seed: the position's
/// residue modulo four picks one of the seed's four low bytes.
pub open spec fn spec_pattern_byte(seed: u128, i: int) -> u8 {
    if i % 4 == 0 {
        (seed % 0x100) as u8
    } else if i % 4 == 1 {
        ((seed / 0x100) % 0x100) as u8
    } else if i % 4 == 2 {
        ((seed / 0x1_0000) % 0x100) as u8
    } else {
        ((seed / 0x100_0000) % 0x100) as u8
    }
}

/// One allocation filled with a single byte value throughout.
pub fn build_same_value(value: u8, size: usize) -> (r: Vec<u8>)
    ensures
        r@.len() == size,
        forall|i: int| 0 <= i < size ==> r@[i] == value,
{
    let mut v: Vec<u8> = Vec::new();
    while v.len() < size
        invariant
            v@.len() <= size,
            forall|i: int| 0 <= i < v@.len() ==> v@[i] == value,
        decreases size - v@.len(),
    {
        v.push(value);
    }
    v
}

/// One allocation carrying the seed's byte pattern, with every tenth
/// position replaced by a fresh random byte (those positions promise
/// nothing).
pub fn build_patterned(seed: u128, size: usize) -> (r: Vec<u8>)
    ensures
        r@.len() == size,
        forall|i: int| 0 <= i < size && i % 10 != 0 ==> r@[i] == spec_pattern_byte(seed, i),
{
    let mut v: Vec<u8> = Vec::new();
    while v.len() < size
        invariant
            v@.len() <= size,
            forall|i: int| 0 <= i < v@.len() && i % 10 != 0 ==> v@[i] == spec_pattern_byte(seed, i),
        decreases size - v@.len(),
    {
        let i = v.len();
        let b: u8;
        if i % 10 == 0 {
            b = random_u8();
        } else {
            let k: u32 = ((i % 4) as u32) * 8;
            let shifted = ((seed >> k) & 0xff) as u8;
            proof {
                let s = seed;
                assert((s >> 0u32) & 0xff == s % 0x100) by (bit_vector);
                assert((s >> 8u32) & 0xff == (s / 0x100) % 0x100) by (bit_vector);
                assert((s >> 16u32) & 0xff == (s / 0x1_0000) % 0x100) by (bit_vector);
                assert((s >> 24u32) & 0xff == (s / 0x100_0000) % 0x100) by (bit_vector);
            }
            b = shifted;
        }
        v.push(b);
    }
    v
}

/// Builds one allocation of the given size: a single random byte repeated
/// when same-value filling is on, the random-seeded byte pattern otherwise.
pub fn new_allocation(same_value_fill: bool, size: usize) -> (r: Vec<u8>)
    ensures
        r@.len() == size,
{
    if same_value_fill {
        let n = random_u8();
        build_same_value(n, size)
    } else {
        let n = random_u128();
        build_patterned(n, size)
    }
}

// ---------------------------------------------------------------------------
// The tracked allocation state
// ---------------------------------------------------------------------------

/// All live allocations of one size.
pub struct SizeBucket {
    pub size: usize,
    pub allocations: Vec<Vec<u8>>,
}

/// The bytes a bucket holds.
pub open spec fn spec_bucket_bytes(b: SizeBucket) -> int {
    b.size * b.allocations.len()
}

/// The bytes all buckets hold together.
pub open spec fn spec_total_bytes(bs: Seq<SizeBucket>) -> int
    decreases bs.len(),
{
    if bs.len() == 0 {
        0
    } else {
        spec_total_bytes(bs.drop_last()) + spec_bucket_bytes(bs.last())
    }
}

/// The first bucket of the given size at or after position `i`, or -1.
pub open spec fn bucket_index_from(bs: Seq<SizeBucket>, size: usize, i: int) -> int
    decreases bs.len() - i,
    when 0 <= i <= bs.len()
{
    if i >= bs.len() {
        -1
    } else if bs[i].size == size {
        i
    } else {
        bucket_index_from(bs, size, i + 1)
    }
}

pub open spec fn bucket_index(bs: Seq<SizeBucket>, size: usize) -> int {
    bucket_index_from(bs, size, 0)
}

proof fn lemma_bucket_index_unique(bs: Seq<SizeBucket>, size: usize, i: int, j: int)
    requires
        0 <= i <= j <= bs.len(),
        forall|k: int| i <= k < j ==> bs[k].size != size,
        j < bs.len() ==> bs[j].size == size,
    ensures
        bucket_index_from(bs, size, i) == if j < bs.len() {
            j
        } else {
            -1
        },
    decreases j - i,
{
    if i < j {
        lemma_bucket_index_unique(bs, size, i + 1, j);
    }
}

proof fn lemma_total_bytes_nonneg(bs: Seq<SizeBucket>)
    ensures
        spec_total_bytes(bs) >= 0,
    decreases bs.len(),
{
    if bs.len() > 0 {
        lemma_total_bytes_nonneg(bs.drop_last());
        lemma_mul_nonnegative(bs.last().size as int, bs.last().allocations.len() as int);
    }
}

proof fn lemma_total_bytes_update(bs: Seq<SizeBucket>, i: int, b: SizeBucket)
    requires
        0 <= i < bs.len(),
    ensures
        spec_total_bytes(bs.update(i, b)) == spec_total_bytes(bs) - spec_bucket_bytes(bs[i])
            + spec_bucket_bytes(b),
    decreases bs.len(),
{
    let up = bs.update(i, b);
    if i == bs.len() - 1 {
        assert(up.drop_last() =~= bs.drop_last());
    } else {
        assert(up.drop_last() =~= bs.drop_last().update(i, b));
        lemma_total_bytes_update(bs.drop_last(), i, b);
        assert(up.last() == bs.last());
    }
}

proof fn lemma_total_bytes_remove(bs: Seq<SizeBucket>, i: int)
    requires
        0 <= i < bs.len(),
    ensures
        spec_total_bytes(bs.remove(i)) == spec_total_bytes(bs) - spec_bucket_bytes(bs[i]),
    decreases bs.len(),
{
    let rm = bs.remove(i);
    if i == bs.len() - 1 {
        assert(rm =~= bs.drop_last());
    } else {
        assert(rm.drop_last() =~= bs.drop_last().remove(i));
        lemma_total_bytes_remove(bs.drop_last(), i);
        assert(rm.last() == bs.last());
    }
}

proof fn lemma_total_bytes_bound(bs: Seq<SizeBucket>, i: int)
    requires
        0 <= i < bs.len(),
    ensures
        spec_bucket_bytes(bs[i]) <= spec_total_bytes(bs),
{
    lemma_total_bytes_remove(bs, i);
    lemma_total_bytes_nonneg(bs.remove(i));
}

/// The allocator tool's whole state: the running byte total, the size new
/// allocations take, the live buckets, and the two display/fill switches.
pub struct AllocState {
    pub tot_allocated: u128,
    pub base_size: usize,
    pub buckets: Vec<SizeBucket>,
    pub binary_multiples: bool,
    pub same_value_fill: bool,
}

/// The accounting invariant: the running total equals the bytes the
/// buckets hold.
pub open spec fn accounted(s: AllocState) -> bool {
    s.tot_allocated == spec_total_bytes(s.buckets@)
}

impl AllocState {
    /// The initial state: nothing allocated, a one-megabyte base size,
    /// decimal units, patterned fill.
    pub fn new() -> (r: AllocState)
        ensures
            accounted(r),
            r.tot_allocated == 0,
            r.base_size == 1_000_000,
            r.buckets@.len() == 0,
            !r.binary_multiples,
            !r.same_value_fill,
    {
        AllocState {
            tot_allocated: 0,
            base_size: 1_000_000,
            buckets: Vec::new(),
            binary_multiples: false,
            same_value_fill: false,
        }
    }

    /// Sets the size that future allocations take.
    pub fn set_base_size(&mut self, size: usize)
        ensures
            *final(self) == (AllocState { base_size: size, ..*old(self) }),
    {
        self.base_size = size;
    }

    /// Flips between binary and decimal display units.
    pub fn toggle_binary_multiples(&mut self)
        ensures
            *final(self) == (AllocState {
                binary_multiples: !old(self).binary_multiples,
                ..*old(self)
            }),
    {
        self.binary_multiples = !self.binary_multiples;
    }

    /// Flips between same-value and patterned filling.
    pub fn toggle_same_value_fill(&mut self)
        ensures
            *final(self) == (AllocState { same_value_fill: !old(self).same_value_fill, ..*old(self) }),
    {
        self.same_value_fill = !self.same_value_fill;
    }

    fn find_bucket(&self, size: usize) -> (r: Option<usize>)
        ensures
            r matches Some(i) ==> i == bucket_index(self.buckets@, size) && i
                < self.buckets@.len() && self.buckets@[i as int].size == size,
            r is None ==> bucket_index(self.buckets@, size) == -1,
    {
        let mut j: usize = 0;
        while j < self.buckets.len()
            invariant
                0 <= j <= self.buckets@.len(),
                forall|k: int| 0 <= k < j ==> self.buckets@[k].size != size,
            decreases self.buckets@.len() - j,
        {
            if self.buckets[j].size == size {
                proof {
                    lemma_bucket_index_unique(self.buckets@, size, 0, j as int);
                }
                return Some(j);
            }
            j = j + 1;
        }
        proof {
            lemma_bucket_index_unique(self.buckets@, size, 0, self.buckets@.len() as int);
        }
        None
    }

    /// Allocates `count` fresh buffers of the base size into that size's
    /// bucket (creating it if absent) and grows the running total by
    /// exactly the bytes added.
    pub fn allocate(&mut self, count: usize)
        requires
            accounted(*old(self)),
            old(self).tot_allocated + old(self).base_size * count <= u128::MAX,
        ensures
            accounted(*final(self)),
            final(self).tot_allocated == old(self).tot_allocated + old(self).base_size * count,
            final(self).base_size == old(self).base_size,
            final(self).binary_multiples == old(self).binary_multiples,
            final(self).same_value_fill == old(self).same_value_fill,
    {
        let base = self.base_size;
        let mut bucket: SizeBucket;
        let ghost pre = self.buckets@;
        let at: usize;
        match self.find_bucket(base) {
            Some(i) => {
                at = i;
                bucket = self.buckets.remove(i);
            },
            None => {
                at = self.buckets.len();
                bucket = SizeBucket { size: base, allocations: Vec::new() };
            },
        }
        let ghost pre_bucket = bucket;
        let mut added: usize = 0;
        while added < count
            invariant
                0 <= added <= count,
                bucket.size == pre_bucket.size,
                bucket.allocations@.len() == pre_bucket.allocations@.len() + added,
            decreases count - added,
        {
            let a = new_allocation(self.same_value_fill, base);
            bucket.allocations.push(a);
            added = added + 1;
        }
        proof {
            lemma_mul_nonnegative(base as int, count as int);
        }
        self.buckets.insert(at, bucket);
        proof {
            vstd::arithmetic::mul::lemma_mul_is_distributive_add(
                base as int,
                pre_bucket.allocations@.len() as int,
                count as int,
            );
            if bucket_index(pre, base) >= 0 {
                assert(pre[at as int].size == base);
                assert(self.buckets@ =~= pre.update(at as int, bucket));
                lemma_total_bytes_update(pre, at as int, bucket);
                assert(spec_bucket_bytes(bucket) == base * (pre[at as int].allocations@.len()
                    + count));
                assert(spec_bucket_bytes(pre[at as int]) == base * pre[
                    at as int
                ].allocations@.len());
            } else {
                assert(self.buckets@.drop_last() =~= pre);
                assert(self.buckets@.last() == bucket);
                assert(spec_bucket_bytes(bucket) == base * (0 + count));
            }
        }
        self.tot_allocated = self.tot_allocated + (base as u128) * (count as u128);
    }

    /// Frees up to `count` buffers of the base size, newest first; a bucket
    /// emptied by this disappears. The running total shrinks by exactly
    /// the bytes freed; without a bucket of that size nothing changes.
    pub fn free(&mut self, count: usize)
        requires
            accounted(*old(self)),
        ensures
            accounted(*final(self)),
            final(self).tot_allocated <= old(self).tot_allocated,
            final(self).base_size == old(self).base_size,
            final(self).binary_multiples == old(self).binary_multiples,
            final(self).same_value_fill == old(self).same_value_fill,
            bucket_index(old(self).buckets@, old(self).base_size) == -1 ==> *final(self) == *old(
                self,
            ),
            ({
                let bi = bucket_index(old(self).buckets@, old(self).base_size);
                bi >= 0 ==> {
                    let have = old(self).buckets@[bi].allocations@.len();
                    let freed = if count <= have {
                        count as int
                    } else {
                        have as int
                    };
                    final(self).tot_allocated == old(self).tot_allocated - old(self).base_size
                        * freed
                }
            }),
    {
        let base = self.base_size;
        let ghost pre = self.buckets@;
        let i: usize;
        match self.find_bucket(base) {
            Some(found) => {
                i = found;
            },
            None => {
                return ;
            },
        }
        let mut bucket = self.buckets.remove(i);
        let ghost pre_bucket = bucket;
        proof {
            assert(pre[i as int].size == base);
        }
        let mut freed: usize = 0;
        while freed < count && bucket.allocations.len() > 0
            invariant
                0 <= freed <= count,
                bucket.size == pre_bucket.size,
                freed <= pre_bucket.allocations@.len(),
                bucket.allocations@.len() == pre_bucket.allocations@.len() - freed,
            decreases count - freed,
        {
            let _ = bucket.allocations.pop();
            freed = freed + 1;
        }
        proof {
            lemma_total_bytes_remove(pre, i as int);
            lemma_total_bytes_bound(pre, i as int);
            lemma_total_bytes_nonneg(pre.remove(i as int));
            vstd::arithmetic::mul::lemma_mul_is_distributive_sub(
                base as int,
                pre_bucket.allocations@.len() as int,
                freed as int,
            );
            lemma_mul_nonnegative(base as int, freed as int);
            vstd::arithmetic::mul::lemma_mul_inequality(
                freed as int,
                pre_bucket.allocations@.len() as int,
                base as int,
            );
            vstd::arithmetic::mul::lemma_mul_is_commutative(
                freed as int,
                base as int,
            );
            vstd::arithmetic::mul::lemma_mul_is_commutative(
                pre_bucket.allocations@.len() as int,
                base as int,
            );
            assert(spec_bucket_bytes(pre[i as int]) == base
                * pre_bucket.allocations@.len() as int);
            assert(base * freed <= self.tot_allocated);
        }
        if bucket.allocations.len() > 0 {
            self.buckets.insert(i, bucket);
            proof {
                assert(self.buckets@ =~= pre.update(i as int, self.buckets@[i as int]));
                lemma_total_bytes_update(pre, i as int, self.buckets@[i as int]);
            }
        }
        self.tot_allocated = self.tot_allocated - (base as u128) * (freed as u128);
    }
}

} // verus!
