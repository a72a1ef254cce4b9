//! The hash table of the parking lot, which maps keys to buckets.

use crate::lot::bucket::{waiting, Bucket, ThreadData};
use vstd::arithmetic::power2::{
    lemma2_to64, lemma2_to64_rest, lemma_pow2_adds, lemma_pow2_pos, lemma_pow2_strictly_increases,
    lemma_pow2_unfold, pow2,
};
use vstd::bits::{lemma_u32_shr_is_div, lemma_u64_shr_is_div};
use vstd::prelude::*;

verus! {

/// Even with 3x more buckets than threads, the memory overhead per thread is
/// still only a few hundred bytes per thread.
pub const LOAD_FACTOR: usize = 3;

/// The multiplier of the hash function where addresses have 32 bits.
pub const GOLDEN_32: u32 = 0x9E37_79B9;

/// The multiplier of the hash function where addresses have 64 bits.
pub const GOLDEN_64: u64 = 0x9E37_79B9_7F4A_7C15;

/// The topmost `bits` bits of the lowest `width` bits of `key * multiplier`.
pub open spec fn top_bits(key: int, multiplier: int, width: nat, bits: nat) -> int {
    ((key * multiplier) % (pow2(width) as int)) / (pow2((width - bits) as nat) as int)
}

/// Hash function for addresses: multiplicative hashing by the golden ratio.
pub open spec fn hash_of(key: usize, bits: u32) -> int {
    if usize::BITS == 32 {
        top_bits(key as int, GOLDEN_32 as int, 32, bits as nat)
    } else {
        top_bits(key as int, GOLDEN_64 as int, 64, bits as nat)
    }
}

/// The bits taken off the top are a number of that many bits.
proof fn lemma_top_bits(key: int, multiplier: int, width: nat, bits: nat)
    requires
        bits <= width,
    ensures
        0 <= top_bits(key, multiplier, width, bits) < pow2(bits),
{
    let product = (key * multiplier) % (pow2(width) as int);
    let low = pow2((width - bits) as nat) as int;
    lemma_pow2_pos(width);
    lemma_pow2_pos((width - bits) as nat);
    lemma_pow2_adds(bits, (width - bits) as nat);
    assert(0 <= product < pow2(bits) * low);
    let high = pow2(bits) as int;
    assert(0 <= product / low < high) by (nonlinear_arith)
        requires
            0 <= product < high * low,
            low > 0,
    ;
}

/// A key hashes to a bucket of a table with that many bits.
pub proof fn lemma_hash_in_range(key: usize, bits: u32)
    requires
        bits <= usize::BITS,
    ensures
        0 <= hash_of(key, bits) < pow2(bits as nat),
{
    if usize::BITS == 32 {
        lemma_top_bits(key as int, GOLDEN_32 as int, 32, bits as nat);
    } else {
        lemma_top_bits(key as int, GOLDEN_64 as int, 64, bits as nat);
    }
}

/// Hash function for addresses. With no bits at all there is nothing to hash to.
pub fn hash(key: usize, bits: u32) -> (r: usize)
    requires
        1 <= bits <= usize::BITS,
    ensures
        r == hash_of(key, bits),
        r < pow2(bits as nat),
{
    proof {
        lemma_hash_in_range(key, bits);
        lemma2_to64();
        lemma2_to64_rest();
    }
    if usize::BITS == 32 {
        let product = (key as u32).wrapping_mul(GOLDEN_32);
        let shift = 32 - bits;
        proof {
            lemma_u32_shr_is_div(product, shift);
        }
        (product >> shift) as usize
    } else {
        let product = (key as u64).wrapping_mul(GOLDEN_64);
        let shift = 64 - bits;
        proof {
            lemma_u64_shr_is_div(product, shift as u64);
            assert(product >> shift == product >> (shift as u64));
        }
        (product >> shift) as usize
    }
}

/// Whether a table of that many buckets is big enough for the given number of threads.
pub fn is_big_enough(buckets: usize, num_threads: usize) -> (r: bool)
    requires
        LOAD_FACTOR * num_threads <= usize::MAX,
    ensures
        r == (buckets >= LOAD_FACTOR * num_threads),
{
    buckets >= LOAD_FACTOR * num_threads
}

/// The smallest number of bits that can tell `count` things apart: `2^bits` is the next power of
/// two.
pub open spec fn bits_for(count: int, bits: nat) -> bool {
    pow2(bits) >= count && (bits > 0 ==> pow2((bits - 1) as nat) < count)
}

/// The parked threads whose keys hash to `index`, in order.
pub open spec fn hashed_to(queue: Seq<ThreadData>, bits: u32, index: int) -> Seq<ThreadData> {
    queue.filter(|t: ThreadData| hash_of(t.key, bits) == index)
}

/// All threads parked in some buckets, bucket by bucket.
pub open spec fn all_parked(buckets: Seq<Bucket>) -> Seq<ThreadData>
    decreases buckets.len(),
{
    if buckets.len() == 0 {
        seq![]
    } else {
        all_parked(buckets.drop_last()) + buckets.last()@
    }
}

/// Hash buckets, and the number of bits by which they are found.
pub struct HashTable {
    /// Hash buckets for the table.
    pub entries: Vec<Bucket>,
    /// Number of bits used for the hash function.
    pub hash_bits: u32,
}

impl HashTable {
    /// Whether every hash stands for a bucket.
    pub open spec fn has_shape(&self) -> bool {
        &&& 1 <= self.hash_bits <= usize::BITS
        &&& self.entries@.len() == pow2(self.hash_bits as nat)
    }

    /// Whether the table has a bucket for every hash and every parked thread is in the bucket
    /// that its key hashes to.
    pub open spec fn wf(&self) -> bool {
        &&& self.has_shape()
        &&& forall|b: int, i: int|
            0 <= b < self.entries@.len() && 0 <= i < self.entries@[b]@.len() ==> hash_of(
                (#[trigger] self.entries@[b]@[i]).key,
                self.hash_bits,
            ) == b
    }

    /// The queue associated with a key: the threads parked on it, oldest first.
    pub open spec fn queue(&self, key: usize) -> Seq<ThreadData> {
        waiting(self.entries@[hash_of(key, self.hash_bits)]@, key)
    }

    /// An empty table that is big enough for the given number of threads.
    pub fn new(num_threads: usize) -> (r: HashTable)
        requires
            LOAD_FACTOR * num_threads <= usize::MAX / 2,
        ensures
            bits_for(LOAD_FACTOR * num_threads, r.hash_bits as nat),
            r.entries@.len() == pow2(r.hash_bits as nat),
            forall|i: int|
                0 <= i < r.entries@.len() ==> (#[trigger] r.entries@[i])@ == Seq::<
                    ThreadData,
                >::empty(),
            num_threads >= 1 ==> r.wf(),
            r.entries@.len() >= 3 * num_threads,
            r.entries@.len() == 1 || r.entries@.len() < 6 * num_threads,
    {
        let wanted = LOAD_FACTOR * num_threads;
        let mut new_size: usize = 1;
        let mut hash_bits: u32 = 0;
        proof {
            lemma2_to64();
            lemma2_to64_rest();
        }
        while new_size < wanted
            invariant
                wanted == LOAD_FACTOR * num_threads,
                wanted <= usize::MAX / 2,
                new_size >= 1,
                new_size == pow2(hash_bits as nat),
                hash_bits < usize::BITS,
                hash_bits > 0 ==> pow2((hash_bits - 1) as nat) < wanted,
            decreases usize::BITS - hash_bits,
        {
            proof {
                lemma_pow2_unfold((hash_bits + 1) as nat);
                if hash_bits + 1 >= usize::BITS {
                    lemma2_to64();
                    lemma2_to64_rest();
                    assert(hash_bits == 31 || hash_bits == 63);
                    assert(false);
                }
            }
            new_size = new_size * 2;
            hash_bits = hash_bits + 1;
        }
        proof {
            if hash_bits > 0 {
                lemma_pow2_unfold(hash_bits as nat);
            }
        }
        let mut entries: Vec<Bucket> = Vec::new();
        while entries.len() < new_size
            invariant
                entries@.len() <= new_size,
                forall|i: int|
                    0 <= i < entries@.len() ==> (#[trigger] entries@[i])@ == Seq::<
                        ThreadData,
                    >::empty(),
            decreases new_size - entries@.len(),
        {
            entries.push(Bucket::new());
        }
        HashTable { entries, hash_bits }
    }

    /// Goes through all threads in the bucket and inserts them into the buckets corresponding
    /// to their keys.
    pub fn rehash_bucket_into(&mut self, bucket: Bucket)
        requires
            old(self).has_shape(),
        ensures
            final(self).hash_bits == old(self).hash_bits,
            final(self).entries@.len() == old(self).entries@.len(),
            forall|b: int|
                0 <= b < old(self).entries@.len() ==> (#[trigger] final(self).entries@[b])@ == old(
                    self,
                ).entries@[b]@ + hashed_to(bucket@, old(self).hash_bits, b),
    {
        let ghost queue = bucket@;
        let ghost bits = self.hash_bits;
        let ghost entries = self.entries@;
        let mut rest = bucket;
        let ghost mut seen: int = 0;
        proof {
            reveal(Seq::filter);
            assert(queue.take(0) =~= Seq::empty());
            assert(queue.skip(0) =~= queue);
            assert forall|b: int| 0 <= b < entries.len() implies (
            #[trigger] self.entries@[b])@ == entries[b]@ + hashed_to(queue.take(0), bits, b) by {
                assert(hashed_to(queue.take(0), bits, b) =~= Seq::empty());
                assert(entries[b]@ + Seq::empty() =~= entries[b]@);
            }
        }
        while !rest.is_empty()
            invariant
                self.hash_bits == bits,
                self.has_shape(),
                self.entries@.len() == entries.len(),
                0 <= seen <= queue.len(),
                rest@ == queue.skip(seen),
                forall|b: int|
                    0 <= b < entries.len() ==> (#[trigger] self.entries@[b])@ == entries[b]@
                        + hashed_to(queue.take(seen), bits, b),
            decreases rest@.len(),
        {
            let ghost before = self.entries@;
            let current = rest.pop_first();
            let ghost moved = current;
            assert(moved == queue[seen]);
            let index = hash(current.key, self.hash_bits);
            self.entries[index].append(current);
            proof {
                assert(queue.skip(seen).drop_first() =~= queue.skip(seen + 1));
                assert(queue.take(seen + 1).drop_last() =~= queue.take(seen));
                assert forall|b: int| 0 <= b < entries.len() implies (
                #[trigger] self.entries@[b])@ == entries[b]@ + hashed_to(
                    queue.take(seen + 1),
                    bits,
                    b,
                ) by {
                    reveal(Seq::filter);
                    assert(before[b]@ == entries[b]@ + hashed_to(queue.take(seen), bits, b));
                    if b == index {
                        assert(self.entries@[b]@ =~= entries[b]@ + hashed_to(
                            queue.take(seen),
                            bits,
                            b,
                        ).push(moved));
                    }
                }
                seen = seen + 1;
            }
        }
        assert(queue.take(seen) =~= queue);
    }

    /// A table that is big enough for the given number of threads and holds the threads that
    /// are parked in the buckets of an older one.
    pub fn rehash(buckets: Vec<Bucket>, num_threads: usize) -> (r: HashTable)
        requires
            1 <= num_threads,
            LOAD_FACTOR * num_threads <= usize::MAX / 2,
        ensures
            r.wf(),
            bits_for(LOAD_FACTOR * num_threads, r.hash_bits as nat),
            3 * num_threads <= r.entries@.len() < 6 * num_threads,
            forall|b: int|
                0 <= b < r.entries@.len() ==> (#[trigger] r.entries@[b])@ == hashed_to(
                    all_parked(buckets@),
                    r.hash_bits,
                    b,
                ),
    {
        let mut new_table = HashTable::new(num_threads);
        let ghost bits = new_table.hash_bits;
        let ghost all = buckets@;
        let mut rest = buckets;
        let ghost mut seen: int = 0;
        proof {
            reveal(Seq::filter);
            assert(all.take(0) =~= Seq::empty());
            assert(all.skip(0) =~= all);
        }
        while rest.len() > 0
            invariant
                new_table.hash_bits == bits,
                new_table.has_shape(),
                3 * num_threads <= new_table.entries@.len() < 6 * num_threads,
                0 <= seen <= all.len(),
                rest@ == all.skip(seen),
                forall|b: int|
                    0 <= b < new_table.entries@.len() ==> (#[trigger] new_table.entries@[b])@
                        == hashed_to(all_parked(all.take(seen)), bits, b),
            decreases rest@.len(),
        {
            let ghost before = new_table.entries@;
            let bucket = rest.remove(0);
            let ghost queue = bucket@;
            new_table.rehash_bucket_into(bucket);
            proof {
                assert(all.skip(seen).remove(0) =~= all.skip(seen + 1));
                assert(all.take(seen + 1).drop_last() =~= all.take(seen));
                assert forall|b: int| 0 <= b < before.len() implies (
                #[trigger] new_table.entries@[b])@ == hashed_to(
                    all_parked(all.take(seen + 1)),
                    bits,
                    b,
                ) by {
                    assert(before[b]@ == hashed_to(all_parked(all.take(seen)), bits, b));
                    Seq::filter_distributes_over_add(
                        all_parked(all.take(seen)),
                        queue,
                        |t: ThreadData| hash_of(t.key, bits) == b,
                    );
                }
                seen = seen + 1;
            }
        }
        proof {
            assert(all.take(seen) =~= all);
            lemma_hashed_wf(new_table, all_parked(all));
        }
        new_table
    }
}

/// A table whose buckets hold what hashes to them is well-formed.
proof fn lemma_hashed_wf(table: HashTable, queue: Seq<ThreadData>)
    requires
        table.has_shape(),
        forall|b: int|
            0 <= b < table.entries@.len() ==> (#[trigger] table.entries@[b])@ == hashed_to(
                queue,
                table.hash_bits,
                b,
            ),
    ensures
        table.wf(),
{
    assert forall|b: int, i: int|
        0 <= b < table.entries@.len() && 0 <= i < table.entries@[b]@.len() implies hash_of(
        (#[trigger] table.entries@[b]@[i]).key,
        table.hash_bits,
    ) == b by {
        let p = |t: ThreadData| hash_of(t.key, table.hash_bits) == b;
        queue.lemma_filter_pred(p, i);
        assert(p(queue.filter(p)[i]));
    }
}

/// How keys are hashed: multiplied by the golden ratio, with what does not fit dropped, and as
/// many of the topmost bits of that taken as there are hash bits.
pub proof fn law_hash_takes_top_bits(key: usize, bits: u32)
    requires
        1 <= bits <= usize::BITS,
    ensures
        ({
            let product = if usize::BITS == 32 {
                (key * 0x9E37_79B9) % 0x1_0000_0000
            } else {
                (key * 0x9E37_79B9_7F4A_7C15) % 0x1_0000_0000_0000_0000
            };
            let low = pow2((usize::BITS - bits) as nat) as int;
            hash_of(key, bits) * low <= product < (hash_of(key, bits) + 1) * low
        }),
{
    lemma2_to64();
    lemma2_to64_rest();
    let product = if usize::BITS == 32 {
        (key * 0x9E37_79B9) % 0x1_0000_0000
    } else {
        (key * 0x9E37_79B9_7F4A_7C15) % 0x1_0000_0000_0000_0000
    };
    let low = pow2((usize::BITS - bits) as nat) as int;
    lemma_pow2_pos((usize::BITS - bits) as nat);
    assert(hash_of(key, bits) == product / low);
    assert((product / low) * low <= product < (product / low + 1) * low) by (nonlinear_arith)
        requires
            low > 0,
    ;
}

/// A table grows by telling keys apart that it did not tell apart before: keys which hash to
/// different buckets still do.
pub proof fn law_growing_tells_more_apart(a: usize, b: usize, bits: u32)
    requires
        1 <= bits < usize::BITS,
        hash_of(a, (bits + 1) as u32) == hash_of(b, (bits + 1) as u32),
    ensures
        hash_of(a, bits) == hash_of(b, bits),
{
    let more = (bits + 1) as u32;
    let low = pow2((usize::BITS - more) as nat) as int;
    lemma_pow2_pos((usize::BITS - more) as nat);
    lemma_pow2_unfold((usize::BITS - bits) as nat);
    assert(pow2((usize::BITS - bits) as nat) == 2 * low);
    law_hash_takes_top_bits(a, more);
    law_hash_takes_top_bits(b, more);
    law_hash_takes_top_bits(a, bits);
    law_hash_takes_top_bits(b, bits);
    let h = hash_of(a, more);
    lemma_halved(a, bits, low);
    lemma_halved(b, bits, low);
}

proof fn lemma_halved(key: usize, bits: u32, low: int)
    requires
        1 <= bits < usize::BITS,
        low > 0,
        low == pow2((usize::BITS - (bits + 1)) as nat),
        pow2((usize::BITS - bits) as nat) == 2 * low,
    ensures
        hash_of(key, bits) == hash_of(key, (bits + 1) as u32) / 2,
{
    law_hash_takes_top_bits(key, bits);
    law_hash_takes_top_bits(key, (bits + 1) as u32);
    let h = hash_of(key, bits);
    let g = hash_of(key, (bits + 1) as u32);
    let product = if usize::BITS == 32 {
        (key * 0x9E37_79B9) % 0x1_0000_0000
    } else {
        (key * 0x9E37_79B9_7F4A_7C15) % 0x1_0000_0000_0000_0000
    };
    assert(h * (2 * low) <= product < (h + 1) * (2 * low));
    assert(g * low <= product < (g + 1) * low);
    assert(2 * h <= g && g < 2 * h + 2) by (nonlinear_arith)
        requires
            h * (2 * low) <= product < (h + 1) * (2 * low),
            g * low <= product < (g + 1) * low,
            low > 0,
    ;
}

} // verus!
