//! Cutting a sequence into chunks and giving each chunk a fingerprint.
use vstd::prelude::*;
use crate::element::Element;

verus! {

/// The one way the operations here can fail.
#[derive(Debug, Clone, Copy, PartialEq, Eq, Structural)]
pub enum ChunkError {
    /// The chunk size was zero.
    InvalidArgument,
}

/// Starting state of the fingerprint accumulator (the 64-bit FNV offset basis).
pub const DIGEST_SEED: u64 = 0xcbf2_9ce4_8422_2325;

/// Multiplier of the fingerprint accumulator (the 64-bit FNV prime).
pub const DIGEST_PRIME: u64 = 0x0000_0100_0000_01b3;

/// Folds one word into the accumulator: xor, then multiply modulo 2^64.
pub open spec fn mix(h: u64, w: u64) -> u64 {
    (((h ^ w) as nat * DIGEST_PRIME as nat) % 0x1_0000_0000_0000_0000) as u64
}

/// The accumulator after folding the words in order, from a fresh seed.
pub open spec fn digest(ws: Seq<u64>) -> u64
    decreases ws.len(),
{
    if ws.len() == 0 {
        DIGEST_SEED
    } else {
        mix(digest(ws.drop_last()), ws.last())
    }
}

/// The words that the items of a chunk contribute, in order.
pub open spec fn words<T: Element>(c: Seq<T>) -> Seq<u64> {
    c.map_values(|x: T| x.word())
}

/// The fingerprint of one chunk.
pub open spec fn chunk_digest<T: Element>(c: Seq<T>) -> u64 {
    digest(words(c))
}

/// How many chunks of size `k` a sequence of length `len` is cut into.
pub open spec fn chunk_count(len: nat, k: nat) -> nat
    recommends
        k > 0,
{
    if len % k == 0 {
        len / k
    } else {
        len / k + 1
    }
}

/// Where chunk `i` ends: a full chunk later, or at the end of the sequence.
pub open spec fn chunk_end(len: int, k: int, i: int) -> int {
    if (i + 1) * k < len {
        (i + 1) * k
    } else {
        len
    }
}

/// The items of chunk `i` of `s`.
pub open spec fn chunk_of<T>(s: Seq<T>, k: nat, i: int) -> Seq<T> {
    s.subrange(i * k, chunk_end(s.len() as int, k as int, i))
}

/// The fingerprints of all chunks of `s`, in chunk order.
pub open spec fn fingerprints<T: Element>(s: Seq<T>, k: nat) -> Seq<u64> {
    Seq::new(chunk_count(s.len(), k), |i: int| chunk_digest(chunk_of(s, k, i)))
}

/// Chunk `i` exists exactly when it starts before the end of the sequence.
pub proof fn lemma_chunk_exists(len: nat, k: nat, i: int)
    requires
        k > 0,
        i >= 0,
    ensures
        (i < chunk_count(len, k)) == (i * k < len),
{
    let q = (len / k) as int;
    let r = (len % k) as int;
    assert(len == q * k + r && 0 <= r < k) by {
        vstd::arithmetic::div_mod::lemma_fundamental_div_mod(len as int, k as int);
    }
    if i < chunk_count(len, k) {
        if r == 0 {
            assert(i * k < len) by (nonlinear_arith)
                requires
                    i < q,
                    len == q * k,
                    k > 0,
            ;
        } else {
            assert(i * k < len) by (nonlinear_arith)
                requires
                    i <= q,
                    len == q * k + r,
                    r > 0,
                    k > 0,
            ;
        }
    } else {
        if r == 0 {
            assert(i * k >= len) by (nonlinear_arith)
                requires
                    i >= q,
                    len == q * k,
                    k > 0,
            ;
        } else {
            assert(i * k >= len) by (nonlinear_arith)
                requires
                    i >= q + 1,
                    len == q * k + r,
                    r < k,
                    k > 0,
            ;
        }
    }
}

/// The items of the chunks of `s` with the given indices, concatenated in order.
pub open spec fn gather<T>(s: Seq<T>, k: nat, idx: Seq<int>) -> Seq<T>
    decreases idx.len(),
{
    if idx.len() == 0 {
        Seq::empty()
    } else {
        gather(s, k, idx.drop_last()) + chunk_of(s, k, idx.last())
    }
}

/// The chunks of `s` before chunk `n`, concatenated, are the items of `s` up
/// to where chunk `n - 1` ends.
proof fn lemma_gather_prefix<T>(s: Seq<T>, k: nat, n: nat)
    requires
        k > 0,
        n <= chunk_count(s.len(), k),
    ensures
        gather(s, k, Seq::new(n, |i: int| i)) == s.subrange(
            0,
            if n == 0 {
                0
            } else {
                chunk_end(s.len() as int, k as int, n - 1)
            },
        ),
    decreases n,
{
    if n > 0 {
        let m = (n - 1) as nat;
        lemma_gather_prefix(s, k, m);
        let idx = Seq::new(n, |i: int| i);
        assert(idx.drop_last() =~= Seq::new(m, |i: int| i));
        lemma_chunk_exists(s.len(), k, m as int);
        if m > 0 {
            lemma_chunk_exists(s.len(), k, m - 1);
            assert((m - 1 + 1) * k == m * k) by (nonlinear_arith);
        }
        assert(0 <= m * k) by (nonlinear_arith);
        assert((m + 1) * k == m * k + k) by (nonlinear_arith);
        assert(s.subrange(0, (m * k) as int) + chunk_of(s, k, m as int) =~= s.subrange(
            0,
            chunk_end(s.len() as int, k as int, m as int),
        ));
    }
}

/// Cutting loses and repeats nothing: the chunks, in order, concatenate back
/// to the sequence. Each chunk holds `k` items, but the last, which holds
/// from one to `k`.
pub proof fn law_chunks_partition<T>(s: Seq<T>, k: nat)
    requires
        k > 0,
    ensures
        gather(s, k, Seq::new(chunk_count(s.len(), k), |i: int| i)) == s,
        forall|i: int|
            0 <= i < chunk_count(s.len(), k) - 1 ==> #[trigger] chunk_of(s, k, i).len() == k,
        chunk_count(s.len(), k) > 0 ==> 1 <= chunk_of(s, k, chunk_count(s.len(), k) - 1).len()
            <= k,
{
    let n = chunk_count(s.len(), k);
    lemma_gather_prefix(s, k, n);
    if n > 0 {
        lemma_chunk_exists(s.len(), k, n - 1);
        lemma_chunk_exists(s.len(), k, n as int);
        assert(n * k == (n - 1) * k + k) by (nonlinear_arith);
        assert(s.subrange(0, chunk_end(s.len() as int, k as int, n - 1)) =~= s);
    } else {
        assert(s.len() == 0) by {
            lemma_chunk_exists(s.len(), k, 0);
        }
        assert(s.subrange(0, 0) =~= s);
    }
    assert forall|i: int| 0 <= i < n - 1 implies #[trigger] chunk_of(s, k, i).len() == k by {
        lemma_chunk_exists(s.len(), k, i + 1);
        assert((i + 1) * k == i * k + k) by (nonlinear_arith);
        assert(0 <= i * k) by (nonlinear_arith)
            requires
                i >= 0,
        ;
    }
}

/// Fingerprinting is a function of its inputs: equal items and an equal chunk
/// size give equal fingerprint lists, on every call.
pub proof fn law_fingerprint_deterministic<T: Element>(s1: Seq<T>, s2: Seq<T>, k: nat)
    requires
        k > 0,
        s1 == s2,
    ensures
        fingerprints(s1, k) == fingerprints(s2, k),
{
}

/// A chunk's fingerprint depends on the items of that chunk alone: no state
/// carries over from one chunk to the next.
pub proof fn law_fingerprint_local<T: Element>(s1: Seq<T>, s2: Seq<T>, k: nat, i: int, j: int)
    requires
        k > 0,
        0 <= i < chunk_count(s1.len(), k),
        0 <= j < chunk_count(s2.len(), k),
        chunk_of(s1, k, i) == chunk_of(s2, k, j),
    ensures
        fingerprints(s1, k)[i] == fingerprints(s2, k)[j],
{
}

/// The number of chunks of size `chunk_size` in a sequence of length `len`.
pub fn num_chunks(len: usize, chunk_size: usize) -> (r: usize)
    requires
        chunk_size > 0,
    ensures
        r == chunk_count(len as nat, chunk_size as nat),
{
    if len % chunk_size == 0 {
        len / chunk_size
    } else {
        proof {
            assert(len / chunk_size < len) by (nonlinear_arith)
                requires
                    chunk_size > 0,
                    len % chunk_size != 0,
                    len >= 0,
            ;
        }
        len / chunk_size + 1
    }
}

/// Start and end positions of chunk `i` in a sequence of length `len`.
pub(crate) fn chunk_bounds(len: usize, chunk_size: usize, i: usize) -> (r: (usize, usize))
    requires
        chunk_size > 0,
        i < chunk_count(len as nat, chunk_size as nat),
    ensures
        r.0 == i * chunk_size,
        r.1 == chunk_end(len as int, chunk_size as int, i as int),
        r.0 < r.1 <= len,
{
    proof {
        lemma_chunk_exists(len as nat, chunk_size as nat, i as int);
    }
    let start = i * chunk_size;
    proof {
        assert((i + 1) * chunk_size == start + chunk_size) by (nonlinear_arith)
            requires
                start == i * chunk_size,
        ;
    }
    let end = if len - start <= chunk_size {
        len
    } else {
        start + chunk_size
    };
    (start, end)
}

/// The fingerprint of the items `data[start..end]`.
fn digest_range<T: Element>(data: &[T], start: usize, end: usize) -> (r: u64)
    requires
        start <= end <= data@.len(),
    ensures
        r == chunk_digest(data@.subrange(start as int, end as int)),
{
    let mut h: u64 = DIGEST_SEED;
    let mut j: usize = start;
    proof {
        assert(words(data@.subrange(start as int, start as int)) =~= Seq::<u64>::empty());
    }
    while j < end
        invariant
            start <= j <= end <= data@.len(),
            h == chunk_digest(data@.subrange(start as int, j as int)),
        decreases end - j,
    {
        let w = data[j].hash_word();
        proof {
            let next = words(data@.subrange(start as int, j + 1));
            assert(next.drop_last() =~= words(data@.subrange(start as int, j as int)));
            assert(next.last() == w);
        }
        h = (h ^ w).wrapping_mul(DIGEST_PRIME);
        j = j + 1;
    }
    h
}

/// The fingerprints of the chunks of `data`, one per chunk, in chunk order.
/// Fails with `InvalidArgument` when `chunk_size` is zero.
pub fn rolling_hash<T: Element>(data: &[T], chunk_size: usize) -> (r: Result<Vec<u64>, ChunkError>)
    ensures
        chunk_size == 0 ==> r == Err::<Vec<u64>, ChunkError>(ChunkError::InvalidArgument),
        chunk_size > 0 ==> r is Ok && r->Ok_0@ == fingerprints(data@, chunk_size as nat),
{
    if chunk_size == 0 {
        return Err(ChunkError::InvalidArgument);
    }
    let count = num_chunks(data.len(), chunk_size);
    let mut hashes: Vec<u64> = Vec::new();
    let mut i: usize = 0;
    while i < count
        invariant
            chunk_size > 0,
            count == chunk_count(data@.len(), chunk_size as nat),
            i <= count,
            hashes@.len() == i,
            forall|j: int|
                0 <= j < i ==> hashes@[j] == chunk_digest(
                    #[trigger] chunk_of(data@, chunk_size as nat, j),
                ),
        decreases count - i,
    {
        let (start, end) = chunk_bounds(data.len(), chunk_size, i);
        let h = digest_range(data, start, end);
        hashes.push(h);
        i = i + 1;
    }
    proof {
        assert(hashes@ =~= fingerprints(data@, chunk_size as nat));
    }
    Ok(hashes)
}

} // verus!
