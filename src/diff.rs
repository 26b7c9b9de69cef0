//! Comparing the chunks of an updated sequence with those of the original,
//! index by index.
use vstd::prelude::*;
use crate::element::Element;
use crate::fingerprint::{
    ChunkError,
    chunk_bounds,
    chunk_count,
    chunk_digest,
    chunk_of,
    fingerprints,
    gather,
    rolling_hash,
};

verus! {

/// Chunk `i` of the updated side is reused: the original has a chunk `i` and
/// the two fingerprints agree.
pub open spec fn is_reused(ofps: Seq<u64>, ufps: Seq<u64>, i: int) -> bool {
    0 <= i < ofps.len() && i < ufps.len() && ofps[i] == ufps[i]
}

/// The reused indices among the first `n` chunks, ascending.
pub open spec fn reused_upto(ofps: Seq<u64>, ufps: Seq<u64>, n: nat) -> Seq<int>
    decreases n,
{
    if n == 0 {
        Seq::empty()
    } else {
        let prev = reused_upto(ofps, ufps, (n - 1) as nat);
        if is_reused(ofps, ufps, n - 1) {
            prev.push(n - 1)
        } else {
            prev
        }
    }
}

/// The changed indices among the first `n` chunks, ascending.
pub open spec fn changed_upto(ofps: Seq<u64>, ufps: Seq<u64>, n: nat) -> Seq<int>
    decreases n,
{
    if n == 0 {
        Seq::empty()
    } else {
        let prev = changed_upto(ofps, ufps, (n - 1) as nat);
        if is_reused(ofps, ufps, n - 1) {
            prev
        } else {
            prev.push(n - 1)
        }
    }
}

/// Machine indices read as integers.
pub open spec fn indices(v: Seq<usize>) -> Seq<int> {
    v.map_values(|x: usize| x as int)
}

/// Indices of the chunks of `updated` that are reused from `original`, ascending.
pub open spec fn reused_chunks<T: Element>(original: Seq<T>, updated: Seq<T>, k: nat) -> Seq<
    int,
> {
    let ufps = fingerprints(updated, k);
    reused_upto(fingerprints(original, k), ufps, ufps.len())
}

/// Indices of the chunks of `updated` that changed, ascending.
pub open spec fn changed_chunks<T: Element>(original: Seq<T>, updated: Seq<T>, k: nat) -> Seq<
    int,
> {
    let ufps = fingerprints(updated, k);
    changed_upto(fingerprints(original, k), ufps, ufps.len())
}

/// The items of the changed chunks of `updated`, in chunk order.
pub open spec fn changed_elements<T: Element>(original: Seq<T>, updated: Seq<T>, k: nat) -> Seq<
    T,
> {
    gather(updated, k, changed_chunks(original, updated, k))
}

/// How the first `n` chunks are split between the two index lists.
proof fn lemma_classify(ofps: Seq<u64>, ufps: Seq<u64>, n: nat)
    ensures
        forall|x: int| #[trigger] reused_upto(ofps, ufps, n).contains(x) ==> 0 <= x < n,
        forall|x: int| #[trigger] changed_upto(ofps, ufps, n).contains(x) ==> 0 <= x < n,
        forall|i: int|
            0 <= i < n ==> (#[trigger] reused_upto(ofps, ufps, n).contains(i) == is_reused(
                ofps,
                ufps,
                i,
            )),
        forall|i: int|
            0 <= i < n ==> (#[trigger] changed_upto(ofps, ufps, n).contains(i) == !is_reused(
                ofps,
                ufps,
                i,
            )),
        forall|a: int, b: int|
            0 <= a < b < reused_upto(ofps, ufps, n).len() ==> #[trigger] reused_upto(
                ofps,
                ufps,
                n,
            )[a] < #[trigger] reused_upto(ofps, ufps, n)[b],
    decreases n,
{
    if n > 0 {
        let m = (n - 1) as nat;
        lemma_classify(ofps, ufps, m);
        let rp = reused_upto(ofps, ufps, m);
        let cp = changed_upto(ofps, ufps, m);
        let r = reused_upto(ofps, ufps, n);
        let c = changed_upto(ofps, ufps, n);
        if is_reused(ofps, ufps, m as int) {
            assert(r == rp.push(m as int));
            assert(c == cp);
            assert(r[r.len() - 1] == m as int);
            assert forall|a: int, b: int| 0 <= a < b < r.len() implies #[trigger] r[a] < #[trigger] r[b] by {
                assert(r[a] == rp[a]);
                assert(rp.contains(rp[a]));
                if b < rp.len() {
                    assert(r[b] == rp[b]);
                }
            }
            assert forall|x: int| #[trigger] r.contains(x) implies 0 <= x < n && (x == m || rp.contains(
                x,
            )) by {
                let j = choose|j: int| 0 <= j < r.len() && r[j] == x;
                if j < rp.len() {
                    assert(rp[j] == x);
                    assert(rp.contains(x));
                } else {
                    assert(x == m);
                }
            }
            assert forall|i: int| 0 <= i < n implies #[trigger] r.contains(i) == is_reused(
                ofps,
                ufps,
                i,
            ) by {
                if i < m {
                    if rp.contains(i) {
                        let j = choose|j: int| 0 <= j < rp.len() && rp[j] == i;
                        assert(r[j] == i);
                    }
                }
            }
        } else {
            assert(c == cp.push(m as int));
            assert(r == rp);
            assert(c[c.len() - 1] == m as int);
            assert forall|x: int| #[trigger] c.contains(x) implies 0 <= x < n && (x == m || cp.contains(
                x,
            )) by {
                let j = choose|j: int| 0 <= j < c.len() && c[j] == x;
                if j < cp.len() {
                    assert(cp[j] == x);
                    assert(cp.contains(x));
                } else {
                    assert(x == m);
                }
            }
            assert forall|i: int| 0 <= i < n implies #[trigger] c.contains(i) == !is_reused(
                ofps,
                ufps,
                i,
            ) by {
                if i < m {
                    if cp.contains(i) {
                        let j = choose|j: int| 0 <= j < cp.len() && cp[j] == i;
                        assert(c[j] == i);
                    }
                }
            }
        }
    }
}

/// Every chunk of `updated` is classified exactly once: its index is in the
/// reused list or in the changed list, never both, and both lists hold chunk
/// indices of `updated` only.
pub proof fn law_coverage<T: Element>(original: Seq<T>, updated: Seq<T>, k: nat)
    requires
        k > 0,
    ensures
        forall|i: int|
            0 <= i < chunk_count(updated.len(), k) ==> (#[trigger] reused_chunks(
                original,
                updated,
                k,
            ).contains(i) != changed_chunks(original, updated, k).contains(i)),
        forall|x: int|
            #[trigger] reused_chunks(original, updated, k).contains(x) ==> 0 <= x < chunk_count(
                updated.len(),
                k,
            ),
        forall|x: int|
            #[trigger] changed_chunks(original, updated, k).contains(x) ==> 0 <= x < chunk_count(
                updated.len(),
                k,
            ),
{
    let ofps = fingerprints(original, k);
    let ufps = fingerprints(updated, k);
    lemma_classify(ofps, ufps, ufps.len());
    assert forall|i: int| 0 <= i < chunk_count(updated.len(), k) implies (#[trigger] reused_chunks(
        original,
        updated,
        k,
    ).contains(i) != changed_chunks(original, updated, k).contains(i)) by {
        assert(reused_upto(ofps, ufps, ufps.len()).contains(i) == is_reused(ofps, ufps, i));
        assert(changed_upto(ofps, ufps, ufps.len()).contains(i) == !is_reused(ofps, ufps, i));
    }
}

/// The reused indices come in strictly ascending order.
pub proof fn law_reused_ascending<T: Element>(original: Seq<T>, updated: Seq<T>, k: nat)
    requires
        k > 0,
    ensures
        forall|a: int, b: int|
            0 <= a < b < reused_chunks(original, updated, k).len() ==> #[trigger] reused_chunks(
                original,
                updated,
                k,
            )[a] < #[trigger] reused_chunks(original, updated, k)[b],
{
    let ufps = fingerprints(updated, k);
    lemma_classify(fingerprints(original, k), ufps, ufps.len());
}

/// A chunk of `updated` is reused exactly when `original` has a chunk at the
/// same index and the two chunks have the same fingerprint.
pub proof fn law_reused_iff_same_fingerprint<T: Element>(
    original: Seq<T>,
    updated: Seq<T>,
    k: nat,
    i: int,
)
    requires
        k > 0,
        0 <= i < chunk_count(updated.len(), k),
    ensures
        reused_chunks(original, updated, k).contains(i) == (i < chunk_count(original.len(), k)
            && chunk_digest(chunk_of(original, k, i)) == chunk_digest(chunk_of(updated, k, i))),
{
    let ofps = fingerprints(original, k);
    let ufps = fingerprints(updated, k);
    lemma_classify(ofps, ufps, ufps.len());
    assert(reused_upto(ofps, ufps, ufps.len()).contains(i) == is_reused(ofps, ufps, i));
}

/// A chunk of `updated` whose items equal those of the original chunk at the
/// same index (same values, same order, same length) is reused.
pub proof fn law_equal_chunk_is_reused<T: Element>(
    original: Seq<T>,
    updated: Seq<T>,
    k: nat,
    i: int,
)
    requires
        k > 0,
        0 <= i < chunk_count(updated.len(), k),
        i < chunk_count(original.len(), k),
        chunk_of(original, k, i) == chunk_of(updated, k, i),
    ensures
        reused_chunks(original, updated, k).contains(i),
{
    law_reused_iff_same_fingerprint(original, updated, k, i);
}

/// Where the two chunks at index `i` do not collide (different items give
/// different fingerprints), chunk `i` of `updated` is reused exactly when
/// `original` has a chunk `i` with the same items in the same order.
pub proof fn law_reuse_correctness<T: Element>(
    original: Seq<T>,
    updated: Seq<T>,
    k: nat,
    i: int,
)
    requires
        k > 0,
        0 <= i < chunk_count(updated.len(), k),
        i < chunk_count(original.len(), k) && chunk_of(original, k, i) != chunk_of(updated, k, i)
            ==> chunk_digest(chunk_of(original, k, i)) != chunk_digest(chunk_of(updated, k, i)),
    ensures
        reused_chunks(original, updated, k).contains(i) == (i < chunk_count(original.len(), k)
            && chunk_of(original, k, i) == chunk_of(updated, k, i)),
{
    law_reused_iff_same_fingerprint(original, updated, k, i);
}

/// Every chunk of `updated` past the last chunk of `original` is changed,
/// never reused.
pub proof fn law_extra_chunks_changed<T: Element>(
    original: Seq<T>,
    updated: Seq<T>,
    k: nat,
    i: int,
)
    requires
        k > 0,
        chunk_count(original.len(), k) <= i < chunk_count(updated.len(), k),
    ensures
        changed_chunks(original, updated, k).contains(i),
        !reused_chunks(original, updated, k).contains(i),
{
    let ofps = fingerprints(original, k);
    let ufps = fingerprints(updated, k);
    lemma_classify(ofps, ufps, ufps.len());
    assert(reused_upto(ofps, ufps, ufps.len()).contains(i) == is_reused(ofps, ufps, i));
    assert(changed_upto(ofps, ufps, ufps.len()).contains(i) == !is_reused(ofps, ufps, i));
}

/// Compares `updated` with `original` chunk by chunk. Returns the indices of
/// the reused chunks, ascending, and the items of the changed chunks in chunk
/// order. Fails with `InvalidArgument` when `chunk_size` is zero.
pub fn diff<T: Element>(original: &[T], updated: &[T], chunk_size: usize) -> (r: Result<
    (Vec<usize>, Vec<T>),
    ChunkError,
>)
    ensures
        chunk_size == 0 ==> r is Err && r->Err_0 == ChunkError::InvalidArgument,
        chunk_size > 0 ==> r is Ok && indices(r->Ok_0.0@) == reused_chunks(
            original@,
            updated@,
            chunk_size as nat,
        ) && r->Ok_0.1@ == changed_elements(original@, updated@, chunk_size as nat),
{
    let original_hashes = match rolling_hash(original, chunk_size) {
        Ok(h) => h,
        Err(e) => {
            return Err(e);
        },
    };
    let updated_hashes = match rolling_hash(updated, chunk_size) {
        Ok(h) => h,
        Err(e) => {
            return Err(e);
        },
    };
    let ghost ofps = original_hashes@;
    let ghost ufps = updated_hashes@;
    let ghost k = chunk_size as nat;
    let mut reused: Vec<usize> = Vec::new();
    let mut changed: Vec<T> = Vec::new();
    let mut i: usize = 0;
    while i < updated_hashes.len()
        invariant
            chunk_size > 0,
            ofps == original_hashes@,
            ufps == updated_hashes@,
            ofps == fingerprints(original@, k),
            ufps == fingerprints(updated@, k),
            k == chunk_size as nat,
            i <= ufps.len(),
            indices(reused@) == reused_upto(ofps, ufps, i as nat),
            changed@ == gather(updated@, k, changed_upto(ofps, ufps, i as nat)),
        decreases ufps.len() - i,
    {
        if i < original_hashes.len() && updated_hashes[i] == original_hashes[i] {
            reused.push(i);
            proof {
                assert(indices(reused@) =~= reused_upto(ofps, ufps, i as nat).push(i as int));
            }
        } else {
            let (start, end) = chunk_bounds(updated.len(), chunk_size, i);
            let ghost before = changed@;
            let mut j: usize = start;
            while j < end
                invariant
                    start <= j <= end <= updated@.len(),
                    changed@ == before + updated@.subrange(start as int, j as int),
                decreases end - j,
            {
                let item = updated[j].duplicate();
                changed.push(item);
                proof {
                    assert(updated@.subrange(start as int, j + 1) =~= updated@.subrange(
                        start as int,
                        j as int,
                    ).push(item));
                }
                j = j + 1;
            }
            proof {
                let idx = changed_upto(ofps, ufps, (i + 1) as nat);
                assert(idx.drop_last() =~= changed_upto(ofps, ufps, i as nat));
            }
        }
        i = i + 1;
    }
    Ok((reused, changed))
}

} // verus!
