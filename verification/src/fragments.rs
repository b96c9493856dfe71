//! Splitting a blob into bounded fragments and joining fragments back.

use vstd::prelude::*;

verus! {

/// The number of fragments that `len` bytes take at `chunk_size` bytes per
/// fragment: `len / chunk_size`, rounded up.
pub open spec fn fragment_count(len: nat, chunk_size: nat) -> nat
    recommends
        chunk_size >= 1,
{
    if len % chunk_size == 0 {
        len / chunk_size
    } else {
        len / chunk_size + 1
    }
}

/// Where fragment `i` ends in a blob of `len` bytes.
pub open spec fn fragment_end(len: nat, chunk_size: nat, i: int) -> int {
    if (i + 1) * chunk_size <= len {
        (i + 1) * chunk_size
    } else {
        len as int
    }
}

/// The bytes of fragment `i` of `blob`.
pub open spec fn fragment_of(blob: Seq<u8>, chunk_size: nat, i: int) -> Seq<u8> {
    blob.subrange(i * chunk_size, fragment_end(blob.len(), chunk_size, i))
}

/// The fragments of `blob`, in order.
pub open spec fn split_bytes(blob: Seq<u8>, chunk_size: nat) -> Seq<Seq<u8>> {
    Seq::new(fragment_count(blob.len(), chunk_size), |i: int| fragment_of(blob, chunk_size, i))
}

/// The concatenation of `fragments`, in the order given.
pub open spec fn join_bytes(fragments: Seq<Seq<u8>>) -> Seq<u8>
    decreases fragments.len(),
{
    if fragments.len() == 0 {
        Seq::empty()
    } else {
        join_bytes(fragments.drop_last()) + fragments.last()
    }
}

/// The byte sequences that a list of fragment buffers holds.
pub open spec fn fragment_views(fragments: Seq<Vec<u8>>) -> Seq<Seq<u8>> {
    fragments.map_values(|f: Vec<u8>| f@)
}

/// `fragment_count` is the least number of fragments that cover `len` bytes.
pub proof fn lemma_fragment_count_covers(len: nat, chunk_size: nat)
    requires
        chunk_size >= 1,
    ensures
        fragment_count(len, chunk_size) * chunk_size >= len,
        len > 0 ==> fragment_count(len, chunk_size) >= 1,
        len > 0 ==> (fragment_count(len, chunk_size) - 1) * chunk_size < len,
        len == 0 ==> fragment_count(len, chunk_size) == 0,
{
    let q = len / chunk_size;
    let r = len % chunk_size;
    vstd::arithmetic::div_mod::lemma_fundamental_div_mod(len as int, chunk_size as int);
    vstd::arithmetic::div_mod::lemma_mod_bound(len as int, chunk_size as int);
    vstd::arithmetic::div_mod::lemma_div_pos_is_pos(len as int, chunk_size as int);
    assert(len == chunk_size * q + r);
    assert((q + 1) * chunk_size == chunk_size * q + chunk_size) by (nonlinear_arith);
    assert((q - 1) * chunk_size == chunk_size * q - chunk_size) by (nonlinear_arith);
    assert(q * chunk_size == chunk_size * q) by (nonlinear_arith);
    if len == 0 {
        assert(q == 0) by (nonlinear_arith)
            requires
                0 == chunk_size * q + r,
                chunk_size >= 1,
                q >= 0,
                r >= 0,
        ;
    }
}

/// A count that covers `len` bytes, and whose last fragment is not empty, is
/// `fragment_count`.
pub proof fn lemma_fragment_count_unique(len: nat, chunk_size: nat, n: nat)
    requires
        chunk_size >= 1,
        n * chunk_size >= len,
        n > 0 ==> (n - 1) * chunk_size < len,
    ensures
        n == fragment_count(len, chunk_size),
{
    let m = fragment_count(len, chunk_size);
    lemma_fragment_count_covers(len, chunk_size);
    if n < m {
        assert(n * chunk_size <= (m - 1) * chunk_size) by (nonlinear_arith)
            requires
                n <= m - 1,
                chunk_size >= 1,
        ;
    } else if m < n {
        assert(m * chunk_size <= (n - 1) * chunk_size) by (nonlinear_arith)
            requires
                m <= n - 1,
                chunk_size >= 1,
        ;
    }
}

/// Splits `blob` into fragments of `chunk_size` bytes; the last one holds the
/// remainder.
pub fn split(blob: &[u8], chunk_size: usize) -> (fragments: Vec<Vec<u8>>)
    requires
        chunk_size >= 1,
    ensures
        fragment_views(fragments@) == split_bytes(blob@, chunk_size as nat),
        fragments@.len() == fragment_count(blob@.len(), chunk_size as nat),
        forall|i: int|
            0 <= i < fragments@.len() - 1 ==> (#[trigger] fragments@[i])@.len() == chunk_size,
        fragments@.len() > 0 ==> {
            let last = fragments@[fragments@.len() - 1]@;
            &&& 1 <= last.len() <= chunk_size
            &&& last.len() == blob@.len() - (fragments@.len() - 1) * chunk_size
        },
{
    let len = blob.len();
    let mut fragments: Vec<Vec<u8>> = Vec::new();
    let mut start: usize = 0;
    proof {
        assert((0 - 1 + 1) * chunk_size == 0) by (nonlinear_arith);
    }
    while start < len
        invariant
            chunk_size >= 1,
            len == blob@.len(),
            start <= len,
            start == fragment_end(len as nat, chunk_size as nat, fragments@.len() - 1),
            fragments@.len() > 0 ==> (fragments@.len() - 1) * chunk_size < len,
            forall|j: int|
                0 <= j < fragments@.len() ==> (#[trigger] fragments@[j])@ == fragment_of(
                    blob@,
                    chunk_size as nat,
                    j,
                ),
        decreases len - start,
    {
        let ghost i = fragments@.len() as int;
        let remaining = len - start;
        let take = if remaining < chunk_size {
            remaining
        } else {
            chunk_size
        };
        let end = start + take;
        proof {
            assert((i - 1 + 1) * chunk_size == i * chunk_size);
            assert(start == i * chunk_size);
            assert((i + 1) * chunk_size == i * chunk_size + chunk_size) by (nonlinear_arith);
            assert(end == fragment_end(len as nat, chunk_size as nat, i));
        }
        let piece = vstd::slice::slice_to_vec(vstd::slice::slice_subrange(blob, start, end));
        fragments.push(piece);
        start = end;
    }
    proof {
        let n = fragments@.len();
        assert((n - 1 + 1) * chunk_size == n * chunk_size);
        lemma_fragment_count_unique(len as nat, chunk_size as nat, n);
        assert(fragment_views(fragments@) =~= split_bytes(blob@, chunk_size as nat));
        lemma_fragment_sizes(blob@, chunk_size as nat);
        assert forall|i: int| 0 <= i < fragments@.len() implies (#[trigger] fragments@[i])@
            == split_bytes(blob@, chunk_size as nat)[i] by {}
    }
    fragments
}

/// Joins `fragments` in the order given.
pub fn join(fragments: &[Vec<u8>]) -> (blob: Vec<u8>)
    ensures
        blob@ == join_bytes(fragment_views(fragments@)),
{
    let mut blob: Vec<u8> = Vec::new();
    let n = fragments.len();
    let mut i: usize = 0;
    while i < n
        invariant
            n == fragments@.len(),
            i <= n,
            blob@ == join_bytes(fragment_views(fragments@.take(i as int))),
        decreases n - i,
    {
        let ghost before = blob@;
        blob.extend_from_slice(fragments[i].as_slice());
        proof {
            let prefix = fragment_views(fragments@.take(i as int));
            let next = fragment_views(fragments@.take(i + 1));
            assert(next.drop_last() =~= prefix);
            assert(next.last() == fragments@[i as int]@);
            assert(blob@ =~= before + fragments@[i as int]@);
        }
        i = i + 1;
    }
    proof {
        assert(fragments@.take(n as int) =~= fragments@);
    }
    blob
}

/// Every fragment but the last holds `chunk_size` bytes; the last holds what
/// is left, at least one byte and at most `chunk_size`.
pub proof fn lemma_fragment_sizes(blob: Seq<u8>, chunk_size: nat)
    requires
        chunk_size >= 1,
    ensures
        split_bytes(blob, chunk_size).len() == fragment_count(blob.len(), chunk_size),
        forall|i: int|
            0 <= i < fragment_count(blob.len(), chunk_size) - 1 ==> (#[trigger] split_bytes(
                blob,
                chunk_size,
            )[i]).len() == chunk_size,
        blob.len() > 0 ==> {
            let last = split_bytes(blob, chunk_size).last();
            &&& 1 <= last.len() <= chunk_size
            &&& last.len() == blob.len() - (fragment_count(blob.len(), chunk_size) - 1)
                * chunk_size
        },
{
    let n = fragment_count(blob.len(), chunk_size);
    lemma_fragment_count_covers(blob.len(), chunk_size);
    assert forall|i: int| 0 <= i < n - 1 implies (#[trigger] split_bytes(blob, chunk_size)[i]).len()
        == chunk_size by {
        lemma_fragment_bounds(blob.len(), chunk_size, i);
    }
    if blob.len() > 0 {
        lemma_fragment_bounds(blob.len(), chunk_size, n - 1);
    }
}

/// Fragment `i` of a blob starts inside the blob and ends after its start.
pub proof fn lemma_fragment_bounds(len: nat, chunk_size: nat, i: int)
    requires
        chunk_size >= 1,
        0 <= i < fragment_count(len, chunk_size),
    ensures
        0 <= i * chunk_size < fragment_end(len, chunk_size, i) <= len,
        i < fragment_count(len, chunk_size) - 1 ==> fragment_end(len, chunk_size, i) == (i + 1)
            * chunk_size,
        i == fragment_count(len, chunk_size) - 1 ==> fragment_end(len, chunk_size, i) == len,
        (i + 1) * chunk_size == i * chunk_size + chunk_size,
{
    let n = fragment_count(len, chunk_size);
    lemma_fragment_count_covers(len, chunk_size);
    assert((i + 1) * chunk_size == i * chunk_size + chunk_size) by (nonlinear_arith);
    assert(i * chunk_size >= 0) by (nonlinear_arith)
        requires
            i >= 0,
            chunk_size >= 1,
    ;
    assert(i * chunk_size <= (n - 1) * chunk_size) by (nonlinear_arith)
        requires
            i <= n - 1,
            chunk_size >= 1,
    ;
    if i < n - 1 {
        assert((i + 1) * chunk_size <= (n - 1) * chunk_size) by (nonlinear_arith)
            requires
                i + 1 <= n - 1,
                chunk_size >= 1,
        ;
    } else {
        assert((i + 1) * chunk_size == n * chunk_size);
    }
}

/// Joining the first `n` fragments of a blob gives the blob up to the end of
/// fragment `n - 1`.
proof fn lemma_join_prefix(blob: Seq<u8>, chunk_size: nat, n: nat)
    requires
        chunk_size >= 1,
        n <= fragment_count(blob.len(), chunk_size),
    ensures
        join_bytes(split_bytes(blob, chunk_size).take(n as int)) == blob.take(
            fragment_end(blob.len(), chunk_size, n - 1),
        ),
    decreases n,
{
    let parts = split_bytes(blob, chunk_size);
    if n == 0 {
        assert((0 - 1 + 1) * chunk_size == 0) by (nonlinear_arith);
        assert(parts.take(0).len() == 0);
        assert(join_bytes(parts.take(0)) =~= blob.take(0));
    } else {
        lemma_join_prefix(blob, chunk_size, (n - 1) as nat);
        lemma_fragment_bounds(blob.len(), chunk_size, n - 1);
        if n >= 2 {
            lemma_fragment_bounds(blob.len(), chunk_size, n - 2);
        } else {
            assert((0 - 1 + 1) * chunk_size == 0) by (nonlinear_arith);
        }
        let prefix = parts.take(n as int);
        assert(prefix.drop_last() =~= parts.take(n - 1));
        assert(prefix.last() == fragment_of(blob, chunk_size, n - 1));
        assert(fragment_end(blob.len(), chunk_size, n - 2) == (n - 1) * chunk_size);
        assert(join_bytes(prefix) =~= blob.take(fragment_end(blob.len(), chunk_size, n - 1)));
    }
}

/// Splitting a blob and joining the fragments gives the blob back.
pub proof fn lemma_join_split(blob: Seq<u8>, chunk_size: nat)
    requires
        chunk_size >= 1,
    ensures
        join_bytes(split_bytes(blob, chunk_size)) == blob,
{
    let n = fragment_count(blob.len(), chunk_size);
    let parts = split_bytes(blob, chunk_size);
    lemma_join_prefix(blob, chunk_size, n);
    lemma_fragment_count_covers(blob.len(), chunk_size);
    assert(parts.take(n as int) =~= parts);
    if n > 0 {
        lemma_fragment_bounds(blob.len(), chunk_size, n - 1);
    } else {
        assert((0 - 1 + 1) * chunk_size == 0) by (nonlinear_arith);
    }
    assert(blob.take(blob.len() as int) =~= blob);
}

} // verus!
