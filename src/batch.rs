use vstd::prelude::*;

verus! {

/// The number of batches of at most `size` items that `n` items fill.
pub open spec fn batch_count(n: nat, size: nat) -> nat
    recommends
        size > 0,
{
    n / size + if n % size == 0 { 0nat } else { 1nat }
}

/// The index of the first item of batch `k`.
pub open spec fn batch_start(size: nat, k: nat) -> nat {
    k * size
}

/// The index one past the last item of batch `k` of `n` items.
pub open spec fn batch_end(n: nat, size: nat, k: nat) -> nat {
    if (k + 1) * size <= n { (k + 1) * size } else { n }
}

/// The number of items in batch `k` of `n` items.
pub open spec fn batch_len(n: nat, size: nat, k: nat) -> nat {
    (batch_end(n, size, k) - batch_start(size, k)) as nat
}

/// Every batch begins inside the items.
pub proof fn lemma_batch_start_in_range(n: nat, size: nat, k: nat)
    requires
        size > 0,
        k < batch_count(n, size),
    ensures
        k * size < n,
        (k + 1) * size == k * size + size,
{
    let q = n / size;
    let r = n % size;
    assert(n == q * size + r) by {
        vstd::arithmetic::div_mod::lemma_fundamental_div_mod(n as int, size as int);
    }
    assert(r < size) by {
        vstd::arithmetic::div_mod::lemma_mod_bound(n as int, size as int);
    }
    if r == 0 {
        assert(k < q);
        assert(k * size < q * size) by (nonlinear_arith)
            requires k < q, size > 0;
    } else {
        assert(k <= q);
        assert(k * size <= q * size) by (nonlinear_arith)
            requires k <= q, size > 0;
    }
    assert((k + 1) * size == k * size + size) by (nonlinear_arith);
}


/// There are never more batches than items.
pub proof fn lemma_batch_count_bound(n: nat, size: nat)
    requires
        size > 0,
    ensures
        batch_count(n, size) <= n,
{
    let q = n / size;
    let r = n % size;
    assert(n == q * size + r) by {
        vstd::arithmetic::div_mod::lemma_fundamental_div_mod(n as int, size as int);
    }
    assert(r < size) by {
        vstd::arithmetic::div_mod::lemma_mod_bound(n as int, size as int);
    }
    if r == 0 {
        assert(q <= n) by (nonlinear_arith)
            requires n == q * size, size >= 1;
    } else {
        assert(q < n) by (nonlinear_arith)
            requires n == q * size + r, r > 0, r < size;
    }
}

/// The number of items in the first `k` batches.
pub open spec fn batch_total(n: nat, size: nat, k: nat) -> nat
    decreases k,
{
    if k == 0 { 0 } else { batch_total(n, size, (k - 1) as nat) + batch_len(n, size, (k - 1) as nat) }
}

proof fn lemma_batch_total_prefix(n: nat, size: nat, k: nat)
    requires
        size > 0,
        k <= batch_count(n, size),
    ensures
        batch_total(n, size, k) == if k * size <= n { k * size } else { n },
    decreases k,
{
    if k > 0 {
        let j = (k - 1) as nat;
        lemma_batch_start_in_range(n, size, j);
        lemma_batch_total_prefix(n, size, j);
        assert(j * size <= n);
    } else {
        assert(0 * size == 0) by (nonlinear_arith);
    }
}

/// Chunking `n` items into batches of `size`: there are exactly ⌈n / size⌉
/// batches, the last holds `n % size` items (or `size` when `size` divides
/// `n`), and together they hold all `n` items.
pub proof fn lemma_batches_cover(n: nat, size: nat)
    requires
        size > 0,
    ensures
        batch_count(n, size) * size >= n,
        batch_count(n, size) > 0 ==> (batch_count(n, size) - 1) * size < n,
        n > 0 ==> batch_len(n, size, (batch_count(n, size) - 1) as nat) == if n % size == 0 { size } else { n % size },
        batch_total(n, size, batch_count(n, size)) == n,
{
    let q = n / size;
    let r = n % size;
    let c = batch_count(n, size);
    assert(n == q * size + r) by {
        vstd::arithmetic::div_mod::lemma_fundamental_div_mod(n as int, size as int);
    }
    assert(r < size) by {
        vstd::arithmetic::div_mod::lemma_mod_bound(n as int, size as int);
    }
    if r == 0 {
        assert(c == q);
    } else {
        assert(c == q + 1);
        assert(c * size == q * size + size) by (nonlinear_arith)
            requires c == q + 1;
    }
    if c > 0 {
        lemma_batch_start_in_range(n, size, (c - 1) as nat);
    }
    lemma_batch_total_prefix(n, size, c);
    if n > 0 && r != 0 {
        assert((c - 1) * size == q * size);
    }
    if n > 0 && r == 0 {
        assert(c * size == n);
        assert(c > 0) by (nonlinear_arith)
            requires c * size == n, n > 0;
    }
}

/// The number of batches of at most `size` items that `n` items fill.
pub fn batch_count_of(n: usize, size: usize) -> (r: usize)
    requires
        size > 0,
    ensures
        r == batch_count(n as nat, size as nat),
{
    proof { lemma_batch_count_bound(n as nat, size as nat); }
    n / size + if n % size == 0 { 0 } else { 1 }
}

} // verus!
