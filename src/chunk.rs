//! Cutting a bulk write into batches of bounded size.
//!
//! A database bounds the number of parameters one statement may bind, so a
//! long list of tuples is written as a run of statements, each over one
//! contiguous batch of at most `size` tuples.
use vstd::prelude::*;

verus! {

/// Fixed number of tuples bound by one bulk insert statement.
pub const CELL_INSERT_CHUNK_SIZE: usize = 5000;

/// Number of batches of at most `n` items that `len` items make.
pub open spec fn chunk_count(len: nat, n: nat) -> nat {
    if n == 0 {
        0
    } else {
        len / n + if len % n == 0 { 0nat } else { 1nat }
    }
}

/// The `i`-th batch of `s` cut into batches of `n`.
pub open spec fn chunk_at<T>(s: Seq<T>, n: nat, i: int) -> Seq<T> {
    s.subrange(i * n, if (i + 1) * n <= s.len() { (i + 1) * n } else { s.len() as int })
}

/// `s` cut into contiguous batches of `n`, all full but perhaps the last.
pub open spec fn chunked<T>(s: Seq<T>, n: nat) -> Seq<Seq<T>> {
    Seq::new(chunk_count(s.len(), n), |i: int| chunk_at(s, n, i))
}

pub proof fn lemma_chunk_bounds(len: nat, n: nat, k: int)
    requires
        n > 0,
        0 <= k,
    ensures
        k < chunk_count(len, n) ==> k * n < len,
        k >= chunk_count(len, n) ==> k * n >= len,
        (k + 1) * n == k * n + n,
{
    let q = len / n;
    let r = len % n;
    assert(len == q * n + r && 0 <= r < n) by {
        vstd::arithmetic::div_mod::lemma_fundamental_div_mod(len as int, n as int);
    }
    assert((k + 1) * n == k * n + n) by (nonlinear_arith);
    if k < chunk_count(len, n) {
        if r == 0 {
            assert(k + 1 <= q);
            assert((k + 1) * n <= q * n) by (nonlinear_arith)
                requires
                    k + 1 <= q,
                    n > 0,
            ;
        } else {
            assert(k <= q);
            assert(k * n <= q * n) by (nonlinear_arith)
                requires
                    k <= q,
                    n > 0,
            ;
        }
    } else {
        if r == 0 {
            assert(k >= q);
        } else {
            assert(k >= q + 1);
        }
        assert(k * n >= q * n + if r == 0 { 0 } else { n as int }) by (nonlinear_arith)
            requires
                r == 0 ==> k >= q,
                r != 0 ==> k >= q + 1,
                n > 0,
        ;
    }
}

/// Cuts `items` into contiguous batches of at most `size` items, in order;
/// every batch but the last is full and none is empty.
pub fn chunks<T>(items: Vec<T>, size: usize) -> (r: Vec<Vec<T>>)
    requires
        size > 0,
    ensures
        r@.len() == chunk_count(items@.len(), size as nat),
        forall|i: int| 0 <= i < r@.len() ==> #[trigger] r@[i]@ == chunk_at(items@, size as nat, i),
{
    let ghost s = items@;
    let ghost n = size as nat;
    let len = items.len();
    proof {
        let q = (len / size) as int;
        vstd::arithmetic::div_mod::lemma_fundamental_div_mod(len as int, size as int);
        assert(q <= q * size) by (nonlinear_arith)
            requires
                q >= 0,
                size >= 1,
        ;
    }
    let count: usize = if len % size == 0 { len / size } else { len / size + 1 };
    let mut rest = items;
    let mut tail: Vec<Vec<T>> = Vec::new();
    let mut k: usize = count;
    proof {
        lemma_chunk_bounds(s.len(), n, count as int);
        assert(rest@ == s.take(s.len() as int));
    }
    while k > 0
        invariant
            n > 0,
            n == size,
            count == chunk_count(s.len(), n),
            len == s.len(),
            k <= count,
            rest@ == s.take(if k * n <= s.len() { k * n } else { s.len() as int }),
            tail@.len() == count - k,
            forall|t: int| 0 <= t < tail@.len() ==> #[trigger] tail@[t]@ == chunk_at(s, n, count - 1 - t),
        decreases k,
    {
        proof {
            lemma_chunk_bounds(s.len(), n, k - 1);
            lemma_chunk_bounds(s.len(), n, k as int);
        }
        k = k - 1;
        assert(k * size == k * n);
        assert(k * n < s.len());
        assert(k * n <= rest@.len());
        let piece = rest.split_off(k * size);
        tail.push(piece);
        proof {
            assert(rest@ == s.take(k * n));
            assert(piece@ =~= chunk_at(s, n, k as int));
        }
    }
    let mut out: Vec<Vec<T>> = Vec::new();
    while tail.len() > 0
        invariant
            count == chunk_count(s.len(), n),
            out@.len() + tail@.len() == count,
            forall|t: int| 0 <= t < tail@.len() ==> #[trigger] tail@[t]@ == chunk_at(s, n, count - 1 - t),
            forall|i: int| 0 <= i < out@.len() ==> #[trigger] out@[i]@ == chunk_at(s, n, i),
        decreases tail@.len(),
    {
        match tail.pop() {
            Some(piece) => {
                out.push(piece);
            },
            None => {},
        }
    }
    out
}

/// The first `i` batches of `s`, joined, are the first `i * n` items.
proof fn lemma_chunked_prefix<T>(s: Seq<T>, n: nat, i: int)
    requires
        n > 0,
        0 <= i <= chunk_count(s.len(), n),
    ensures
        Seq::new(i as nat, |t: int| chunk_at(s, n, t)).flatten() == s.take(
            if i * n <= s.len() { i * n } else { s.len() as int },
        ),
    decreases i,
{
    let first = Seq::new(i as nat, |t: int| chunk_at(s, n, t));
    if i == 0 {
        assert(first =~= Seq::<Seq<T>>::empty());
        assert(s.take(0) =~= Seq::<T>::empty());
    } else {
        let before = Seq::new((i - 1) as nat, |t: int| chunk_at(s, n, t));
        lemma_chunked_prefix(s, n, i - 1);
        lemma_chunk_bounds(s.len(), n, i - 1);
        lemma_chunk_bounds(s.len(), n, i);
        assert(first =~= before.push(chunk_at(s, n, i - 1)));
        before.lemma_flatten_push(chunk_at(s, n, i - 1));
        assert(before.flatten() == s.take((i - 1) * n));
        assert(first.flatten() =~= s.take(if i * n <= s.len() { i * n } else { s.len() as int }));
    }
}

/// Joining the batches gives back the items, in order, whatever the size.
pub proof fn lemma_chunks_join<T>(s: Seq<T>, n: nat)
    requires
        n > 0,
    ensures
        chunked(s, n).flatten() == s,
        forall|i: int|
            0 <= i < chunked(s, n).len() ==> 0 < (#[trigger] chunked(s, n)[i]).len() <= n,
{
    let c = chunk_count(s.len(), n);
    lemma_chunked_prefix(s, n, c as int);
    lemma_chunk_bounds(s.len(), n, c as int);
    assert(chunked(s, n) =~= Seq::new(c, |t: int| chunk_at(s, n, t)));
    assert(s.take(s.len() as int) =~= s);
    assert forall|i: int| 0 <= i < chunked(s, n).len() implies 0 < (#[trigger] chunked(s, n)[i]).len() <= n by {
        lemma_chunk_bounds(s.len(), n, i);
    }
}

/// The batch size changes how many statements a bulk write takes, never
/// what is written: any two sizes give batches that join to the same list.
pub proof fn lemma_chunk_size_irrelevant<T>(s: Seq<T>, n1: nat, n2: nat)
    requires
        n1 > 0,
        n2 > 0,
    ensures
        chunked(s, n1).flatten() == chunked(s, n2).flatten(),
        chunked(s, n1).flatten() == s,
{
    lemma_chunks_join(s, n1);
    lemma_chunks_join(s, n2);
}

} // verus!
