//! Splitting identifiers into requests of the collection endpoint.

use vstd::prelude::*;
use vstd::arithmetic::div_mod::{lemma_fundamental_div_mod, lemma_mod_bound, lemma_div_pos_is_pos};
use crate::identifier::CollectionCardIdentifier;

verus! {

/// The most identifiers that one collection request may hold.
pub const BATCH_LIMIT: usize = 75;

/// `a / b` rounded up.
pub open spec fn ceil_div(a: nat, b: nat) -> nat {
    if b == 0 {
        0
    } else {
        (a / b + if a % b == 0 { 0nat } else { 1nat }) as nat
    }
}

/// How many requests `n` identifiers take.
pub open spec fn batch_count(n: nat) -> nat {
    ceil_div(n, BATCH_LIMIT as nat)
}

/// `s` cut into `k` consecutive parts whose lengths differ by at most one,
/// longer parts first.
pub open spec fn split_even<A>(s: Seq<A>, k: nat) -> Seq<Seq<A>>
    decreases k,
{
    if k == 0 {
        Seq::empty()
    } else {
        let c = ceil_div(s.len(), k) as int;
        seq![s.take(c)] + split_even(s.skip(c), (k - 1) as nat)
    }
}

/// The requests for `s`: as many as `batch_count` asks, as even as possible.
pub open spec fn batch_plan<A>(s: Seq<A>) -> Seq<Seq<A>> {
    split_even(s, batch_count(s.len()))
}

pub open spec fn seqs_of<A>(v: Seq<Vec<A>>) -> Seq<Seq<A>> {
    v.map_values(|x: Vec<A>| x@)
}

proof fn lemma_div_parts(a: nat, b: nat)
    requires
        b >= 1,
    ensures
        a == b * (a / b) + a % b,
        a % b < b,
{
    lemma_fundamental_div_mod(a as int, b as int);
    lemma_mod_bound(a as int, b as int);
}

proof fn lemma_ceil_le(a: nat, b: nat)
    requires
        b >= 1,
    ensures
        ceil_div(a, b) <= a,
{
    lemma_div_parts(a, b);
    let q = a / b;
    let r = a % b;
    if r != 0 {
        if b == 1 {
            assert(false) by (nonlinear_arith)
                requires a == b * q + r, r < b, b == 1, r != 0;
        }
        assert(q + 1 <= a) by (nonlinear_arith)
            requires a == b * q + r, r < b, b >= 2, r >= 1, q >= 0;
    } else {
        assert(q <= a) by (nonlinear_arith)
            requires a == b * q + r, b >= 1, q >= 0, r >= 0;
    }
}

/// One step of an even split keeps the remainder within its bounds.
proof fn lemma_ceil_step(n: nat, k: nat)
    requires
        1 <= k <= n,
        n <= BATCH_LIMIT * k,
    ensures
        1 <= ceil_div(n, k) <= BATCH_LIMIT,
        k - 1 <= n - ceil_div(n, k) <= BATCH_LIMIT * (k - 1),
{
    lemma_div_parts(n, k);
    let q = n / k;
    let r = n % k;
    let c = ceil_div(n, k);
    assert(q >= 1) by (nonlinear_arith)
        requires n == k * q + r, r < k, k <= n, q >= 0;
    if r == 0 {
        assert(q <= 75) by (nonlinear_arith)
            requires n == k * q, n <= 75 * k, k >= 1;
        assert(c == q);
        assert(k - 1 <= n - q <= 75 * (k - 1)) by (nonlinear_arith)
            requires n == k * q, q >= 1, q <= 75, k >= 1;
    } else {
        assert(q <= 74) by (nonlinear_arith)
            requires n == k * q + r, n <= 75 * k, k >= 1, r >= 1;
        assert(c == q + 1);
        assert(k - 1 <= n - (q + 1) <= 75 * (k - 1)) by (nonlinear_arith)
            requires n == k * q + r, q >= 1, q <= 74, k >= 1, 1 <= r < k;
    }
}

proof fn lemma_split_even_shape<A>(s: Seq<A>, k: nat)
    requires
        k <= s.len() <= BATCH_LIMIT * k,
    ensures
        split_even(s, k).len() == k,
        split_even(s, k).flatten() == s,
        forall|i: int| 0 <= i < k ==> 1 <= (#[trigger] split_even(s, k)[i]).len() <= BATCH_LIMIT,
    decreases k,
{
    if k == 0 {
        assert(s =~= Seq::<A>::empty());
    } else {
        let c = ceil_div(s.len(), k) as int;
        lemma_ceil_step(s.len(), k);
        let rest = s.skip(c);
        lemma_split_even_shape(rest, (k - 1) as nat);
        let parts = split_even(s, k);
        assert(parts.drop_first() =~= split_even(rest, (k - 1) as nat));
        assert(parts.first() == s.take(c));
        assert(s.take(c) + rest =~= s);
        assert forall|i: int| 0 <= i < k implies 1 <= (#[trigger] parts[i]).len() <= BATCH_LIMIT by {
            if i > 0 {
                assert(parts[i] == split_even(rest, (k - 1) as nat)[i - 1]);
            }
        }
    }
}

/// For `n` identifiers there are `ceil(n / 75)` requests, each of one to 75
/// identifiers, and taken in order they give back the identifiers: each one
/// is asked for exactly once.
pub proof fn lemma_batch_plan<A>(s: Seq<A>)
    ensures
        batch_plan(s).len() == batch_count(s.len()),
        batch_plan(s).flatten() == s,
        batch_plan(s).flatten().to_multiset() == s.to_multiset(),
        forall|i: int| 0 <= i < batch_plan(s).len() ==> 1 <= (#[trigger] batch_plan(s)[i]).len() <= BATCH_LIMIT,
{
    let n = s.len();
    let k = batch_count(n);
    lemma_div_parts(n, 75);
    assert(k <= n && n <= 75 * k) by {
        let q = n / 75;
        let r = n % 75;
        if r == 0 {
            assert(q <= n && n <= 75 * q) by (nonlinear_arith)
                requires n == 75 * q, q >= 0;
        } else {
            assert(q + 1 <= n && n <= 75 * (q + 1)) by (nonlinear_arith)
                requires n == 75 * q + r, 1 <= r < 75, q >= 0;
        }
    }
    lemma_split_even_shape(s, k);
}

/// The identifiers of `ids` cut into collection requests.
pub fn plan_batches(ids: &Vec<CollectionCardIdentifier>) -> (r: Vec<Vec<CollectionCardIdentifier>>)
    ensures
        seqs_of(r@) == batch_plan(ids@),
{
    let n = ids.len();
    let k = n / BATCH_LIMIT + if n % BATCH_LIMIT == 0 { 0 } else { 1 };
    let ghost total = batch_plan(ids@);
    let mut out: Vec<Vec<CollectionCardIdentifier>> = Vec::new();
    let mut pos: usize = 0;
    let mut left: usize = k;
    assert(ids@.skip(0) =~= ids@);
    assert(seqs_of(out@) =~= Seq::<Seq<CollectionCardIdentifier>>::empty());
    assert(seqs_of(out@) + split_even(ids@.skip(pos as int), left as nat) =~= total);
    while left > 0
        invariant
            n == ids@.len(),
            pos <= n,
            total == split_even(ids@, k as nat),
            k == batch_count(n as nat),
            seqs_of(out@) + split_even(ids@.skip(pos as int), left as nat) == total,
        decreases left,
    {
        let rem = n - pos;
        proof {
            lemma_ceil_le(rem as nat, left as nat);
        }
        let q = rem / left;
        let c = if rem % left == 0 { q } else { q + 1 };
        assert(c == ceil_div(rem as nat, left as nat));
        let mut chunk: Vec<CollectionCardIdentifier> = Vec::new();
        let mut j: usize = pos;
        while j < pos + c
            invariant
                n == ids@.len(),
                pos + c <= n,
                pos <= j <= pos + c,
                chunk@ == ids@.subrange(pos as int, j as int),
            decreases pos + c - j,
        {
            chunk.push(ids[j].clone());
            j = j + 1;
            assert(chunk@ =~= ids@.subrange(pos as int, j as int));
        }
        proof {
            let t = ids@.skip(pos as int);
            assert(t.take(c as int) =~= chunk@);
            assert(t.skip(c as int) =~= ids@.skip((pos + c) as int));
            assert(split_even(t, left as nat) == seq![t.take(c as int)] + split_even(t.skip(c as int), (left - 1) as nat));
            assert(seqs_of(out@.push(chunk)) =~= seqs_of(out@) + seq![chunk@]);
        }
        out.push(chunk);
        pos = pos + c;
        left = left - 1;
        proof {
            assert(seqs_of(out@) + split_even(ids@.skip(pos as int), left as nat) =~= total);
        }
    }
    assert(seqs_of(out@) =~= seqs_of(out@) + split_even(ids@.skip(pos as int), 0));
    out
}

} // verus!
