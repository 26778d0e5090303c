use vstd::multiset::Multiset;
use vstd::prelude::*;

use crate::bucket::{first_slot, lemma_first_slot_exists, occupied, place_first};
use crate::bucket::BUCKET_SIZE;

verus! {

/// Whether `n` is a power of two.
pub open spec fn is_pow2(n: usize) -> bool {
    n != 0 && n & ((n - 1) as usize) == 0
}

/// The first power of two from `p` on (doubling) that is at least `cap`.
pub open spec fn pow2_at_least(p: nat, cap: nat) -> nat
    decreases if p >= cap {
        0
    } else {
        cap - p
    },
{
    if p == 0 || p >= cap {
        p
    } else {
        pow2_at_least(p * 2, cap)
    }
}

/// Number of buckets of a filter made for `cap` items.
pub open spec fn buckets_for(cap: nat) -> nat {
    let p = pow2_at_least(1, cap);
    if p / 4 < 1 {
        1
    } else {
        p / 4
    }
}

/// Number of occupied slots over all buckets.
pub open spec fn total(t: Seq<Seq<u8>>) -> nat
    decreases t.len(),
{
    if t.len() == 0 {
        0
    } else {
        total(t.drop_last()) + occupied(t.last())
    }
}

/// The buckets' bytes laid end to end, bucket by bucket.
pub open spec fn flat(t: Seq<Seq<u8>>) -> Seq<u8>
    decreases t.len(),
{
    if t.len() == 0 {
        Seq::empty()
    } else {
        flat(t.drop_last()) + t.last()
    }
}

/// Whether bucket `i1` or bucket `i2` (each taken modulo the bucket count)
/// holds `fp`.
pub open spec fn in_candidates(t: Seq<Seq<u8>>, fp: u8, i1: usize, i2: usize) -> bool {
    t[i1 as int % t.len() as int].contains(fp) || t[i2 as int % t.len() as int].contains(fp)
}

/// Whether every bucket has exactly `width` slots.
pub open spec fn uniform(t: Seq<Seq<u8>>, width: nat) -> bool {
    forall|k: int| 0 <= k < t.len() ==> (#[trigger] t[k]).len() == width
}

pub proof fn lemma_pow2_double(p: usize)
    requires
        is_pow2(p),
        p <= usize::MAX / 2,
    ensures
        is_pow2((p * 2) as usize),
{
    let q = (p * 2) as usize;
    assert(q == p * 2);
    assert(q != 0 && q & ((q - 1) as usize) == 0) by (bit_vector)
        requires
            p != 0,
            p & ((p - 1) as usize) == 0,
            p < q,
            q == (p * 2) as usize,
    ;
}

pub proof fn lemma_pow2_quarter(p: usize)
    requires
        is_pow2(p),
        p >= 4,
    ensures
        is_pow2(p / 4),
{
    assert(p != 0 && p & ((p - 1) as usize) == 0 && p >= 4 ==> p / 4 != 0 && (p / 4) & ((p / 4
        - 1) as usize) == 0) by (bit_vector);
}

proof fn lemma_and_split(x: usize, m: usize)
    by (bit_vector)
    ensures
        x & m == ((x / 2) & (m / 2)) * 2 + ((x % 2) & (m % 2)),
{
}

/// Masking with one less than a power of two is reducing modulo it.
pub proof fn lemma_mask_is_mod(y: usize, n: usize)
    requires
        is_pow2(n),
    ensures
        y & ((n - 1) as usize) == y % n,
    decreases n,
{
    if n == 1 {
        assert(y & 0 == 0) by (bit_vector);
    } else {
        let h = n / 2;
        let m = (n - 1) as usize;
        assert(is_pow2(h) && m / 2 == (h - 1) as usize && m % 2 == 1 && h * 2 == n && h > 0)
            by (bit_vector)
            requires
                n != 0,
                n & ((n - 1) as usize) == 0,
                n != 1,
                h == n / 2,
                m == (n - 1) as usize,
        ;
        lemma_mask_is_mod(y / 2, h);
        lemma_and_split(y, m);
        assert((y % 2) & 1 == y % 2) by (bit_vector);
        vstd::arithmetic::div_mod::lemma_mod_breakdown(y as int, 2, h as int);
    }
}

/// Reducing modulo a power of two commutes with xor.
pub proof fn lemma_mod_xor(a: usize, x: usize, n: usize)
    requires
        is_pow2(n),
    ensures
        (a ^ x) % n == ((a % n) ^ x) % n,
{
    let m = (n - 1) as usize;
    lemma_mask_is_mod(a, n);
    lemma_mask_is_mod(a ^ x, n);
    lemma_mask_is_mod((a % n) as usize ^ x, n);
    assert((a ^ x) & m == ((a & m) ^ x) & m) by (bit_vector);
}

pub proof fn lemma_xor_twice(a: usize, x: usize)
    ensures
        (a ^ x) ^ x == a,
{
    assert((a ^ x) ^ x == a) by (bit_vector);
}

/// One for an occupied slot, zero for an empty one.
pub open spec fn nz(v: u8) -> nat {
    if v != 0 {
        1
    } else {
        0
    }
}

pub proof fn lemma_occupied_update(b: Seq<u8>, j: int, v: u8)
    requires
        0 <= j < b.len(),
    ensures
        occupied(b.update(j, v)) + nz(b[j]) == occupied(b) + nz(v),
    decreases b.len(),
{
    let c = b.update(j, v);
    if j == b.len() - 1 {
        assert(c.drop_last() =~= b.drop_last());
    } else {
        assert(c.drop_last() =~= b.drop_last().update(j, v));
        lemma_occupied_update(b.drop_last(), j, v);
    }
}

pub proof fn lemma_occupied_le(b: Seq<u8>)
    ensures
        occupied(b) <= b.len(),
    decreases b.len(),
{
    if b.len() > 0 {
        lemma_occupied_le(b.drop_last());
    }
}

/// A bucket with no occupied slot holds only zeros.
pub proof fn lemma_occupied_zero(b: Seq<u8>)
    requires
        occupied(b) == 0,
    ensures
        forall|j: int| 0 <= j < b.len() ==> b[j] == 0,
    decreases b.len(),
{
    if b.len() > 0 {
        lemma_occupied_zero(b.drop_last());
        assert forall|j: int| 0 <= j < b.len() implies b[j] == 0 by {
            if j < b.len() - 1 {
                assert(b[j] == b.drop_last()[j]);
            }
        }
    }
}

pub proof fn lemma_occupied_concat(a: Seq<u8>, b: Seq<u8>)
    ensures
        occupied(a + b) == occupied(a) + occupied(b),
    decreases b.len(),
{
    if b.len() == 0 {
        assert(a + b =~= a);
    } else {
        assert((a + b).drop_last() =~= a + b.drop_last());
        lemma_occupied_concat(a, b.drop_last());
    }
}

pub proof fn lemma_total_update(t: Seq<Seq<u8>>, k: int, nb: Seq<u8>)
    requires
        0 <= k < t.len(),
    ensures
        total(t.update(k, nb)) + occupied(t[k]) == total(t) + occupied(nb),
    decreases t.len(),
{
    let u = t.update(k, nb);
    if k == t.len() - 1 {
        assert(u.drop_last() =~= t.drop_last());
    } else {
        assert(u.drop_last() =~= t.drop_last().update(k, nb));
        lemma_total_update(t.drop_last(), k, nb);
    }
}

pub proof fn lemma_total_le(t: Seq<Seq<u8>>)
    requires
        uniform(t, BUCKET_SIZE as nat),
    ensures
        total(t) <= BUCKET_SIZE * t.len(),
    decreases t.len(),
{
    if t.len() > 0 {
        assert(uniform(t.drop_last(), BUCKET_SIZE as nat)) by {
            assert forall|k: int| 0 <= k < t.drop_last().len() implies (
            #[trigger] t.drop_last()[k]).len() == BUCKET_SIZE by {
                assert(t.drop_last()[k] == t[k]);
            }
        }
        lemma_total_le(t.drop_last());
        lemma_occupied_le(t.last());
    }
}

pub proof fn lemma_total_flat(t: Seq<Seq<u8>>)
    ensures
        occupied(flat(t)) == total(t),
    decreases t.len(),
{
    if t.len() > 0 {
        lemma_total_flat(t.drop_last());
        lemma_occupied_concat(flat(t.drop_last()), t.last());
    }
}

pub proof fn lemma_flat_len(t: Seq<Seq<u8>>)
    requires
        uniform(t, BUCKET_SIZE as nat),
    ensures
        flat(t).len() == BUCKET_SIZE * t.len(),
    decreases t.len(),
{
    if t.len() > 0 {
        assert(uniform(t.drop_last(), BUCKET_SIZE as nat)) by {
            assert forall|k: int| 0 <= k < t.drop_last().len() implies (
            #[trigger] t.drop_last()[k]).len() == BUCKET_SIZE by {
                assert(t.drop_last()[k] == t[k]);
            }
        }
        lemma_flat_len(t.drop_last());
    }
}

/// Buckets cut from consecutive chunks of `v` lay back out as `v`.
pub proof fn lemma_flat_chunks(t: Seq<Seq<u8>>, v: Seq<u8>)
    requires
        v.len() == BUCKET_SIZE * t.len(),
        forall|k: int|
            0 <= k < t.len() ==> #[trigger] t[k] == v.subrange(
                BUCKET_SIZE * k,
                BUCKET_SIZE * k + BUCKET_SIZE,
            ),
    ensures
        flat(t) == v,
    decreases t.len(),
{
    if t.len() == 0 {
        assert(v =~= Seq::<u8>::empty());
    } else {
        let m = t.len() - 1;
        let w = v.subrange(0, BUCKET_SIZE * m);
        assert forall|k: int| 0 <= k < t.drop_last().len() implies #[trigger] t.drop_last()[k]
            == w.subrange(BUCKET_SIZE * k, BUCKET_SIZE * k + BUCKET_SIZE) by {
            assert(t.drop_last()[k] == t[k]);
            assert(w.subrange(BUCKET_SIZE * k, BUCKET_SIZE * k + BUCKET_SIZE) =~= v.subrange(
                BUCKET_SIZE * k,
                BUCKET_SIZE * k + BUCKET_SIZE,
            ));
        }
        lemma_flat_chunks(t.drop_last(), w);
        assert(t[m] == v.subrange(BUCKET_SIZE * m, BUCKET_SIZE * m + BUCKET_SIZE));
        assert(v =~= w + t.last());
    }
}

pub proof fn lemma_occupied_empty_bucket()
    ensures
        occupied(seq![0u8, 0u8, 0u8, 0u8]) == 0,
{
    let z = seq![0u8, 0u8, 0u8, 0u8];
    assert(z.drop_last().drop_last().drop_last().drop_last() =~= Seq::<u8>::empty());
    reveal_with_fuel(occupied, 5);
}

/// A bucket whose slots are all occupied has no empty slot.
pub proof fn lemma_occupied_full(b: Seq<u8>)
    requires
        occupied(b) == b.len(),
    ensures
        !b.contains(0),
    decreases b.len(),
{
    if b.len() > 0 {
        lemma_occupied_le(b.drop_last());
        lemma_occupied_full(b.drop_last());
        assert forall|j: int| 0 <= j < b.len() implies b[j] != 0 by {
            if j < b.len() - 1 {
                assert(b[j] == b.drop_last()[j]);
            }
        }
    }
}

/// When every slot of the table is occupied, no bucket has an empty slot.
pub proof fn lemma_total_full(t: Seq<Seq<u8>>)
    requires
        uniform(t, BUCKET_SIZE as nat),
        total(t) == BUCKET_SIZE * t.len(),
    ensures
        forall|k: int| 0 <= k < t.len() ==> !(#[trigger] t[k]).contains(0),
    decreases t.len(),
{
    if t.len() > 0 {
        let d = t.drop_last();
        assert(uniform(d, BUCKET_SIZE as nat)) by {
            assert forall|k: int| 0 <= k < d.len() implies (#[trigger] d[k]).len() == BUCKET_SIZE by {
                assert(d[k] == t[k]);
            }
        }
        lemma_total_le(d);
        lemma_occupied_le(t.last());
        lemma_total_full(d);
        lemma_occupied_full(t.last());
        assert forall|k: int| 0 <= k < t.len() implies !(#[trigger] t[k]).contains(0) by {
            if k < t.len() - 1 {
                assert(t[k] == d[k]);
            }
        }
    }
}

/// Bucket `k` of a uniform table is the `k`-th chunk of its layout.
pub proof fn lemma_flat_chunk(t: Seq<Seq<u8>>, k: int)
    requires
        uniform(t, BUCKET_SIZE as nat),
        0 <= k < t.len(),
    ensures
        t[k] == flat(t).subrange(BUCKET_SIZE * k, BUCKET_SIZE * k + BUCKET_SIZE),
    decreases t.len(),
{
    let d = t.drop_last();
    assert(uniform(d, BUCKET_SIZE as nat)) by {
        assert forall|j: int| 0 <= j < d.len() implies (#[trigger] d[j]).len() == BUCKET_SIZE by {
            assert(d[j] == t[j]);
        }
    }
    lemma_flat_len(d);
    if k == t.len() - 1 {
        assert(t[k] =~= flat(t).subrange(BUCKET_SIZE * k, BUCKET_SIZE * k + BUCKET_SIZE));
    } else {
        lemma_flat_chunk(d, k);
        assert(d[k] == t[k]);
        assert(flat(d).subrange(BUCKET_SIZE * k, BUCKET_SIZE * k + BUCKET_SIZE) =~= flat(
            t,
        ).subrange(BUCKET_SIZE * k, BUCKET_SIZE * k + BUCKET_SIZE));
    }
}

/// A table whose buckets are all empty has no occupied slot.
pub proof fn lemma_total_empty(t: Seq<Seq<u8>>)
    requires
        forall|k: int| 0 <= k < t.len() ==> #[trigger] t[k] == seq![0u8, 0u8, 0u8, 0u8],
    ensures
        total(t) == 0,
    decreases t.len(),
{
    if t.len() > 0 {
        lemma_occupied_empty_bucket();
        assert forall|k: int| 0 <= k < t.drop_last().len() implies #[trigger] t.drop_last()[k]
            == seq![0u8, 0u8, 0u8, 0u8] by {
            assert(t.drop_last()[k] == t[k]);
        }
        lemma_total_empty(t.drop_last());
    }
}

/// Overwriting an empty slot keeps every occurrence of a non-zero byte.
pub proof fn lemma_fill_keeps(t: Seq<Seq<u8>>, k: int, j: int, v: u8, f: u8, c: int)
    requires
        0 <= k < t.len(),
        0 <= j < t[k].len(),
        0 <= c < t.len(),
        t[k][j] == 0,
        f != 0,
        t[c].contains(f),
    ensures
        t.update(k, t[k].update(j, v))[c].contains(f),
{
    let u = t.update(k, t[k].update(j, v));
    let s = choose|s: int| 0 <= s < t[c].len() && t[c][s] == f;
    assert(u[c][s] == f);
}

/// Overwriting slot `s` of bucket `b` loses the last occurrence of `f` in the
/// candidate buckets only when that slot held it.
pub proof fn lemma_overwrite_candidates(
    t: Seq<Seq<u8>>,
    b: int,
    s: int,
    v: u8,
    f: u8,
    c1: int,
    c2: int,
)
    requires
        0 <= b < t.len(),
        0 <= s < t[b].len(),
        0 <= c1 < t.len(),
        0 <= c2 < t.len(),
        t[c1].contains(f) || t[c2].contains(f),
        !(t.update(b, t[b].update(s, v))[c1].contains(f) || t.update(b, t[b].update(s, v))[
            c2
        ].contains(f)),
    ensures
        t[b][s] == f,
        b == c1 || b == c2,
{
    let u = t.update(b, t[b].update(s, v));
    if t[c1].contains(f) {
        let j = choose|j: int| 0 <= j < t[c1].len() && t[c1][j] == f;
        if !(c1 == b && j == s) {
            assert(u[c1][j] == f);
        }
    } else {
        let j = choose|j: int| 0 <= j < t[c2].len() && t[c2][j] == f;
        if !(c2 == b && j == s) {
            assert(u[c2][j] == f);
        }
    }
}

/// The multiset holding `v` once when it is a fingerprint, and nothing for
/// the empty byte.
pub open spec fn single(v: u8) -> Multiset<u8> {
    if v != 0 {
        Multiset::singleton(v)
    } else {
        Multiset::empty()
    }
}

/// The fingerprints stored in a bucket, as a multiset.
pub open spec fn bag(b: Seq<u8>) -> Multiset<u8>
    decreases b.len(),
{
    if b.len() == 0 {
        Multiset::empty()
    } else {
        bag(b.drop_last()).add(single(b.last()))
    }
}

/// The fingerprints stored in a table, as a multiset.
pub open spec fn fps(t: Seq<Seq<u8>>) -> Multiset<u8>
    decreases t.len(),
{
    if t.len() == 0 {
        Multiset::empty()
    } else {
        fps(t.drop_last()).add(bag(t.last()))
    }
}

pub proof fn lemma_bag_update(b: Seq<u8>, j: int, v: u8)
    requires
        0 <= j < b.len(),
    ensures
        bag(b.update(j, v)).add(single(b[j])) == bag(b).add(single(v)),
    decreases b.len(),
{
    broadcast use vstd::multiset::group_multiset_axioms;

    let u = b.update(j, v);
    let d = b.drop_last();
    if j == b.len() - 1 {
        assert(u.drop_last() =~= d);
        assert(u.last() == v);
        assert(bag(u) == bag(d).add(single(v)));
        assert(bag(b) == bag(d).add(single(b[j])));
        assert forall|x: u8| #[trigger] bag(u).add(single(b[j])).count(x) == bag(b).add(single(v)).count(x) by {}
        assert(bag(u).add(single(b[j])) =~= bag(b).add(single(v)));
    } else {
        assert(u.drop_last() =~= d.update(j, v));
        lemma_bag_update(d, j, v);
        assert(u.last() == b.last());
        assert(d[j] == b[j]);
        assert(bag(u) == bag(d.update(j, v)).add(single(b.last())));
        assert(bag(b) == bag(d).add(single(b.last())));
        assert forall|x: u8| #[trigger] bag(u).add(single(b[j])).count(x) == bag(b).add(single(v)).count(x) by {
            assert(bag(d.update(j, v)).add(single(d[j])).count(x) == bag(d).add(single(v)).count(x));
        }
        assert(bag(u).add(single(b[j])) =~= bag(b).add(single(v)));
    }
}

pub proof fn lemma_fps_update(t: Seq<Seq<u8>>, k: int, nb: Seq<u8>)
    requires
        0 <= k < t.len(),
    ensures
        fps(t.update(k, nb)).add(bag(t[k])) == fps(t).add(bag(nb)),
    decreases t.len(),
{
    broadcast use vstd::multiset::group_multiset_axioms;

    let u = t.update(k, nb);
    let d = t.drop_last();
    if k == t.len() - 1 {
        assert(u.drop_last() =~= d);
        assert(u.last() == nb);
        assert(fps(u) == fps(d).add(bag(nb)));
        assert(fps(t) == fps(d).add(bag(t[k])));
        assert forall|x: u8| #[trigger] fps(u).add(bag(t[k])).count(x) == fps(t).add(bag(nb)).count(x) by {}
        assert(fps(u).add(bag(t[k])) =~= fps(t).add(bag(nb)));
    } else {
        assert(u.drop_last() =~= d.update(k, nb));
        lemma_fps_update(d, k, nb);
        assert(u.last() == t.last());
        assert(d[k] == t[k]);
        assert(fps(u) == fps(d.update(k, nb)).add(bag(t.last())));
        assert(fps(t) == fps(d).add(bag(t.last())));
        assert forall|x: u8| #[trigger] fps(u).add(bag(t[k])).count(x) == fps(t).add(bag(nb)).count(x) by {
            assert(fps(d.update(k, nb)).add(bag(d[k])).count(x) == fps(d).add(bag(nb)).count(x));
        }
        assert(fps(u).add(bag(t[k])) =~= fps(t).add(bag(nb)));
    }
}

/// Overwriting one slot trades the fingerprint it held for the new one.
pub proof fn lemma_fps_slot(t: Seq<Seq<u8>>, k: int, j: int, v: u8)
    requires
        0 <= k < t.len(),
        0 <= j < t[k].len(),
    ensures
        fps(t.update(k, t[k].update(j, v))).add(single(t[k][j])) == fps(t).add(single(v)),
{
    broadcast use vstd::multiset::group_multiset_axioms;

    let nb = t[k].update(j, v);
    lemma_fps_update(t, k, nb);
    lemma_bag_update(t[k], j, v);
    let u = t.update(k, nb);
    assert forall|x: u8| #[trigger]
        fps(u).add(single(t[k][j])).count(x) == fps(t).add(single(v)).count(x) by {
        assert(fps(u).add(bag(t[k])).count(x) == fps(t).add(bag(nb)).count(x));
        assert(bag(nb).add(single(t[k][j])).count(x) == bag(t[k]).add(single(v)).count(x));
    }
    assert(fps(u).add(single(t[k][j])) =~= fps(t).add(single(v)));
}

/// Putting a fingerprint into the first empty slot of a bucket adds it to
/// the stored multiset and keeps every fingerprint where it was.
pub proof fn lemma_fill(t: Seq<Seq<u8>>, k: int, f: u8)
    requires
        0 <= k < t.len(),
        t[k].contains(0),
        f != 0,
    ensures
        fps(t.update(k, place_first(t[k], f))) == fps(t).insert(f),
        t.update(k, place_first(t[k], f))[k].contains(f),
        forall|c: int, v: u8|
            0 <= c < t.len() && v != 0 && #[trigger] t[c].contains(v) ==> t.update(
                k,
                place_first(t[k], f),
            )[c].contains(v),
{
    broadcast use vstd::multiset::group_multiset_axioms;

    lemma_first_slot_exists(t[k], 0);
    let j = first_slot(t[k], 0);
    let u = t.update(k, place_first(t[k], f));
    lemma_fps_slot(t, k, j, f);
    assert(single(t[k][j]) =~= Multiset::<u8>::empty());
    assert(fps(u).add(Multiset::<u8>::empty()) =~= fps(u));
    assert(u[k][j] == f);
    assert forall|c: int, v: u8|
        0 <= c < t.len() && v != 0 && #[trigger] t[c].contains(v) implies u[c].contains(v) by {
        lemma_fill_keeps(t, k, j, f, v, c);
    }
}

} // verus!
