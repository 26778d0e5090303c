//! Cuckoo filter: a probabilistic set-membership structure with insertion,
//! deletion and approximate membership queries.

mod bucket;
mod hashes;
mod model;
mod util;

use std::hash::Hash;

use rand::Rng;
use vstd::prelude::*;

pub use crate::bucket::{
    clear_first, first_slot, is_first_slot, occupied, place_first, Bucket, Fingerprint,
    BUCKET_SIZE, FINGERPRINT_SIZE,
};
pub use crate::hashes::{
    BuildHasherFarmhash, BuildHasherFnv, BuildHasherStd, BuildHasherXxh3, CuckooBuildHasher,
    CuckooHasher, DefaultBuildHasherXxh3, XXH3_DEFAULT_SECRET_SIZE,
};
pub use crate::model::{bag, buckets_for, flat, fps, in_candidates, is_pow2, pow2_at_least, total, uniform};
pub use crate::util::{
    alt_index, fai_of_hash, fai_valid, fp_of_hash, get_alt_index, get_fai, get_slice_fai,
    slice_fai, split_hash, FaI,
};

use crate::model::{
    lemma_fill_keeps, lemma_flat_chunk, lemma_flat_chunks, lemma_flat_len, lemma_mod_xor, lemma_occupied_update,
    lemma_overwrite_candidates, lemma_pow2_double, lemma_pow2_quarter, lemma_total_empty,
    lemma_total_flat, lemma_total_full, lemma_total_le, lemma_total_update, lemma_xor_twice,
    lemma_fill, lemma_fps_slot, single,
};

verus! {

/// If insertion fails, we will retry this many times.
pub const MAX_REBUCKET: u32 = 500;

/// The default number of items a filter is made for.
pub const DEFAULT_CAPACITY: usize = 0xf_ffff;

/// Relies on rand's `random::<bool>`: a coin flip from the thread-local generator.
#[verifier::external_body]
fn coin_flip() -> bool {
    rand::random::<bool>()
}

/// Relies on rand's `Rng::gen_range` on `thread_rng`: a value in `[0, BUCKET_SIZE)`.
#[verifier::external_body]
fn random_slot() -> (r: usize)
    ensures
        r < BUCKET_SIZE,
{
    rand::thread_rng().gen_range(0, BUCKET_SIZE)
}

/// The error of an insertion that found no room.
#[derive(Debug, PartialEq, Eq, Structural)]
pub enum CuckooError {
    NotEnoughSpace,
}

impl CuckooError {
    /// The error's name, as the filter reports it.
    pub fn as_str(&self) -> (r: &'static str)
        ensures
            r@ == "NotEnoughSpace"@,
    {
        proof {
            reveal_strlit("NotEnoughSpace");
        }
        "NotEnoughSpace"
    }
}

/// Whether the second index of `fai` is the alternate of its first under `h`.
pub open spec fn consistent<H: CuckooBuildHasher>(h: &H, fai: (u8, usize, usize)) -> bool {
    fai.2 == alt_index(h, fai.0, fai.1)
}

/// Bucket position of index `i` among `n` buckets.
pub open spec fn slot_of(i: usize, n: nat) -> int {
    i as int % n as int
}

/// From a candidate bucket of a fingerprint, its alternate index lands on
/// the other candidate bucket.
proof fn lemma_alt_other<H: CuckooBuildHasher>(h: &H, f: u8, i: usize, i1: usize, n: usize)
    requires
        is_pow2(n),
        slot_of(i, n as nat) == slot_of(i1, n as nat) || slot_of(i, n as nat) == slot_of(
            alt_index(h, f, i1),
            n as nat,
        ),
    ensures
        slot_of(alt_index(h, f, i), n as nat) == slot_of(i1, n as nat) || slot_of(
            alt_index(h, f, i),
            n as nat,
        ) == slot_of(alt_index(h, f, i1), n as nat),
{
    let x = split_hash(h.slice_hash(seq![f])).1 as usize;
    let i2 = i1 ^ x;
    lemma_mod_xor(i, x, n);
    lemma_mod_xor(i1, x, n);
    lemma_mod_xor(i2, x, n);
    lemma_xor_twice(i1, x);
}

/// Whether `slots` is one slot draw, each below `BUCKET_SIZE`, for every
/// relocation attempt.
pub open spec fn valid_draws(slots: Seq<usize>) -> bool {
    &&& slots.len() == MAX_REBUCKET
    &&& forall|j: int| 0 <= j < slots.len() ==> #[trigger] slots[j] < BUCKET_SIZE
}

/// The relocation loop from attempt `k` on: `fp` goes into slot `slots[k]`
/// of bucket `i`, the fingerprint it displaces heads for its alternate
/// bucket, and the loop ends when that bucket has room (true) or when the
/// draws run out (false), the displaced fingerprint then being dropped.
pub open spec fn relocation<H: CuckooBuildHasher>(
    h: &H,
    t: Seq<Seq<u8>>,
    fp: u8,
    i: usize,
    slots: Seq<usize>,
    k: nat,
) -> (Seq<Seq<u8>>, bool)
    decreases slots.len() - k,
{
    if k >= slots.len() {
        (t, false)
    } else {
        let b = slot_of(i, t.len());
        let s = slots[k as int] as int;
        let other = t[b][s];
        let t2 = t.update(b, t[b].update(s, fp));
        let j = alt_index(h, other, i);
        let b2 = slot_of(j, t.len());
        if t2[b2].contains(0) {
            (t2.update(b2, place_first(t2[b2], other)), true)
        } else {
            relocation(h, t2, other, j, slots, k + 1)
        }
    }
}

/// One random slot per relocation attempt.
fn draw_slots() -> (r: Vec<usize>)
    ensures
        valid_draws(r@),
{
    let mut slots: Vec<usize> = Vec::new();
    let mut k: u32 = 0;
    while k < MAX_REBUCKET
        invariant
            k <= MAX_REBUCKET,
            slots@.len() == k,
            forall|j: int| 0 <= j < slots@.len() ==> #[trigger] slots@[j] < BUCKET_SIZE,
        decreases MAX_REBUCKET - k,
    {
        slots.push(random_slot());
        k = k + 1;
    }
    slots
}

/// A minimal representation of a filter, for storage or transfer.
#[derive(Debug)]
pub struct ExportedCuckooFilter {
    pub values: Vec<u8>,
    pub length: usize,
}

/// A cuckoo filter: buckets of fingerprints, each item in one of two
/// candidate buckets.
pub struct CuckooFilter<H: CuckooBuildHasher> {
    buckets: Vec<Bucket>,
    len: usize,
    hash_builder: H,
}

impl<H: CuckooBuildHasher> CuckooFilter<H> {
    /// The slots' bytes, bucket by bucket; zero marks an empty slot.
    pub closed spec fn table(&self) -> Seq<Seq<u8>> {
        Seq::new(self.buckets@.len(), |k: int| self.buckets@[k]@)
    }

    /// The item count.
    pub closed spec fn count(&self) -> nat {
        self.len as nat
    }

    /// The hash adapter.
    pub closed spec fn hasher(&self) -> H {
        self.hash_builder
    }

    /// Number of buckets.
    pub open spec fn n_buckets(&self) -> nat {
        self.table().len()
    }

    /// A power-of-two number of buckets of four slots, and a count equal to
    /// the number of occupied slots.
    pub open spec fn wf(&self) -> bool {
        &&& is_pow2(self.n_buckets() as usize)
        &&& self.n_buckets() * BUCKET_SIZE <= usize::MAX
        &&& uniform(self.table(), BUCKET_SIZE as nat)
        &&& self.count() == total(self.table())
    }

    /// Whether one of the two candidate buckets of `fai` holds its fingerprint.
    pub open spec fn contains_spec(&self, fai: (u8, usize, usize)) -> bool {
        in_candidates(self.table(), fai.0, fai.1, fai.2)
    }

    /// What an insertion of `fai` leaves behind, whichever way the random
    /// relocations went.
    pub open spec fn adds(
        before: Self,
        after: Self,
        fai: (u8, usize, usize),
        r: Result<(), CuckooError>,
    ) -> bool {
        let t = before.table();
        let c1 = slot_of(fai.1, t.len());
        let c2 = slot_of(fai.2, t.len());
        &&& after.wf()
        &&& after.hasher() == before.hasher()
        &&& after.n_buckets() == before.n_buckets()
        &&& r is Ok ==> after.count() == before.count() + 1
        &&& r is Err ==> after.count() == before.count()
        &&& t[c1].contains(0) ==> r is Ok && after.table() == t.update(
            c1,
            place_first(t[c1], fai.0),
        )
        &&& !t[c1].contains(0) && t[c2].contains(0) ==> r is Ok && after.table() == t.update(
            c2,
            place_first(t[c2], fai.0),
        )
        &&& r is Ok && consistent(&before.hasher(), fai) ==> after.contains_spec(fai)
        &&& before.count() == before.n_buckets() * BUCKET_SIZE ==> r is Err
        &&& r is Ok ==> fps(after.table()) == fps(t).insert(fai.0)
        &&& r is Err ==> exists|d: u8| d != 0 && fps(after.table()).insert(d) == fps(t).insert(fai.0)
        &&& r is Ok ==> forall|g: (u8, usize, usize)|
            g.0 != 0 && consistent(&before.hasher(), g) && before.contains_spec(g)
                ==> #[trigger] after.contains_spec(g)
        &&& !t[c1].contains(0) && !t[c2].contains(0) ==> exists|start: usize, slots: Seq<usize>|
            (start == fai.1 || start == fai.2) && valid_draws(slots) && (after.table(), r is Ok)
                == #[trigger] relocation(&before.hasher(), t, fai.0, start, slots, 0)
    }

    /// What a test-and-add of `fai` leaves behind: nothing changes when it is
    /// present, else it is added as by `adds` and `Ok(true)` comes back.
    pub open spec fn tests_and_adds(
        before: Self,
        after: Self,
        fai: (u8, usize, usize),
        r: Result<bool, CuckooError>,
    ) -> bool {
        &&& before.contains_spec(fai) ==> r == Ok::<bool, CuckooError>(false) && after == before
        &&& !before.contains_spec(fai) ==> match r {
            Ok(added) => added && Self::adds(before, after, fai, Ok(())),
            Err(e) => Self::adds(before, after, fai, Err(e)),
        }
    }

    /// What emptying the filter leaves behind; an empty filter stays as it is.
    pub open spec fn cleared(before: Self, after: Self) -> bool {
        &&& after.wf()
        &&& after.hasher() == before.hasher()
        &&& after.n_buckets() == before.n_buckets()
        &&& after.count() == 0
        &&& forall|k: int|
            0 <= k < after.n_buckets() ==> #[trigger] after.table()[k] == seq![0u8, 0u8, 0u8, 0u8]
        &&& before.count() == 0 ==> after == before
    }

    /// What a deletion of `fai` leaves behind.
    pub open spec fn deletes(before: Self, after: Self, fai: (u8, usize, usize), r: bool) -> bool {
        let t = before.table();
        let c1 = slot_of(fai.1, t.len());
        let c2 = slot_of(fai.2, t.len());
        &&& after.wf()
        &&& after.hasher() == before.hasher()
        &&& after.n_buckets() == before.n_buckets()
        &&& r == before.contains_spec(fai)
        &&& t[c1].contains(fai.0) ==> after.table() == t.update(c1, clear_first(t[c1], fai.0))
        &&& !t[c1].contains(fai.0) && t[c2].contains(fai.0) ==> after.table() == t.update(
            c2,
            clear_first(t[c2], fai.0),
        )
        &&& !r ==> after.table() == t
        &&& after.count() == before.count() - (if r {
            1int
        } else {
            0int
        })
    }

    proof fn lemma_table_set(old_f: Self, new_f: Self, k: int, b: Bucket)
        requires
            0 <= k < old_f.buckets@.len(),
            new_f.buckets@ == old_f.buckets@.update(k, b),
        ensures
            new_f.table() == old_f.table().update(k, b@),
    {
        assert(new_f.table() =~= old_f.table().update(k, b@));
    }

    /// Puts `fp` into the first empty slot of bucket `i`; false when it is full.
    fn put(&mut self, fp: Fingerprint, i: usize) -> (r: bool)
        requires
            old(self).wf(),
            fp@ != 0,
        ensures
            final(self).wf(),
            final(self).hasher() == old(self).hasher(),
            final(self).n_buckets() == old(self).n_buckets(),
            r == old(self).table()[slot_of(i, old(self).n_buckets())].contains(0),
            r ==> is_first_slot(
                old(self).table()[slot_of(i, old(self).n_buckets())],
                0,
                first_slot(old(self).table()[slot_of(i, old(self).n_buckets())], 0),
            ),
            r ==> final(self).table() == old(self).table().update(
                slot_of(i, old(self).n_buckets()),
                place_first(old(self).table()[slot_of(i, old(self).n_buckets())], fp@),
            ),
            r ==> final(self).count() == old(self).count() + 1,
            !r ==> *final(self) == *old(self),
    {
        let n = self.buckets.len();
        let k = i % n;
        let mut b = self.buckets[k];
        let ghost ob = b@;
        if b.insert(fp) {
            proof {
                let t = self.table();
                assert(t[k as int] == ob);
                lemma_occupied_update(ob, first_slot(ob, 0), fp@);
                lemma_total_update(t, k as int, b@);
                let t2 = t.update(k as int, b@);
                assert(uniform(t2, BUCKET_SIZE as nat));
                lemma_total_le(t2);
            }
            let ghost pre = *self;
            self.buckets.set(k, b);
            proof {
                Self::lemma_table_set(pre, *self, k as int, b);
            }
            self.len = self.len + 1;
            true
        } else {
            false
        }
    }

    /// Empties the first slot of bucket `i` that holds `fp`; false when none does.
    fn remove(&mut self, fp: Fingerprint, i: usize) -> (r: bool)
        requires
            old(self).wf(),
            fp@ != 0,
        ensures
            final(self).wf(),
            final(self).hasher() == old(self).hasher(),
            final(self).n_buckets() == old(self).n_buckets(),
            r == old(self).table()[slot_of(i, old(self).n_buckets())].contains(fp@),
            r ==> final(self).table() == old(self).table().update(
                slot_of(i, old(self).n_buckets()),
                clear_first(old(self).table()[slot_of(i, old(self).n_buckets())], fp@),
            ),
            r ==> final(self).count() == old(self).count() - 1,
            !r ==> *final(self) == *old(self),
    {
        let n = self.buckets.len();
        let k = i % n;
        let mut b = self.buckets[k];
        let ghost ob = b@;
        if b.delete(fp) {
            proof {
                let t = self.table();
                assert(t[k as int] == ob);
                lemma_occupied_update(ob, first_slot(ob, fp@), 0);
                lemma_total_update(t, k as int, b@);
                let t2 = t.update(k as int, b@);
                assert(uniform(t2, BUCKET_SIZE as nat));
            }
            let ghost pre = *self;
            self.buckets.set(k, b);
            proof {
                Self::lemma_table_set(pre, *self, k as int, b);
            }
            self.len = self.len - 1;
            true
        } else {
            false
        }
    }

    /// Checks whether the fingerprint is in one of its candidate buckets.
    pub fn contains_fingerprint(&self, fai: &FaI) -> (r: bool)
        requires
            self.wf(),
            fai.fp@ != 0,
        ensures
            r == self.contains_spec(fai@),
    {
        let len = self.buckets.len();
        let a = self.buckets[fai.i1 % len].get_fingerprint_index(fai.fp);
        if a.is_some() {
            true
        } else {
            self.buckets[fai.i2 % len].get_fingerprint_index(fai.fp).is_some()
        }
    }

    /// Adds the fingerprint to the filter, relocating occupants when both
    /// candidate buckets are full. On `NotEnoughSpace` the fingerprint was
    /// stored but the last relocated one was dropped.
    pub fn add_fingerprint(&mut self, fai: &FaI) -> (r: Result<(), CuckooError>)
        requires
            old(self).wf(),
            fai.fp@ != 0,
        ensures
            Self::adds(*old(self), *final(self), fai@, r),
    {
        let ghost t = self.table();
        let ghost c1 = slot_of(fai.i1, t.len());
        let ghost c2 = slot_of(fai.i2, t.len());
        if self.put(fai.fp, fai.i1) {
            proof {
                lemma_fill(t, c1, fai.fp@);
                self.lemma_found_in(fai@);
                if old(self).count() == old(self).n_buckets() * BUCKET_SIZE {
                    lemma_total_full(t);
                }
            }
            return Ok(());
        }
        if self.put(fai.fp, fai.i2) {
            proof {
                lemma_fill(t, c2, fai.fp@);
                self.lemma_found_in(fai@);
                if old(self).count() == old(self).n_buckets() * BUCKET_SIZE {
                    lemma_total_full(t);
                }
            }
            return Ok(());
        }
        let pick = coin_flip();
        let start = fai.random_index(pick);
        let slots = draw_slots();
        let r = self.relocate(fai.fp, start, &slots);
        proof {
            assert((start == fai.i1 || start == fai.i2) && valid_draws(slots@) && (
            self.table(), r is Ok) == relocation(&old(self).hasher(), t, fai.fp@, start, slots@, 0));
            if r is Ok && consistent(&old(self).hasher(), fai@) {
                assert(self.contains_spec(fai@));
            }
            if r is Err {
                let d = choose|d: u8| d != 0 && fps(self.table()).insert(d) == fps(t).insert(fai.fp@);
                assert(fps(self.table()).insert(d) == fps(t).insert(fai@.0));
            }
        }
        r
    }

    /// A fingerprint found in a candidate bucket of a record is found for it.
    proof fn lemma_found_in(&self, g: (u8, usize, usize))
        ensures
            self.table()[slot_of(g.1, self.n_buckets())].contains(g.0) ==> self.contains_spec(g),
            self.table()[slot_of(g.2, self.n_buckets())].contains(g.0) ==> self.contains_spec(g),
    {
    }

    /// The relocation loop, over given draws: `fp` is pushed into bucket
    /// `start` at slot `slots[0]`, the fingerprint it displaces moves to its
    /// alternate bucket, and so on, until a bucket has room or the draws run
    /// out, in which case the last displaced fingerprint is dropped.
    pub fn relocate(&mut self, fp: Fingerprint, start: usize, slots: &Vec<usize>) -> (r: Result<
        (),
        CuckooError,
    >)
        requires
            old(self).wf(),
            fp@ != 0,
            valid_draws(slots@),
            !old(self).table()[slot_of(start, old(self).n_buckets())].contains(0),
        ensures
            final(self).wf(),
            final(self).hasher() == old(self).hasher(),
            final(self).n_buckets() == old(self).n_buckets(),
            (final(self).table(), r is Ok) == relocation(
                &old(self).hasher(),
                old(self).table(),
                fp@,
                start,
                slots@,
                0,
            ),
            r is Ok ==> final(self).count() == old(self).count() + 1 && fps(final(self).table())
                == fps(old(self).table()).insert(fp@),
            r is Err ==> final(self).count() == old(self).count() && exists|d: u8|
                d != 0 && fps(final(self).table()).insert(d) == fps(old(self).table()).insert(fp@),
            r is Ok ==> forall|g: (u8, usize, usize)|
                g.0 != 0 && consistent(&old(self).hasher(), g) && (old(self).contains_spec(g) || (
                g.0 == fp@ && (slot_of(start, old(self).n_buckets()) == slot_of(
                    g.1,
                    old(self).n_buckets(),
                ) || slot_of(start, old(self).n_buckets()) == slot_of(
                    g.2,
                    old(self).n_buckets(),
                )))) ==> #[trigger] final(self).contains_spec(g),
            old(self).count() == old(self).n_buckets() * BUCKET_SIZE ==> r is Err,
    {
        let ghost h = old(self).hasher();
        let ghost n = old(self).n_buckets();
        let len = self.buckets.len();
        let mut i = start;
        let mut hand = fp;
        let mut attempt: usize = 0;
        while attempt < slots.len()
            invariant
                self.wf(),
                self.hasher() == h,
                self.n_buckets() == n,
                self.count() == old(self).count(),
                len == n,
                h == old(self).hasher(),
                n == old(self).n_buckets(),
                valid_draws(slots@),
                attempt <= slots@.len(),
                hand@ != 0,
                !self.table()[slot_of(i, n)].contains(0),
                relocation(&h, self.table(), hand@, i, slots@, attempt as nat) == relocation(
                    &h,
                    old(self).table(),
                    fp@,
                    start,
                    slots@,
                    0,
                ),
                fps(self.table()).insert(hand@) == fps(old(self).table()).insert(fp@),
                forall|g: (u8, usize, usize)|
                    g.0 != 0 && consistent(&h, g) && (old(self).contains_spec(g) || (g.0 == fp@ && (
                    slot_of(start, n) == slot_of(g.1, n) || slot_of(start, n) == slot_of(g.2, n))))
                        ==> #[trigger] self.contains_spec(g) || (hand@ == g.0 && (slot_of(i, n)
                        == slot_of(g.1, n) || slot_of(i, n) == slot_of(g.2, n))),
            decreases slots@.len() - attempt,
        {
            let slot = slots[attempt];
            let k = i % len;
            let mut b = self.buckets[k];
            let ghost t = self.table();
            let ghost pre = *self;
            let other = b.swap(slot, hand);
            proof {
                assert(t[k as int] == self.buckets@[k as int]@);
                assert(t[k as int][slot as int] != 0);
                lemma_occupied_update(t[k as int], slot as int, hand@);
                lemma_total_update(t, k as int, b@);
                assert(uniform(t.update(k as int, b@), BUCKET_SIZE as nat));
                lemma_fps_slot(t, k as int, slot as int, hand@);
            }
            self.buckets.set(k, b);
            proof {
                Self::lemma_table_set(pre, *self, k as int, b);
            }
            let ghost old_i = i;
            i = get_alt_index(&self.hash_builder, other, i);
            let ghost mid = *self;
            proof {
                let t2 = self.table();
                assert(t2 == t.update(k as int, t[k as int].update(slot as int, hand@)));
                assert(fps(t2).insert(other@) =~= fps(old(self).table()).insert(fp@)) by {
                    broadcast use vstd::multiset::group_multiset_axioms;

                    assert(fps(t2).add(single(other@)) == fps(t).add(single(hand@)));
                }
                assert forall|g: (u8, usize, usize)|
                    g.0 != 0 && consistent(&h, g) && (old(self).contains_spec(g) || (g.0 == fp@ && (
                    slot_of(start, n) == slot_of(g.1, n) || slot_of(start, n) == slot_of(g.2, n))))
                    implies #[trigger] mid.contains_spec(g) || (other@ == g.0 && (slot_of(i, n)
                    == slot_of(g.1, n) || slot_of(i, n) == slot_of(g.2, n))) by {
                    assert(pre.contains_spec(g) || (hand@ == g.0 && (slot_of(old_i, n) == slot_of(
                        g.1,
                        n,
                    ) || slot_of(old_i, n) == slot_of(g.2, n))));
                    let g1 = slot_of(g.1, n);
                    let g2 = slot_of(g.2, n);
                    if !mid.contains_spec(g) {
                        if in_candidates(t, g.0, g.1, g.2) {
                            lemma_overwrite_candidates(t, k as int, slot as int, hand@, g.0, g1, g2);
                        } else {
                            assert(t2[k as int][slot as int] == g.0);
                        }
                        lemma_alt_other(&h, g.0, old_i, g.1, len);
                    }
                }
            }
            if self.put(other, i) {
                proof {
                    let t2 = mid.table();
                    let kk = slot_of(i, n);
                    lemma_fill(t2, kk, other@);
                    if old(self).count() == old(self).n_buckets() * BUCKET_SIZE {
                        lemma_total_full(t2);
                    }
                    assert forall|g: (u8, usize, usize)|
                        g.0 != 0 && consistent(&h, g) && (old(self).contains_spec(g) || (g.0 == fp@
                        && (slot_of(start, n) == slot_of(g.1, n) || slot_of(start, n) == slot_of(
                        g.2,
                        n,
                    )))) implies #[trigger] self.contains_spec(g) by {
                        assert(mid.contains_spec(g) || (other@ == g.0 && (kk == slot_of(g.1, n)
                            || kk == slot_of(g.2, n))));
                        self.lemma_found_in(g);
                        if mid.contains_spec(g) {
                            assert(t2[slot_of(g.1, n)].contains(g.0) || t2[slot_of(
                                g.2,
                                n,
                            )].contains(g.0));
                        }
                    }
                }
                return Ok(());
            }
            hand = other;
            attempt = attempt + 1;
        }
        Err(CuckooError::NotEnoughSpace)
    }

    /// Adds the fingerprint unless it is already present; `Ok(true)` when it
    /// was absent and is now added.
    pub fn test_and_add_fingerprint(&mut self, fai: &FaI) -> (r: Result<bool, CuckooError>)
        requires
            old(self).wf(),
            fai.fp@ != 0,
        ensures
            Self::tests_and_adds(*old(self), *final(self), fai@, r),
    {
        if self.contains_fingerprint(fai) {
            Ok(false)
        } else {
            match self.add_fingerprint(fai) {
                Ok(()) => Ok(true),
                Err(e) => Err(e),
            }
        }
    }

    /// Deletes one copy of the fingerprint, trying its first candidate bucket
    /// and then its second; true when a copy was found.
    pub fn delete_fingerprint(&mut self, fai: &FaI) -> (r: bool)
        requires
            old(self).wf(),
            fai.fp@ != 0,
        ensures
            Self::deletes(*old(self), *final(self), fai@, r),
    {
        if self.remove(fai.fp, fai.i1) {
            true
        } else {
            self.remove(fai.fp, fai.i2)
        }
    }

    /// Number of items in the filter.
    pub fn len(&self) -> (r: usize)
        requires
            self.wf(),
        ensures
            r == self.count(),
            r <= self.n_buckets() * BUCKET_SIZE,
    {
        proof {
            lemma_total_le(self.table());
        }
        self.len
    }

    /// Whether the filter holds no item.
    pub fn is_empty(&self) -> (r: bool)
        ensures
            r == (self.count() == 0),
    {
        self.len == 0
    }

    /// Empties every bucket and resets the count.
    pub fn clear(&mut self)
        requires
            old(self).wf(),
        ensures
            Self::cleared(*old(self), *final(self)),
    {
        if self.is_empty() {
            proof {
                self.lemma_empty_table();
            }
            return;
        }
        let n = self.buckets.len();
        let mut k: usize = 0;
        while k < n
            invariant
                0 <= k <= n,
                n == self.buckets@.len(),
                self.hash_builder == old(self).hash_builder,
                self.len == old(self).len,
                forall|j: int| 0 <= j < k ==> #[trigger] self.buckets@[j]@ == seq![0u8, 0u8, 0u8, 0u8],
            decreases n - k,
        {
            let mut b = self.buckets[k];
            b.clear();
            self.buckets.set(k, b);
            k = k + 1;
        }
        self.len = 0;
        proof {
            let t = self.table();
            assert forall|j: int| 0 <= j < t.len() implies #[trigger] t[j] == seq![0u8, 0u8, 0u8, 0u8] by {
                assert(t[j] == self.buckets@[j]@);
            }
            lemma_total_empty(t);
            assert(self.n_buckets() == old(self).n_buckets());
        }
    }

    /// A well-formed filter with no item has only empty buckets.
    proof fn lemma_empty_table(&self)
        requires
            self.wf(),
            self.count() == 0,
        ensures
            forall|k: int|
                0 <= k < self.n_buckets() ==> #[trigger] self.table()[k] == seq![0u8, 0u8, 0u8, 0u8],
    {
        let t = self.table();
        assert forall|k: int| 0 <= k < t.len() implies #[trigger] t[k] == seq![0u8, 0u8, 0u8, 0u8] by {
            lemma_total_update(t, k, seq![0u8, 0u8, 0u8, 0u8]);
            crate::model::lemma_occupied_empty_bucket();
            crate::model::lemma_occupied_zero(t[k]);
            assert(t[k] =~= seq![0u8, 0u8, 0u8, 0u8]);
        }
    }

    /// Constructs a filter with room for at least `cap` items: the next power
    /// of two from `cap`, a quarter of it in buckets, at least one.
    pub fn with_capacity(hash_builder: H, cap: usize) -> (r: Self)
        requires
            cap <= usize::MAX / 2 + 1,
        ensures
            r.wf(),
            r.hasher() == hash_builder,
            r.n_buckets() == buckets_for(cap as nat),
            r.count() == 0,
            forall|k: int|
                0 <= k < r.n_buckets() ==> #[trigger] r.table()[k] == seq![0u8, 0u8, 0u8, 0u8],
    {
        let mut p: usize = 1;
        assert(is_pow2(1)) by (bit_vector);
        while p < cap
            invariant
                1 <= p,
                p == 1 || p < 2 * cap,
                cap <= usize::MAX / 2 + 1,
                is_pow2(p),
                pow2_at_least(p as nat, cap as nat) == pow2_at_least(1, cap as nat),
            decreases usize::MAX - p,
        {
            proof {
                lemma_pow2_double(p);
            }
            p = p * 2;
        }
        let capacity: usize = if p / BUCKET_SIZE < 1 {
            proof {
                assert(is_pow2(1)) by (bit_vector);
            }
            1
        } else {
            proof {
                lemma_pow2_quarter(p);
            }
            p / BUCKET_SIZE
        };
        let mut buckets: Vec<Bucket> = Vec::new();
        let mut k: usize = 0;
        while k < capacity
            invariant
                0 <= k <= capacity,
                buckets@.len() == k,
                forall|j: int| 0 <= j < k ==> #[trigger] buckets@[j]@ == seq![0u8, 0u8, 0u8, 0u8],
            decreases capacity - k,
        {
            buckets.push(Bucket::new());
            k = k + 1;
        }
        let r = Self { buckets, len: 0, hash_builder };
        proof {
            let t = r.table();
            assert forall|j: int| 0 <= j < t.len() implies #[trigger] t[j] == seq![0u8, 0u8, 0u8, 0u8] by {
                assert(t[j] == r.buckets@[j]@);
            }
            lemma_total_empty(t);
        }
        r
    }

    /// The slots' bytes, bucket by bucket, slot by slot.
    fn values(&self) -> (r: Vec<u8>)
        ensures
            r@ == flat(self.table()),
    {
        let mut out: Vec<u8> = Vec::new();
        let n = self.buckets.len();
        let mut k: usize = 0;
        while k < n
            invariant
                0 <= k <= n,
                n == self.buckets@.len(),
                out@ == flat(self.table().subrange(0, k as int)),
            decreases n - k,
        {
            let data = self.buckets[k].get_fingerprint_data();
            let mut j: usize = 0;
            let ghost start = out@;
            while j < data.len()
                invariant
                    0 <= j <= data@.len(),
                    out@ == start + data@.subrange(0, j as int),
                decreases data@.len() - j,
            {
                out.push(data[j]);
                j = j + 1;
                assert(out@ =~= start + data@.subrange(0, j as int));
            }
            proof {
                let t = self.table();
                assert(t.subrange(0, k + 1).drop_last() =~= t.subrange(0, k as int));
                assert(t.subrange(0, k + 1).last() == t[k as int]);
                assert(data@.subrange(0, j as int) =~= data@);
            }
            k = k + 1;
        }
        proof {
            assert(self.table().subrange(0, n as int) =~= self.table());
        }
        out
    }

    /// Exports the fingerprints of all buckets together with the item count.
    pub fn export(&self) -> (r: (&H, ExportedCuckooFilter))
        ensures
            *r.0 == self.hasher(),
            r.1.values@ == flat(self.table()),
            r.1.length == self.count(),
    {
        (&self.hash_builder, ExportedCuckooFilter { values: self.values(), length: self.len })
    }

    /// Turns the filter into its hash adapter and its exported form.
    pub fn into_exported(self) -> (r: (H, ExportedCuckooFilter))
        ensures
            r.0 == self.hasher(),
            r.1.values@ == flat(self.table()),
            r.1.length == self.count(),
    {
        let values = self.values();
        let length = self.len;
        (self.hash_builder, ExportedCuckooFilter { values, length })
    }

    /// Whether an exported form can be imported: whole buckets, a power-of-two
    /// number of them, and a count equal to the number of occupied slots.
    pub fn is_importable(exported: &ExportedCuckooFilter) -> (r: bool)
        ensures
            r == (exported.values@.len() % (BUCKET_SIZE as nat) == 0 && is_pow2(
                #[verifier::truncate] ((exported.values@.len() / (BUCKET_SIZE as nat)) as usize),
            ) && exported.length == occupied(exported.values@)),
    {
        let values = &exported.values;
        let vlen = values.len();
        if vlen % BUCKET_SIZE != 0 {
            return false;
        }
        let n = vlen / BUCKET_SIZE;
        if n == 0 || n & (n - 1) != 0 {
            return false;
        }
        let mut count: usize = 0;
        let mut j: usize = 0;
        while j < vlen
            invariant
                0 <= j <= vlen,
                vlen == values@.len(),
                count == occupied(values@.subrange(0, j as int)),
                count <= j,
            decreases vlen - j,
        {
            proof {
                assert(values@.subrange(0, j + 1).drop_last() =~= values@.subrange(0, j as int));
            }
            if values[j] != 0 {
                count = count + 1;
            }
            j = j + 1;
        }
        proof {
            assert(values@.subrange(0, vlen as int) =~= values@);
        }
        count == exported.length
    }

    /// Rebuilds a filter from an exported form: the values are cut into
    /// buckets, and the count is taken as given.
    pub fn from_exported(hash_builder: H, exported: ExportedCuckooFilter) -> (r: Self)
        requires
            exported.values@.len() % (BUCKET_SIZE as nat) == 0,
            is_pow2(#[verifier::truncate] ((exported.values@.len() / (BUCKET_SIZE as nat)) as usize)),
            exported.length == occupied(exported.values@),
        ensures
            r.wf(),
            r.hasher() == hash_builder,
            flat(r.table()) == exported.values@,
            r.count() == exported.length,
    {
        let values = exported.values;
        let vlen = values.len();
        let n = vlen / (BUCKET_SIZE * FINGERPRINT_SIZE);
        let mut buckets: Vec<Bucket> = Vec::new();
        let mut k: usize = 0;
        while k < n
            invariant
                0 <= k <= n,
                n * BUCKET_SIZE == values@.len(),
                vlen == values@.len(),
                buckets@.len() == k,
                forall|j: int|
                    0 <= j < k ==> #[trigger] buckets@[j]@ == values@.subrange(
                        BUCKET_SIZE * j,
                        BUCKET_SIZE * j + BUCKET_SIZE,
                    ),
            decreases n - k,
        {
            assert(k * BUCKET_SIZE + BUCKET_SIZE <= n * BUCKET_SIZE);
            let base = k * BUCKET_SIZE;
            let chunk: [u8; BUCKET_SIZE] = [
                values[base],
                values[base + 1],
                values[base + 2],
                values[base + 3],
            ];
            let chunk_slice: &[u8] = &chunk;
            let b = Bucket::from(chunk_slice);
            proof {
                assert(b@ =~= values@.subrange(BUCKET_SIZE * k, BUCKET_SIZE * k + BUCKET_SIZE));
            }
            buckets.push(b);
            k = k + 1;
        }
        let r = Self { buckets, len: exported.length, hash_builder };
        proof {
            let t = r.table();
            assert forall|j: int| 0 <= j < t.len() implies #[trigger] t[j] == values@.subrange(
                BUCKET_SIZE * j,
                BUCKET_SIZE * j + BUCKET_SIZE,
            ) by {
                assert(t[j] == r.buckets@[j]@);
            }
            lemma_flat_chunks(t, values@);
            lemma_total_flat(t);
            assert(uniform(t, BUCKET_SIZE as nat));
        }
        r
    }

    /// Number of bytes the filter occupies in memory.
    pub fn memory_usage(&self) -> (r: usize)
        requires
            vstd::layout::spec_size_of_val::<Self>(self) + self.n_buckets()
                * vstd::layout::size_of::<Bucket>() <= usize::MAX,
        ensures
            r == vstd::layout::spec_size_of_val::<Self>(self) + self.n_buckets()
                * vstd::layout::size_of::<Bucket>(),
    {
        std::mem::size_of_val(self) + self.buckets.len() * std::mem::size_of::<Bucket>()
    }

    /// The fingerprint and candidate indexes of `data` under this filter's
    /// hash adapter; usable with any filter of the same adapter.
    pub fn fingerprint<T: ?Sized + Hash>(&self, data: &T) -> (r: FaI)
        ensures
            fai_valid(&self.hasher(), r@),
            r.fp@ != 0,
    {
        get_fai(&self.hash_builder, data)
    }

    /// The fingerprint and candidate indexes of a byte slice.
    pub fn fingerprint_slice(&self, data: &[u8]) -> (r: FaI)
        ensures
            r@ == slice_fai(&self.hasher(), data@),
            r.fp@ != 0,
    {
        get_slice_fai(&self.hash_builder, data)
    }

    /// Checks if `data` is in the filter.
    pub fn contains<T: ?Sized + Hash>(&self, data: &T) -> (r: bool)
        requires
            self.wf(),
        ensures
            exists|fai: (u8, usize, usize)|
                fai_valid(&self.hasher(), fai) && r == self.contains_spec(fai),
    {
        let fai = get_fai(&self.hash_builder, data);
        self.contains_fingerprint(&fai)
    }

    /// Checks if the byte slice is in the filter.
    pub fn contains_slice(&self, data: &[u8]) -> (r: bool)
        requires
            self.wf(),
        ensures
            r == self.contains_spec(slice_fai(&self.hasher(), data@)),
    {
        let fai = get_slice_fai(&self.hash_builder, data);
        self.contains_fingerprint(&fai)
    }

    /// Adds `data` to the filter; `NotEnoughSpace` when relocation gave up.
    pub fn add<T: ?Sized + Hash>(&mut self, data: &T) -> (r: Result<(), CuckooError>)
        requires
            old(self).wf(),
        ensures
            exists|fai: (u8, usize, usize)|
                fai_valid(&old(self).hasher(), fai) && Self::adds(*old(self), *final(self), fai, r),
    {
        let fai = get_fai(&self.hash_builder, data);
        self.add_fingerprint(&fai)
    }

    /// Adds the byte slice to the filter; `NotEnoughSpace` when relocation gave up.
    pub fn add_slice(&mut self, data: &[u8]) -> (r: Result<(), CuckooError>)
        requires
            old(self).wf(),
        ensures
            Self::adds(*old(self), *final(self), slice_fai(&old(self).hasher(), data@), r),
    {
        let fai = get_slice_fai(&self.hash_builder, data);
        self.add_fingerprint(&fai)
    }

    /// Adds `data` unless it is already present; `Ok(true)` when it was added.
    pub fn test_and_add<T: ?Sized + Hash>(&mut self, data: &T) -> (r: Result<bool, CuckooError>)
        requires
            old(self).wf(),
        ensures
            exists|fai: (u8, usize, usize)|
                fai_valid(&old(self).hasher(), fai) && Self::tests_and_adds(
                    *old(self),
                    *final(self),
                    fai,
                    r,
                ),
    {
        let fai = get_fai(&self.hash_builder, data);
        let r = self.test_and_add_fingerprint(&fai);
        assert(fai_valid(&old(self).hasher(), fai@) && Self::tests_and_adds(
            *old(self),
            *self,
            fai@,
            r,
        ));
        r
    }

    /// Adds the byte slice unless it is already present; `Ok(true)` when it was added.
    pub fn test_and_add_slice(&mut self, data: &[u8]) -> (r: Result<bool, CuckooError>)
        requires
            old(self).wf(),
        ensures
            Self::tests_and_adds(*old(self), *final(self), slice_fai(&old(self).hasher(), data@), r),
    {
        let fai = get_slice_fai(&self.hash_builder, data);
        self.test_and_add_fingerprint(&fai)
    }

    /// Deletes one copy of `data`; true when one was found.
    pub fn delete<T: ?Sized + Hash>(&mut self, data: &T) -> (r: bool)
        requires
            old(self).wf(),
        ensures
            exists|fai: (u8, usize, usize)|
                fai_valid(&old(self).hasher(), fai) && Self::deletes(*old(self), *final(self), fai, r),
    {
        let fai = get_fai(&self.hash_builder, data);
        self.delete_fingerprint(&fai)
    }

    /// Deletes one copy of the byte slice; true when one was found.
    pub fn delete_slice(&mut self, data: &[u8]) -> (r: bool)
        requires
            old(self).wf(),
        ensures
            Self::deletes(*old(self), *final(self), slice_fai(&old(self).hasher(), data@), r),
    {
        let fai = get_slice_fai(&self.hash_builder, data);
        self.delete_fingerprint(&fai)
    }

}

/// Taking the alternate index twice gives back the index, so both candidate
/// buckets of a stored fingerprint can be found from either one.
pub proof fn lemma_alt_index_involution<H: CuckooBuildHasher>(h: &H, fp: u8, i: usize, n: nat)
    requires
        n > 0,
    ensures
        alt_index(h, fp, alt_index(h, fp, i)) == i,
        slot_of(alt_index(h, fp, alt_index(h, fp, i)), n) == slot_of(i, n),
{
    lemma_xor_twice(i, split_hash(h.slice_hash(seq![fp])).1 as usize);
}

/// Every derived fingerprint is non-zero, for every hash and every byte slice.
pub proof fn lemma_fingerprint_nonzero<H: CuckooBuildHasher>(
    h: &H,
    fp_hash: u32,
    index_hash: u32,
    data: Seq<u8>,
)
    ensures
        fai_of_hash(h, fp_hash, index_hash).0 != 0,
        slice_fai(h, data).0 != 0,
{
}

/// How many of the results are `Ok`.
pub open spec fn oks(rs: Seq<Result<(), CuckooError>>) -> nat
    decreases rs.len(),
{
    if rs.len() == 0 {
        0
    } else {
        oks(rs.drop_last()) + if rs.last() is Ok {
            1nat
        } else {
            0nat
        }
    }
}

impl<H: CuckooBuildHasher> CuckooFilter<H> {
    /// Over a run of insertions, each `Ok` adds one to the count, so no more
    /// insertions succeed than there were free slots at the start.
    pub proof fn lemma_insertions_bounded(
        fs: Seq<Self>,
        fais: Seq<(u8, usize, usize)>,
        rs: Seq<Result<(), CuckooError>>,
    )
        requires
            fs.len() == rs.len() + 1,
            fais.len() == rs.len(),
            fs[0].wf(),
            forall|j: int| 0 <= j < rs.len() ==> #[trigger] Self::adds(fs[j], fs[j + 1], fais[j], rs[j]),
        ensures
            fs.last().wf(),
            fs.last().n_buckets() == fs[0].n_buckets(),
            fs.last().count() == fs[0].count() + oks(rs),
            oks(rs) + fs[0].count() <= fs[0].n_buckets() * BUCKET_SIZE,
        decreases rs.len(),
    {
        if rs.len() > 0 {
            let m = rs.len() - 1;
            let fs2 = fs.drop_last();
            let rs2 = rs.drop_last();
            let fais2 = fais.drop_last();
            assert forall|j: int| 0 <= j < rs2.len() implies #[trigger] Self::adds(
                fs2[j],
                fs2[j + 1],
                fais2[j],
                rs2[j],
            ) by {
                assert(Self::adds(fs[j], fs[j + 1], fais[j], rs[j]));
            }
            Self::lemma_insertions_bounded(fs2, fais2, rs2);
            assert(Self::adds(fs[m], fs[m + 1], fais[m], rs[m]));
            assert(fs2.last() == fs[m]);
            lemma_total_le(fs.last().table());
        } else {
            lemma_total_le(fs[0].table());
        }
    }

    /// After an insertion that returned `Ok`, the item is found.
    pub proof fn lemma_add_then_contains(
        before: Self,
        after: Self,
        fai: (u8, usize, usize),
        r: Result<(), CuckooError>,
    )
        requires
            fai_valid(&before.hasher(), fai),
            Self::adds(before, after, fai, r),
            r is Ok,
        ensures
            after.contains_spec(fai),
    {
    }

    /// A successful insertion only adds its fingerprint: the stored
    /// fingerprints are the old ones plus the new one, and every record that
    /// was found before is still found. A failed one stores the new
    /// fingerprint and drops exactly one fingerprint.
    pub proof fn lemma_add_keeps_items(
        before: Self,
        after: Self,
        fai: (u8, usize, usize),
        r: Result<(), CuckooError>,
        g: (u8, usize, usize),
    )
        requires
            Self::adds(before, after, fai, r),
        ensures
            r is Ok ==> fps(after.table()) == fps(before.table()).insert(fai.0),
            r is Ok && g.0 != 0 && consistent(&before.hasher(), g) && before.contains_spec(g)
                ==> after.contains_spec(g),
            r is Err ==> exists|d: u8|
                d != 0 && fps(after.table()).insert(d) == fps(before.table()).insert(fai.0),
    {
    }

    /// After `add_slice(data)` returned `Ok`, `contains_slice(data)` is true.
    pub proof fn lemma_add_slice_then_contains(
        before: Self,
        after: Self,
        data: Seq<u8>,
        r: Result<(), CuckooError>,
    )
        requires
            Self::adds(before, after, slice_fai(&before.hasher(), data), r),
            r is Ok,
        ensures
            after.contains_spec(slice_fai(&after.hasher(), data)),
    {
    }

    /// When an item is still found after one copy of it was deleted, another
    /// slot of its candidate buckets held the same fingerprint beforehand: a
    /// collision, never a copy that the deletion missed.
    pub proof fn lemma_delete_then_contains(before: Self, after: Self, fai: (u8, usize, usize))
        requires
            before.wf(),
            fai.0 != 0,
            Self::deletes(before, after, fai, true),
            after.contains_spec(fai),
        ensures
            ({
                let t = before.table();
                let c1 = slot_of(fai.1, t.len());
                let c2 = slot_of(fai.2, t.len());
                let c = if t[c1].contains(fai.0) {
                    c1
                } else {
                    c2
                };
                exists|b: int, s: int|
                    (b == c1 || b == c2) && 0 <= s < t[b].len() && t[b][s] == fai.0 && !(b == c
                        && s == first_slot(t[c], fai.0))
            }),
    {
        let t = before.table();
        let u = after.table();
        let f = fai.0;
        let c1 = slot_of(fai.1, t.len());
        let c2 = slot_of(fai.2, t.len());
        let c = if t[c1].contains(f) {
            c1
        } else {
            c2
        };
        let j = first_slot(t[c], f);
        crate::bucket::lemma_first_slot_exists(t[c], f);
        assert(u == t.update(c, t[c].update(j, 0)));
        let b = if u[c1].contains(f) {
            c1
        } else {
            c2
        };
        let s = choose|s: int| 0 <= s < u[b].len() && u[b][s] == f;
        assert(t[b][s] == f);
    }

    /// After `clear`, nothing is counted and no fingerprint is found.
    pub proof fn lemma_clear_empties(before: Self, after: Self, fai: (u8, usize, usize))
        requires
            before.wf(),
            fai.0 != 0,
            Self::cleared(before, after),
        ensures
            after.count() == 0,
            !after.contains_spec(fai),
    {
        let t = after.table();
        let z = seq![0u8, 0u8, 0u8, 0u8];
        let c1 = slot_of(fai.1, t.len());
        let c2 = slot_of(fai.2, t.len());
        assert(t[c1] == z);
        assert(t[c2] == z);
        assert(!z.contains(fai.0));
    }

    /// Clearing twice leaves the filter as clearing once did.
    pub proof fn lemma_clear_idempotent(a: Self, b: Self, c: Self)
        requires
            a.wf(),
            Self::cleared(a, b),
            Self::cleared(b, c),
        ensures
            c == b,
    {
    }

    /// The count of a well-formed filter is at most the number of slots.
    pub proof fn lemma_len_bounded(f: Self)
        requires
            f.wf(),
        ensures
            f.count() <= f.n_buckets() * BUCKET_SIZE,
    {
        lemma_total_le(f.table());
    }

    /// An export can always be imported, and importing it gives back the
    /// same buckets and count under the same hash adapter, hence the same
    /// answers to every membership query.
    pub proof fn lemma_from_exported_round_trip(f: Self, values: Seq<u8>, length: usize, g: Self)
        requires
            f.wf(),
            values == flat(f.table()),
            length == f.count(),
            g.wf(),
            g.hasher() == f.hasher(),
            flat(g.table()) == values,
            g.count() == length,
        ensures
            values.len() % (BUCKET_SIZE as nat) == 0,
            is_pow2(#[verifier::truncate] ((values.len() / (BUCKET_SIZE as nat)) as usize)),
            length == occupied(values),
            g.count() == f.count(),
            g.table() == f.table(),
            forall|fai: (u8, usize, usize)| g.contains_spec(fai) == f.contains_spec(fai),
    {
        let t = f.table();
        let u = g.table();
        lemma_flat_len(t);
        lemma_flat_len(u);
        lemma_total_flat(t);
        assert(values.len() / (BUCKET_SIZE as nat) == t.len());
        assert forall|k: int| 0 <= k < t.len() implies u[k] == t[k] by {
            lemma_flat_chunk(t, k);
            lemma_flat_chunk(u, k);
        }
        assert(u =~= t);
    }

    /// Test-and-add twice: once the first call returned `Ok`, the second
    /// returns `Ok(false)` and changes nothing.
    pub proof fn lemma_test_and_add_twice(
        a: Self,
        b: Self,
        c: Self,
        fai: (u8, usize, usize),
        r1: Result<bool, CuckooError>,
        r2: Result<bool, CuckooError>,
    )
        requires
            fai_valid(&a.hasher(), fai),
            Self::tests_and_adds(a, b, fai, r1),
            r1 is Ok,
            Self::tests_and_adds(b, c, fai, r2),
        ensures
            r2 == Ok::<bool, CuckooError>(false),
            c == b,
    {
    }

    /// Test-and-add on a fingerprint that is absent, with room in its first
    /// candidate bucket, returns `Ok(true)`.
    pub proof fn lemma_test_and_add_fresh(
        a: Self,
        b: Self,
        fai: (u8, usize, usize),
        r: Result<bool, CuckooError>,
    )
        requires
            !a.contains_spec(fai),
            a.table()[slot_of(fai.1, a.n_buckets())].contains(0),
            Self::tests_and_adds(a, b, fai, r),
        ensures
            r == Ok::<bool, CuckooError>(true),
    {
    }

    /// A filter with a single bucket refuses a fifth item: once its four
    /// slots are taken, every insertion ends in `NotEnoughSpace`.
    pub proof fn lemma_single_bucket_saturates(
        before: Self,
        after: Self,
        fai: (u8, usize, usize),
        r: Result<(), CuckooError>,
    )
        requires
            before.n_buckets() == 1,
            before.count() == BUCKET_SIZE,
            Self::adds(before, after, fai, r),
        ensures
            r is Err,
            after.count() == before.count(),
    {
    }
}

impl CuckooFilter<BuildHasherStd> {
    /// Constructs a filter with the default capacity and std's hasher.
    pub fn new() -> (r: Self)
        ensures
            r.wf(),
            r.n_buckets() == buckets_for(DEFAULT_CAPACITY as nat),
            r.count() == 0,
            forall|k: int|
                0 <= k < r.n_buckets() ==> #[trigger] r.table()[k] == seq![0u8, 0u8, 0u8, 0u8],
    {
        Self::with_capacity(BuildHasherStd {  }, DEFAULT_CAPACITY)
    }
}

impl Default for CuckooFilter<BuildHasherStd> {
    fn default() -> (r: Self)
        ensures
            r.wf(),
            r.count() == 0,
    {
        Self::new()
    }
}

} // verus!
