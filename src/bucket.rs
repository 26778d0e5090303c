use vstd::prelude::*;

verus! {

/// Number of bytes in a fingerprint.
pub const FINGERPRINT_SIZE: usize = 1;

/// Number of fingerprint slots in a bucket.
pub const BUCKET_SIZE: usize = 4;

/// The byte that marks a slot as empty.
pub const EMPTY_FINGERPRINT_DATA: u8 = 0;

/// A short tag derived from an item's hash; the all-zero pattern is reserved
/// for empty slots.
#[derive(Clone, Copy)]
pub struct Fingerprint {
    pub data: [u8; FINGERPRINT_SIZE],
}

impl View for Fingerprint {
    type V = u8;

    open spec fn view(&self) -> u8 {
        self.data@[0]
    }
}

impl Fingerprint {
    /// Builds a fingerprint from raw bytes; `None` when they form the empty pattern.
    pub fn from_data(data: [u8; FINGERPRINT_SIZE]) -> (r: Option<Fingerprint>)
        ensures
            data@[0] == 0 <==> r is None,
            r matches Some(fp) ==> fp@ == data@[0],
    {
        if data[0] == EMPTY_FINGERPRINT_DATA {
            None
        } else {
            Some(Fingerprint { data })
        }
    }

    /// The empty fingerprint, used to mark free slots.
    pub fn empty() -> (r: Fingerprint)
        ensures
            r@ == 0,
    {
        Fingerprint { data: [EMPTY_FINGERPRINT_DATA; FINGERPRINT_SIZE] }
    }

    /// Whether this is the empty pattern.
    pub fn is_empty(&self) -> (r: bool)
        ensures
            r == (self@ == 0),
    {
        self.data[0] == EMPTY_FINGERPRINT_DATA
    }

    /// The raw bytes of the fingerprint.
    pub fn data(&self) -> (r: [u8; FINGERPRINT_SIZE])
        ensures
            r@ == self.data@,
    {
        self.data
    }
}

/// Whether `i` is the first slot of `b` that holds `v`.
pub open spec fn is_first_slot(b: Seq<u8>, v: u8, i: int) -> bool {
    &&& 0 <= i < b.len()
    &&& b[i] == v
    &&& forall|j: int| 0 <= j < i ==> b[j] != v
}

/// The first slot of `b` that holds `v`, where there is one.
pub open spec fn first_slot(b: Seq<u8>, v: u8) -> int {
    choose|i: int| is_first_slot(b, v, i)
}

/// `b` with `v` put into its first empty slot.
pub open spec fn place_first(b: Seq<u8>, v: u8) -> Seq<u8> {
    b.update(first_slot(b, 0), v)
}

/// `b` with its first slot that holds `v` emptied.
pub open spec fn clear_first(b: Seq<u8>, v: u8) -> Seq<u8> {
    b.update(first_slot(b, v), 0)
}

pub proof fn lemma_first_slot(b: Seq<u8>, v: u8, i: int)
    requires
        is_first_slot(b, v, i),
    ensures
        first_slot(b, v) == i,
{
    let j = first_slot(b, v);
    assert(is_first_slot(b, v, j));
    if j < i {
        assert(b[j] != v);
    } else if i < j {
        assert(b[i] != v);
    }
}

/// A value that occurs in `b` has a first slot.
pub proof fn lemma_first_slot_exists(b: Seq<u8>, v: u8)
    requires
        b.contains(v),
    ensures
        is_first_slot(b, v, first_slot(b, v)),
    decreases b.len(),
{
    let d = b.drop_last();
    if d.contains(v) {
        lemma_first_slot_exists(d, v);
        let i = first_slot(d, v);
        assert forall|j: int| 0 <= j < i implies b[j] != v by {
            assert(b[j] == d[j]);
        }
        assert(is_first_slot(b, v, i));
    } else {
        let i = b.len() - 1;
        assert forall|j: int| 0 <= j < i implies b[j] != v by {
            assert(b[j] == d[j]);
        }
        let w = choose|w: int| 0 <= w < b.len() && b[w] == v;
        if w < i {
            assert(d[w] == v);
        }
        assert(is_first_slot(b, v, i));
    }
}

/// Number of occupied (non-zero) slots of a bucket's bytes.
pub open spec fn occupied(b: Seq<u8>) -> nat
    decreases b.len(),
{
    if b.len() == 0 {
        0
    } else {
        occupied(b.drop_last()) + if b.last() != 0 {
            1nat
        } else {
            0nat
        }
    }
}

/// A fixed group of fingerprint slots.
#[derive(Clone, Copy)]
pub struct Bucket {
    pub buffer: [Fingerprint; BUCKET_SIZE],
}

impl View for Bucket {
    type V = Seq<u8>;

    open spec fn view(&self) -> Seq<u8> {
        self.buffer@.map_values(|fp: Fingerprint| fp@)
    }
}

impl Bucket {
    /// A bucket with every slot empty.
    pub fn new() -> (r: Bucket)
        ensures
            r@ == seq![0u8, 0u8, 0u8, 0u8],
    {
        let b = Bucket { buffer: [Fingerprint::empty(); BUCKET_SIZE] };
        assert(b@ =~= seq![0u8, 0u8, 0u8, 0u8]);
        b
    }

    /// Puts `fp` into the first empty slot; false when every slot is taken.
    pub fn insert(&mut self, fp: Fingerprint) -> (r: bool)
        ensures
            r == old(self)@.contains(0),
            r ==> is_first_slot(old(self)@, 0, first_slot(old(self)@, 0)),
            r ==> final(self)@ == place_first(old(self)@, fp@),
            !r ==> final(self)@ == old(self)@,
    {
        let mut i: usize = 0;
        while i < BUCKET_SIZE
            invariant
                i <= BUCKET_SIZE,
                self@ == old(self)@,
                forall|j: int| 0 <= j < i ==> self@[j] != 0,
            decreases BUCKET_SIZE - i,
        {
            if self.buffer[i].is_empty() {
                let ghost before = self@;
                self.buffer[i] = fp;
                assert(self@ =~= before.update(i as int, fp@));
                assert(is_first_slot(before, 0, i as int));
                proof {
                    lemma_first_slot(before, 0, i as int);
                }
                return true;
            }
            i = i + 1;
        }
        assert(!old(self)@.contains(0));
        false
    }

    /// Index of the first slot that holds `fp`.
    pub fn get_fingerprint_index(&self, fp: Fingerprint) -> (r: Option<usize>)
        ensures
            r is None <==> !self@.contains(fp@),
            r matches Some(i) ==> is_first_slot(self@, fp@, i as int) && i == first_slot(
                self@,
                fp@,
            ),
    {
        let mut i: usize = 0;
        while i < BUCKET_SIZE
            invariant
                i <= BUCKET_SIZE,
                forall|j: int| 0 <= j < i ==> self@[j] != fp@,
            decreases BUCKET_SIZE - i,
        {
            if self.buffer[i].data[0] == fp.data[0] {
                assert(self@[i as int] == fp@);
                proof {
                    lemma_first_slot(self@, fp@, i as int);
                }
                return Some(i);
            }
            i = i + 1;
        }
        None
    }

    /// Whether some slot holds `fp`.
    pub fn contains(&self, fp: Fingerprint) -> (r: bool)
        ensures
            r == self@.contains(fp@),
    {
        self.get_fingerprint_index(fp).is_some()
    }

    /// Empties the first slot that holds `fp`; false when none does.
    pub fn delete(&mut self, fp: Fingerprint) -> (r: bool)
        ensures
            r == old(self)@.contains(fp@),
            r ==> is_first_slot(old(self)@, fp@, first_slot(old(self)@, fp@)),
            r ==> final(self)@ == clear_first(old(self)@, fp@),
            !r ==> final(self)@ == old(self)@,
    {
        match self.get_fingerprint_index(fp) {
            Some(i) => {
                let ghost before = self@;
                self.buffer[i] = Fingerprint::empty();
                assert(self@ =~= before.update(i as int, 0));
                true
            },
            None => false,
        }
    }

    /// Puts `fp` into slot `i` and hands back what the slot held.
    pub fn swap(&mut self, i: usize, fp: Fingerprint) -> (r: Fingerprint)
        requires
            i < BUCKET_SIZE,
        ensures
            r@ == old(self)@[i as int],
            final(self)@ == old(self)@.update(i as int, fp@),
    {
        let ghost before = self@;
        let prev = self.buffer[i];
        self.buffer[i] = fp;
        assert(self@ =~= before.update(i as int, fp@));
        prev
    }

    /// Empties every slot.
    pub fn clear(&mut self)
        ensures
            final(self)@ == seq![0u8, 0u8, 0u8, 0u8],
    {
        *self = Bucket::new();
    }

    /// The slots' bytes, in slot order.
    pub fn get_fingerprint_data(&self) -> (r: Vec<u8>)
        ensures
            r@ == self@,
    {
        let mut out: Vec<u8> = Vec::new();
        let mut i: usize = 0;
        while i < BUCKET_SIZE
            invariant
                i <= BUCKET_SIZE,
                out@ == self@.subrange(0, i as int),
            decreases BUCKET_SIZE - i,
        {
            out.push(self.buffer[i].data[0]);
            i = i + 1;
            assert(out@ =~= self@.subrange(0, i as int));
        }
        assert(self@.subrange(0, BUCKET_SIZE as int) =~= self@);
        out
    }

    /// Rebuilds a bucket from the bytes of its slots.
    pub fn from(chunk: &[u8]) -> (r: Bucket)
        requires
            chunk@.len() == BUCKET_SIZE * FINGERPRINT_SIZE,
        ensures
            r@ == chunk@,
    {
        let mut b = Bucket::new();
        let mut i: usize = 0;
        while i < BUCKET_SIZE
            invariant
                i <= BUCKET_SIZE,
                chunk@.len() == BUCKET_SIZE,
                b@.len() == BUCKET_SIZE,
                forall|j: int| 0 <= j < i ==> b@[j] == chunk@[j],
            decreases BUCKET_SIZE - i,
        {
            b.buffer[i] = Fingerprint { data: [chunk[i]] };
            i = i + 1;
        }
        assert(b@ =~= chunk@);
        b
    }
}

} // verus!
