use std::hash::Hash;

use byteorder::{BigEndian, ByteOrder};
use vstd::prelude::*;

use crate::bucket::{Fingerprint, FINGERPRINT_SIZE};
use crate::hashes::CuckooBuildHasher;

verus! {

/// The big-endian bytes of `n`, most significant first.
pub open spec fn be_bytes(n: u32) -> Seq<u8> {
    seq![
        #[verifier::truncate]
        ((n >> 24) as u8),
        #[verifier::truncate]
        ((n >> 16) as u8),
        #[verifier::truncate]
        ((n >> 8) as u8),
        #[verifier::truncate]
        (n as u8),
    ]
}

/// The upper and lower halves of a 64-bit hash.
pub open spec fn split_hash(h: u64) -> (u32, u32) {
    (#[verifier::truncate] ((h >> 32) as u32), #[verifier::truncate] (h as u32))
}

/// The fingerprint byte derived from the upper half of a hash: its top byte,
/// moved off the empty pattern when it is zero.
pub open spec fn fp_of_hash(fp_hash: u32) -> u8 {
    let top = #[verifier::truncate] ((fp_hash >> 24) as u8);
    if top == 0 {
        1
    } else {
        top
    }
}

/// The alternate bucket index of index `i` for fingerprint byte `fp`.
pub open spec fn alt_index<H: CuckooBuildHasher>(h: &H, fp: u8, i: usize) -> usize {
    i ^ (split_hash(h.slice_hash(seq![fp])).1 as usize)
}

/// Fingerprint and the two indexes derived from the two halves of a hash.
pub open spec fn fai_of_hash<H: CuckooBuildHasher>(h: &H, fp_hash: u32, index_hash: u32) -> (
    u8,
    usize,
    usize,
) {
    let fp = fp_of_hash(fp_hash);
    (fp, index_hash as usize, alt_index(h, fp, index_hash as usize))
}

/// Fingerprint and indexes of a byte slice.
pub open spec fn slice_fai<H: CuckooBuildHasher>(h: &H, data: Seq<u8>) -> (u8, usize, usize) {
    let (fp_hash, index_hash) = split_hash(h.slice_hash(data));
    fai_of_hash(h, fp_hash, index_hash)
}

/// Whether `fai` is the fingerprint and indexes of some hash under `h`.
pub open spec fn fai_valid<H: CuckooBuildHasher>(h: &H, fai: (u8, usize, usize)) -> bool {
    exists|fp_hash: u32, index_hash: u32| fai == fai_of_hash(h, fp_hash, index_hash)
}

/// Relies on byteorder's `BigEndian::write_u32`: writes `n` most significant
/// byte first into a four-byte buffer.
#[verifier::external_body]
fn u32_to_be(n: u32) -> (r: [u8; 4])
    ensures
        r@ == be_bytes(n),
{
    let mut buf = [0u8; 4];
    BigEndian::write_u32(&mut buf, n);
    buf
}

/// A fingerprint together with the two candidate bucket indexes of an item.
#[derive(Clone, Copy)]
pub struct FaI {
    pub fp: Fingerprint,
    pub i1: usize,
    pub i2: usize,
}

impl View for FaI {
    type V = (u8, usize, usize);

    open spec fn view(&self) -> (u8, usize, usize) {
        (self.fp@, self.i1, self.i2)
    }
}

fn get_hash<T: ?Sized + Hash, H: CuckooBuildHasher>(hash_builder: &H, data: &T) -> (u32, u32) {
    let result = hash_builder.hash_one(data);
    ((result >> 32) as u32, result as u32)
}

fn get_slice_hash<H: CuckooBuildHasher>(hash_builder: &H, data: &[u8]) -> (r: (u32, u32))
    ensures
        r == split_hash(hash_builder.slice_hash(data@)),
{
    let result = hash_builder.hash_slice(data);
    ((result >> 32) as u32, result as u32)
}

/// The other candidate index of a fingerprint that sits at index `i`.
pub fn get_alt_index<H: CuckooBuildHasher>(hash_builder: &H, fp: Fingerprint, i: usize) -> (r:
    usize)
    ensures
        r == alt_index(hash_builder, fp@, i),
{
    let data = fp.data;
    let slice: &[u8] = &data;
    proof {
        assert(data@ =~= seq![fp@]);
    }
    let (_, index_hash) = get_slice_hash(hash_builder, slice);
    i ^ (index_hash as usize)
}

impl FaI {
    /// Derives the fingerprint and both indexes from the two halves of a hash.
    pub fn from_hash<H: CuckooBuildHasher>(hash_builder: &H, fp_hash: u32, index_hash: u32) -> (r:
        Self)
        ensures
            r@ == fai_of_hash(hash_builder, fp_hash, index_hash),
            r.fp@ != 0,
    {
        let bytes = u32_to_be(fp_hash);
        let mut fp_hash_arr: [u8; FINGERPRINT_SIZE] = [0; FINGERPRINT_SIZE];
        fp_hash_arr[0] = bytes[0];
        let mut valid_fp_hash: [u8; FINGERPRINT_SIZE] = [0; FINGERPRINT_SIZE];
        let mut n: u8 = 0;
        let fp: Fingerprint;
        // add one to every byte until the bytes form a valid fingerprint
        loop
            invariant
                fp_hash_arr@[0] == be_bytes(fp_hash)[0],
                n <= 1,
                n == 1 ==> fp_hash_arr@[0] == 0,
            ensures
                fp@ == fp_of_hash(fp_hash),
            decreases 2 - n,
        {
            let mut i: usize = 0;
            while i < FINGERPRINT_SIZE
                invariant
                    i <= FINGERPRINT_SIZE,
                    n <= 1,
                    n == 1 ==> fp_hash_arr@[0] == 0,
                    i == 1 ==> valid_fp_hash@[0] == fp_hash_arr@[0] + n,
                decreases FINGERPRINT_SIZE - i,
            {
                valid_fp_hash[i] = fp_hash_arr[i] + n;
                i = i + 1;
            }
            if let Some(val) = Fingerprint::from_data(valid_fp_hash) {
                fp = val;
                break;
            }
            n = n + 1;
        }
        let i1 = index_hash as usize;
        let i2 = get_alt_index(hash_builder, fp, i1);
        Self { fp, i1, i2 }
    }

    fn from_data<T: ?Sized + Hash, H: CuckooBuildHasher>(hash_builder: &H, data: &T) -> (r: Self)
        ensures
            fai_valid(hash_builder, r@),
            r.fp@ != 0,
    {
        let (fp_hash, index_hash) = get_hash(hash_builder, data);
        Self::from_hash(hash_builder, fp_hash, index_hash)
    }

    fn from_slice<H: CuckooBuildHasher>(hash_builder: &H, data: &[u8]) -> (r: Self)
        ensures
            r@ == slice_fai(hash_builder, data@),
            r.fp@ != 0,
    {
        let (fp_hash, index_hash) = get_slice_hash(hash_builder, data);
        Self::from_hash(hash_builder, fp_hash, index_hash)
    }

    /// One of the two candidate indexes: the first when `pick_first` holds.
    pub fn random_index(&self, pick_first: bool) -> (r: usize)
        ensures
            r == if pick_first {
                self.i1
            } else {
                self.i2
            },
    {
        if pick_first {
            self.i1
        } else {
            self.i2
        }
    }
}

/// Fingerprint and indexes of a hashable value.
pub fn get_fai<T: ?Sized + Hash, H: CuckooBuildHasher>(hash_builder: &H, data: &T) -> (r: FaI)
    ensures
        fai_valid(hash_builder, r@),
{
    FaI::from_data(hash_builder, data)
}

/// Fingerprint and indexes of a byte slice.
pub fn get_slice_fai<H: CuckooBuildHasher>(hash_builder: &H, data: &[u8]) -> (r: FaI)
    ensures
        r@ == slice_fai(hash_builder, data@),
{
    FaI::from_slice(hash_builder, data)
}

} // verus!
