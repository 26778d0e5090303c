use std::collections::hash_map::DefaultHasher;
use std::hash::{BuildHasher, BuildHasherDefault, Hash, Hasher};

use farmhash::FarmHasher;
use fnv::FnvHasher;
use vstd::prelude::*;
use xxhash_rust::xxh3::{xxh3_64, xxh3_64_with_secret, Xxh3};

verus! {

/// Size of the secret that keys an XXH3 hasher.
pub const XXH3_DEFAULT_SECRET_SIZE: usize = 192;

#[verifier::external_type_specification]
#[verifier::external_body]
pub struct ExXxh3(Xxh3);

#[verifier::external_type_specification]
#[verifier::external_body]
pub struct ExFnvHasher(FnvHasher);

#[verifier::external_type_specification]
#[verifier::external_body]
pub struct ExFarmHasher(FarmHasher);

/// What std's `DefaultHasher` (as made by `new`) gives for a byte slice.
pub uninterp spec fn std_slice_hash(x: Seq<u8>) -> u64;

/// What `xxh3_64` gives for a byte slice.
pub uninterp spec fn xxh3_slice_hash(x: Seq<u8>) -> u64;

/// What `xxh3_64_with_secret` gives for a byte slice under a secret.
pub uninterp spec fn xxh3_secret_slice_hash(x: Seq<u8>, secret: Seq<u8>) -> u64;

/// What a default `FnvHasher` gives for a byte slice.
pub uninterp spec fn fnv_slice_hash(x: Seq<u8>) -> u64;

/// What a default `FarmHasher` gives for a byte slice.
pub uninterp spec fn farm_slice_hash(x: Seq<u8>) -> u64;

/// Relies on std's `Hash::hash`: feeds `data` into `state`.
#[verifier::external_body]
fn feed<T: ?Sized + Hash, S: Hasher>(data: &T, state: &mut S) {
    data.hash(state)
}

/// Relies on std's `Hasher::finish`: the hash of what was fed so far.
#[verifier::external_body]
fn finish<S: Hasher>(state: &S) -> u64 {
    state.finish()
}

/// Relies on std's `BuildHasher::hash_one` over `DefaultHasher::new`, whose
/// keys are fixed, so equal slices hash alike.
#[verifier::external_body]
fn std_hash_slice(x: &[u8]) -> (r: u64)
    ensures
        r == std_slice_hash(x@),
{
    BuildHasherDefault::<DefaultHasher>::default().hash_one(x)
}

/// Relies on xxhash_rust's `xxh3_64`: a function of the bytes alone.
#[verifier::external_body]
fn xxh3_hash_slice(x: &[u8]) -> (r: u64)
    ensures
        r == xxh3_slice_hash(x@),
{
    xxh3_64(x)
}

/// Relies on xxhash_rust's `xxh3_64_with_secret`: a function of the bytes and
/// the secret; it panics only on a secret under 136 bytes.
#[verifier::external_body]
fn xxh3_secret_hash_slice(x: &[u8], secret: &[u8; XXH3_DEFAULT_SECRET_SIZE]) -> (r: u64)
    ensures
        r == xxh3_secret_slice_hash(x@, secret@),
{
    xxh3_64_with_secret(x, secret)
}

/// Relies on std's `BuildHasher::hash_one` over fnv's `FnvHasher::default`,
/// which starts from a fixed offset basis.
#[verifier::external_body]
fn fnv_hash_slice(x: &[u8]) -> (r: u64)
    ensures
        r == fnv_slice_hash(x@),
{
    BuildHasherDefault::<FnvHasher>::default().hash_one(x)
}

/// Relies on std's `BuildHasher::hash_one` over farmhash's `FarmHasher::default`,
/// which hashes the collected bytes with `hash64`.
#[verifier::external_body]
fn farm_hash_slice(x: &[u8]) -> (r: u64)
    ensures
        r == farm_slice_hash(x@),
{
    BuildHasherDefault::<FarmHasher>::default().hash_one(x)
}

/// Relies on xxhash_rust's `Xxh3::with_secret`: a fresh streaming hasher.
#[verifier::external_body]
fn xxh3_with_secret(secret: [u8; XXH3_DEFAULT_SECRET_SIZE]) -> Xxh3 {
    Xxh3::with_secret(secret)
}

/// Relies on xxhash_rust's `Xxh3::new`: a fresh streaming hasher with the default secret.
#[verifier::external_body]
fn xxh3_new() -> Xxh3 {
    Xxh3::new()
}

/// Relies on fnv's `FnvHasher::default`: a fresh hasher.
#[verifier::external_body]
fn fnv_new() -> FnvHasher {
    FnvHasher::default()
}

/// Relies on farmhash's `FarmHasher::default`: a fresh hasher.
#[verifier::external_body]
fn farm_new() -> FarmHasher {
    FarmHasher::default()
}

/// A streaming hasher that a filter can use for arbitrary hashable values.
pub trait CuckooHasher: Hasher {
}

/// The hashing capability a filter is parameterised over: a streaming hasher
/// for hashable values and a one-shot hash for byte slices.
pub trait CuckooBuildHasher: Sized {
    /// Type of the hasher that will be created.
    type Hasher: CuckooHasher;

    /// The hash that `hash_slice` gives for the bytes `x`.
    spec fn slice_hash(&self, x: Seq<u8>) -> u64;

    /// Creates a new hasher; every call on one instance gives an identical hasher.
    fn build_hasher(&self) -> Self::Hasher;

    /// Hashes a single value with a fresh hasher.
    fn hash_one<T: ?Sized + Hash>(&self, x: &T) -> u64 {
        let mut hasher = self.build_hasher();
        feed(x, &mut hasher);
        finish(&hasher)
    }

    /// Hashes a byte slice; equal slices give equal hashes.
    fn hash_slice(&self, x: &[u8]) -> (r: u64)
        ensures
            r == self.slice_hash(x@),
    ;
}

impl CuckooHasher for DefaultHasher {
}

impl CuckooHasher for Xxh3 {
}

impl CuckooHasher for FnvHasher {
}

impl CuckooHasher for FarmHasher {
}

/// Hashing with std's `DefaultHasher`.
#[derive(Default)]
pub struct BuildHasherStd {}

impl CuckooBuildHasher for BuildHasherStd {
    type Hasher = DefaultHasher;

    open spec fn slice_hash(&self, x: Seq<u8>) -> u64 {
        std_slice_hash(x)
    }

    fn build_hasher(&self) -> Self::Hasher {
        DefaultHasher::new()
    }

    fn hash_slice(&self, x: &[u8]) -> (r: u64) {
        std_hash_slice(x)
    }
}

/// Hashing with XXH3 under a secret of the caller's choice.
pub struct BuildHasherXxh3 {
    pub secret: [u8; XXH3_DEFAULT_SECRET_SIZE],
}

impl BuildHasherXxh3 {
    pub fn with_secret(secret: [u8; XXH3_DEFAULT_SECRET_SIZE]) -> (r: Self)
        ensures
            r.secret@ == secret@,
    {
        Self { secret }
    }
}

impl CuckooBuildHasher for BuildHasherXxh3 {
    type Hasher = Xxh3;

    open spec fn slice_hash(&self, x: Seq<u8>) -> u64 {
        xxh3_secret_slice_hash(x, self.secret@)
    }

    fn build_hasher(&self) -> Self::Hasher {
        xxh3_with_secret(self.secret)
    }

    fn hash_slice(&self, x: &[u8]) -> (r: u64) {
        xxh3_secret_hash_slice(x, &self.secret)
    }
}

/// Hashing with XXH3 under its default secret.
#[derive(Default)]
pub struct DefaultBuildHasherXxh3 {}

impl CuckooBuildHasher for DefaultBuildHasherXxh3 {
    type Hasher = Xxh3;

    open spec fn slice_hash(&self, x: Seq<u8>) -> u64 {
        xxh3_slice_hash(x)
    }

    fn build_hasher(&self) -> Self::Hasher {
        xxh3_new()
    }

    fn hash_slice(&self, x: &[u8]) -> (r: u64) {
        xxh3_hash_slice(x)
    }
}

/// Hashing with FarmHash.
#[derive(Default)]
pub struct BuildHasherFarmhash {}

impl CuckooBuildHasher for BuildHasherFarmhash {
    type Hasher = FarmHasher;

    open spec fn slice_hash(&self, x: Seq<u8>) -> u64 {
        farm_slice_hash(x)
    }

    fn build_hasher(&self) -> Self::Hasher {
        farm_new()
    }

    fn hash_slice(&self, x: &[u8]) -> (r: u64) {
        farm_hash_slice(x)
    }
}

/// Hashing with FNV-1a.
#[derive(Default)]
pub struct BuildHasherFnv {}

impl CuckooBuildHasher for BuildHasherFnv {
    type Hasher = FnvHasher;

    open spec fn slice_hash(&self, x: Seq<u8>) -> u64 {
        fnv_slice_hash(x)
    }

    fn build_hasher(&self) -> Self::Hasher {
        fnv_new()
    }

    fn hash_slice(&self, x: &[u8]) -> (r: u64) {
        fnv_hash_slice(x)
    }
}

} // verus!
