use std::collections::hash_map::DefaultHasher;
use std::hash::{BuildHasher, BuildHasherDefault};

use xx_cuckoofilter::{
    get_alt_index, get_fai, get_slice_fai, BuildHasherFarmhash, BuildHasherFnv, BuildHasherStd,
    BuildHasherXxh3, CuckooBuildHasher, CuckooError, CuckooFilter, DefaultBuildHasherXxh3,
    ExportedCuckooFilter, FaI, Fingerprint, BUCKET_SIZE, DEFAULT_CAPACITY, MAX_REBUCKET,
    XXH3_DEFAULT_SECRET_SIZE,
};

#[test]
fn test_fp_and_index() {
    let build_hasher = BuildHasherStd::default();
    let data = "seif";
    let fai = get_fai(&build_hasher, data);
    let FaI { fp, i1, i2 } = fai;
    let i11 = get_alt_index(&build_hasher, fp, i2);
    assert_eq!(i11, i1);

    let i22 = get_alt_index(&build_hasher, fp, i11);
    assert_eq!(i22, i2);
}

#[test]
fn fingerprints() {
    let total_items = 1_000_000;

    let mut filter1 = CuckooFilter::with_capacity(BuildHasherStd::default(), total_items);
    let mut filter2 = CuckooFilter::with_capacity(BuildHasherStd::default(), total_items);
    filter1.add(&1).unwrap();
    filter1.add(&2).unwrap();
    filter2.add(&1).unwrap();
    filter2.add(&2).unwrap();
    filter2.add(&3).unwrap();

    let fp1 = filter1.fingerprint(&1);
    let fp2 = filter1.fingerprint(&2);
    let fp3 = filter1.fingerprint(&3);

    assert!(filter1.contains_fingerprint(&fp1));
    assert!(filter1.contains_fingerprint(&fp2));
    assert!(filter2.contains_fingerprint(&fp1));
    assert!(filter2.contains_fingerprint(&fp2));
    assert!(!filter1.contains_fingerprint(&fp3));
    assert!(filter2.contains_fingerprint(&fp3));

    filter1.add_fingerprint(&fp3).unwrap();

    assert!(filter1.contains(&3));
    assert!(filter2.contains_fingerprint(&fp3));

    filter1.delete_fingerprint(&fp1);
    filter2.delete_fingerprint(&fp1);

    assert!(!filter1.contains(&1));
    assert!(!filter2.contains(&1));
}

fn words() -> Vec<&'static str> {
    vec!["foo", "bar", "xylophone", "milagro"]
}

fn filled_with_words() -> CuckooFilter<BuildHasherStd> {
    let mut cf = CuckooFilter::new();
    for w in words() {
        cf.add(w).unwrap();
    }
    cf
}

#[test]
fn basic_membership() {
    let cf = filled_with_words();
    assert_eq!(cf.len(), 4);
    assert!(!cf.is_empty());
    for w in words() {
        assert!(cf.contains(w));
    }
    // a false positive is possible but very unlikely in a filter this large
    let unseen: Vec<String> = (0..100).map(|i| format!("unseen-{}", i)).collect();
    let hits = unseen.iter().filter(|s| cf.contains(s.as_str())).count();
    assert!(hits <= 2);
}

#[test]
fn duplicate_accounting() {
    let mut cf = filled_with_words();
    cf.add("foo").unwrap();
    assert_eq!(cf.len(), 5);
    assert!(cf.delete("foo"));
    assert_eq!(cf.len(), 4);
    assert!(cf.contains("foo"));
    assert!(cf.delete("foo"));
    assert_eq!(cf.len(), 3);
    assert!(!cf.contains("foo"));
    assert!(!cf.delete("foo"));
    assert_eq!(cf.len(), 3);
}

#[test]
fn clear_idempotence() {
    let mut cf = filled_with_words();
    cf.clear();
    assert_eq!(cf.len(), 0);
    assert!(cf.is_empty());
    for w in words() {
        assert!(!cf.contains(w));
    }
    let (_, first) = cf.export();
    cf.clear();
    assert_eq!(cf.len(), 0);
    assert!(cf.is_empty());
    let (_, second) = cf.export();
    assert_eq!(first.values, second.values);
    assert!(first.values.iter().all(|b| *b == 0));
}

#[test]
fn export_round_trip() {
    let mut cf = CuckooFilter::with_capacity(DefaultBuildHasherXxh3::default(), 20_000);
    let keys: Vec<Vec<u8>> = (0..10_000u32).map(|i| i.to_le_bytes().to_vec()).collect();
    for k in &keys {
        cf.add_slice(k).unwrap();
    }
    assert_eq!(cf.len(), 10_000);
    let (_, exported) = cf.export();
    let n_values = exported.values.len();
    assert_eq!(n_values % BUCKET_SIZE, 0);
    assert_eq!(exported.length, 10_000);
    assert_eq!(exported.values.iter().filter(|b| **b != 0).count(), 10_000);
    let rebuilt = CuckooFilter::from_exported(DefaultBuildHasherXxh3::default(), exported);
    assert_eq!(rebuilt.len(), cf.len());
    for k in &keys {
        assert!(rebuilt.contains_slice(k));
    }
    let (_, again) = rebuilt.into_exported();
    assert_eq!(again.values.len(), n_values);
    assert_eq!(again.length, 10_000);
}

#[test]
fn saturation() {
    let mut cf = CuckooFilter::with_capacity(BuildHasherStd::default(), 8);
    let (_, e) = cf.export();
    assert_eq!(e.values.len(), 8);
    let mut failures = 0;
    for i in 0..64u64 {
        if cf.add(&i) == Err(CuckooError::NotEnoughSpace) {
            failures += 1;
        }
        assert!(cf.len() <= 8);
    }
    assert!(failures >= 1);
    assert!(cf.len() <= 8);
    assert_eq!(cf.len(), 8);
    let _ = cf.contains(&3u64);
}

#[test]
fn capacity_one_is_one_bucket() {
    let mut cf = CuckooFilter::with_capacity(BuildHasherStd::default(), 1);
    let (_, e) = cf.export();
    assert_eq!(e.values, vec![0u8, 0, 0, 0]);
    for i in 0..4u64 {
        assert_eq!(cf.add(&i), Ok(()));
    }
    assert_eq!(cf.add(&4u64), Err(CuckooError::NotEnoughSpace));
    assert_eq!(cf.len(), 4);
}

#[test]
fn capacity_zero_is_one_bucket() {
    let cf = CuckooFilter::with_capacity(BuildHasherStd::default(), 0);
    let (_, e) = cf.export();
    assert_eq!(e.values.len(), 4);
    assert!(cf.is_empty());
}

#[test]
fn capacity_rounds_to_power_of_two() {
    let cf = CuckooFilter::with_capacity(BuildHasherStd::default(), 100);
    let (_, e) = cf.export();
    assert_eq!(e.values.len(), 128);
    let cf = CuckooFilter::new();
    let (_, e) = cf.export();
    assert_eq!(e.values.len(), DEFAULT_CAPACITY + 1);
}

#[test]
fn duplicate_inserts() {
    let mut cf = CuckooFilter::with_capacity(BuildHasherStd::default(), 1 << 16);
    for _ in 0..5 {
        assert_eq!(cf.add("same"), Ok(()));
    }
    assert_eq!(cf.len(), 5);
    assert!(cf.contains("same"));
}

#[test]
fn test_and_add_twice() {
    let mut cf = CuckooFilter::with_capacity(BuildHasherStd::default(), 1024);
    assert_eq!(cf.test_and_add("x"), Ok(true));
    assert_eq!(cf.test_and_add("x"), Ok(false));
    assert_eq!(cf.len(), 1);
    assert_eq!(cf.test_and_add_slice(b"y"), Ok(true));
    assert_eq!(cf.test_and_add_slice(b"y"), Ok(false));
    assert_eq!(cf.len(), 2);
}

#[test]
fn slice_operations() {
    let mut cf = CuckooFilter::with_capacity(BuildHasherStd::default(), 1024);
    assert!(!cf.contains_slice(b"abc"));
    cf.add_slice(b"abc").unwrap();
    assert!(cf.contains_slice(b"abc"));
    let fai = cf.fingerprint_slice(b"abc");
    assert!(cf.contains_fingerprint(&fai));
    assert!(cf.delete_slice(b"abc"));
    assert!(!cf.contains_slice(b"abc"));
    assert!(!cf.delete_slice(b"abc"));
    assert!(cf.is_empty());
}

#[test]
fn first_insert_goes_to_first_bucket_slot() {
    let mut cf = CuckooFilter::with_capacity(BuildHasherStd::default(), 16);
    let fai = cf.fingerprint_slice(b"k");
    cf.add_fingerprint(&fai).unwrap();
    let (_, e) = cf.export();
    let b = (fai.i1 % 4) * BUCKET_SIZE;
    assert_eq!(e.values[b], fai.fp.data[0]);
    assert_eq!(e.values.iter().filter(|v| **v != 0).count(), 1);
    assert_eq!(e.length, 1);
}

#[test]
fn fingerprint_from_hash_values() {
    let h = BuildHasherStd::default();
    let a = FaI::from_hash(&h, 0xab12_3456, 7);
    assert_eq!(a.fp.data, [0xab]);
    assert_eq!(a.i1, 7);
    let expected = 7 ^ (h.hash_slice(&[0xab]) as u32 as usize);
    assert_eq!(a.i2, expected);
    let z = FaI::from_hash(&h, 0x00ff_ffff, 9);
    assert_eq!(z.fp.data, [1]);
    assert_eq!(z.i1, 9);
}

#[test]
fn fingerprint_validity() {
    assert!(Fingerprint::from_data([0]).is_none());
    let fp = Fingerprint::from_data([5]).unwrap();
    assert_eq!(fp.data(), [5]);
    assert!(!fp.is_empty());
    assert!(Fingerprint::empty().is_empty());
    for i in 0..2000u32 {
        let fai = get_slice_fai(&BuildHasherStd::default(), &i.to_be_bytes());
        assert_ne!(fai.fp.data[0], 0);
    }
}

#[test]
fn random_index_picks_candidate() {
    let fai = get_slice_fai(&BuildHasherStd::default(), b"q");
    assert_eq!(fai.random_index(true), fai.i1);
    assert_eq!(fai.random_index(false), fai.i2);
}

#[test]
fn hash_adapters_match_their_crates() {
    let data: &[u8] = b"cuckoo";
    assert_eq!(
        BuildHasherStd::default().hash_slice(data),
        BuildHasherDefault::<DefaultHasher>::default().hash_one(data)
    );
    assert_eq!(DefaultBuildHasherXxh3::default().hash_slice(data), xxhash_rust::xxh3::xxh3_64(data));
    assert_eq!(DefaultBuildHasherXxh3::default().hash_slice(b""), 0x2D06_8005_38D3_94C2);
    let secret = [7u8; XXH3_DEFAULT_SECRET_SIZE];
    assert_eq!(
        BuildHasherXxh3::with_secret(secret).hash_slice(data),
        xxhash_rust::xxh3::xxh3_64_with_secret(data, &secret)
    );
    assert_eq!(
        BuildHasherFnv::default().hash_slice(data),
        BuildHasherDefault::<fnv::FnvHasher>::default().hash_one(data)
    );
    assert_eq!(
        BuildHasherFarmhash::default().hash_slice(data),
        BuildHasherDefault::<farmhash::FarmHasher>::default().hash_one(data)
    );
    assert_ne!(BuildHasherFnv::default().hash_slice(data), BuildHasherFnv::default().hash_slice(b"other"));
}

#[test]
fn every_adapter_finds_what_it_added() {
    let mut a = CuckooFilter::with_capacity(BuildHasherXxh3::with_secret([3u8; XXH3_DEFAULT_SECRET_SIZE]), 256);
    let mut b = CuckooFilter::with_capacity(BuildHasherFnv::default(), 256);
    let mut c = CuckooFilter::with_capacity(BuildHasherFarmhash::default(), 256);
    for i in 0..50u32 {
        a.add(&i).unwrap();
        b.add(&i).unwrap();
        c.add_slice(&i.to_le_bytes()).unwrap();
    }
    for i in 0..50u32 {
        assert!(a.contains(&i));
        assert!(b.contains(&i));
        assert!(c.contains_slice(&i.to_le_bytes()));
    }
    assert_eq!(a.len(), 50);
}

#[test]
fn import_takes_the_given_layout() {
    let exported = ExportedCuckooFilter { values: vec![0, 9, 0, 0, 0, 0, 0, 4], length: 2 };
    let cf = CuckooFilter::from_exported(BuildHasherStd::default(), exported);
    assert_eq!(cf.len(), 2);
    let (_, e) = cf.export();
    assert_eq!(e.values, vec![0, 9, 0, 0, 0, 0, 0, 4]);
    assert_eq!(e.length, 2);
}

#[test]
fn memory_usage_counts_buckets() {
    let cf = CuckooFilter::with_capacity(BuildHasherStd::default(), 64);
    let expected = std::mem::size_of_val(&cf) + 16 * 4;
    assert_eq!(cf.memory_usage(), expected);
    assert_eq!(MAX_REBUCKET, 500);
}

#[test]
fn default_filter_is_empty() {
    let cf: CuckooFilter<BuildHasherStd> = Default::default();
    assert!(cf.is_empty());
    assert_eq!(cf.len(), 0);
}

#[test]
fn error_name() {
    assert_eq!(CuckooError::NotEnoughSpace.as_str(), "NotEnoughSpace");
}

#[test]
fn relocation_over_given_draws() {
    // one bucket: every displaced fingerprint comes back to it, so the draws run out
    let mut cf = CuckooFilter::with_capacity(BuildHasherStd::default(), 1);
    for i in 0..4u64 {
        cf.add(&i).unwrap();
    }
    let (_, before) = cf.export();
    let fai = cf.fingerprint_slice(b"newcomer");
    let draws = vec![0usize; MAX_REBUCKET as usize];
    assert_eq!(cf.relocate(fai.fp, fai.i1, &draws), Err(CuckooError::NotEnoughSpace));
    assert_eq!(cf.len(), 4);
    let (_, after) = cf.export();
    // slot 0 was swapped every time; the other three slots are untouched
    assert_eq!(&after.values[1..], &before.values[1..]);
    assert_ne!(after.values[0], 0);
}

#[test]
fn relocation_finds_room() {
    let mut cf = CuckooFilter::with_capacity(BuildHasherStd::default(), 1 << 12);
    let fai = cf.fingerprint_slice(b"a");
    for _ in 0..4 {
        cf.add_fingerprint(&fai).unwrap();
    }
    let draws = vec![2usize; MAX_REBUCKET as usize];
    let other = cf.fingerprint_slice(b"b");
    let mut moved = FaI { fp: other.fp, i1: fai.i1, i2: fai.i1 };
    moved.i2 = get_alt_index(&BuildHasherStd::default(), other.fp, moved.i1);
    let r = cf.relocate(other.fp, fai.i1, &draws);
    if fai.i1 % 1024 != fai.i2 % 1024 {
        assert_eq!(r, Ok(()));
        assert_eq!(cf.len(), 5);
        assert!(cf.contains_fingerprint(&fai));
        assert!(cf.contains_fingerprint(&moved));
    }
}

#[test]
fn import_check() {
    let ok = ExportedCuckooFilter { values: vec![0, 9, 0, 0, 0, 0, 0, 4], length: 2 };
    assert!(CuckooFilter::<BuildHasherStd>::is_importable(&ok));
    let wrong_count = ExportedCuckooFilter { values: vec![0, 9, 0, 0, 0, 0, 0, 4], length: 3 };
    assert!(!CuckooFilter::<BuildHasherStd>::is_importable(&wrong_count));
    let ragged = ExportedCuckooFilter { values: vec![0, 9, 0], length: 1 };
    assert!(!CuckooFilter::<BuildHasherStd>::is_importable(&ragged));
    let three = ExportedCuckooFilter { values: vec![0; 12], length: 0 };
    assert!(!CuckooFilter::<BuildHasherStd>::is_importable(&three));
    let empty = ExportedCuckooFilter { values: vec![], length: 0 };
    assert!(!CuckooFilter::<BuildHasherStd>::is_importable(&empty));
    let cf = filled_with_words();
    let (_, e) = cf.export();
    assert!(CuckooFilter::<BuildHasherStd>::is_importable(&e));
}

#[test]
fn saturation_counts_successes() {
    let mut cf = CuckooFilter::with_capacity(BuildHasherStd::default(), 8);
    let mut successes = 0;
    for i in 0..64u64 {
        if cf.add(&i).is_ok() {
            successes += 1;
        }
    }
    assert!(successes <= 8);
    assert_eq!(successes, cf.len());
}
