use std::hash::{Hash, Hasher};
use chim_compiler::rand::{
    hash_random, random_bytes, seedable_rng, shuffle, shuffle_with, RngSeedable, StdRng,
};

#[test]
fn test_std_rng() {
    let mut rng = StdRng::new();
    let val = rng.next_u32();
    assert!(val <= u32::MAX);
}

#[test]
fn test_std_rng_from_seed() {
    let mut rng1 = StdRng::from_seed(42);
    let mut rng2 = StdRng::from_seed(42);
    assert_eq!(rng1.next_u32(), rng2.next_u32());
}

#[test]
fn test_uniform() {
    let mut rng = StdRng::new();
    let val: i32 = rng.gen_range(0..100);
    assert!(val >= 0 && val < 100);
}

#[test]
fn test_shuffle() {
    let mut arr = vec![1, 2, 3, 4, 5];
    shuffle(&mut arr);
    assert_eq!(arr.len(), 5);
}

#[test]
fn test_random_bytes() {
    let bytes = random_bytes(10);
    assert_eq!(bytes.len(), 10);
}

#[test]
fn test_hash_random() {
    let val = hash_random(&"hello");
    assert!(val > 0);
}

#[test]
fn seeded_generator_values() {
    let mut rng = StdRng::from_seed(42);
    assert_eq!(rng.next_u64(), 8647191391818483560);
    let mut rng = StdRng::from_seed(42);
    assert_eq!(rng.next_u32(), 2384988008);
    let mut rng = StdRng::from_seed(42);
    assert_eq!(rng.next_u128(), 159512526561259860938538346413777872201);
}

#[test]
fn reseed_sets_state() {
    let mut a = StdRng::from_seed(1);
    a.reseed(9039304369631583587);
    assert_eq!(a.next_u64(), 8647191391818483560);
    let mut b = seedable_rng(42);
    assert_eq!(b.next_u64(), 8647191391818483560);
}

#[test]
fn gen_range_picks_bucket() {
    let mut rng = StdRng::from_seed(7);
    assert_eq!(rng.gen_range(0..100), 19);
    let mut rng = StdRng::from_seed(7);
    assert_eq!(rng.gen_range(-5..-4), -5);
}

#[test]
fn fill_bytes_uses_little_endian_draws() {
    let mut rng = StdRng::from_seed(42);
    let mut buf = [0u8; 11];
    rng.fill_bytes(&mut buf);
    let mut check = StdRng::from_seed(42);
    let first = check.next_u64().to_le_bytes();
    let second = check.next_u64().to_le_bytes();
    assert_eq!(&buf[..8], &first[..]);
    assert_eq!(&buf[8..], &second[..3]);
    assert_eq!(rng.next_u64(), check.next_u64());
}

#[test]
fn shuffle_keeps_elements() {
    let mut v = vec![3, 1, 4, 1, 5, 9, 2, 6];
    let mut rng = StdRng::from_seed(5);
    shuffle_with(&mut v, &mut rng);
    let mut sorted = v.clone();
    sorted.sort();
    assert_eq!(sorted, vec![1, 1, 2, 3, 4, 5, 6, 9]);
    let mut w = vec![3, 1, 4, 1, 5, 9, 2, 6];
    let mut rng2 = StdRng::from_seed(5);
    shuffle_with(&mut w, &mut rng2);
    assert_eq!(v, w);
}

#[test]
fn hash_random_is_deterministic() {
    assert_eq!(hash_random("abc"), hash_random("abc"));
    let mut h = std::collections::hash_map::DefaultHasher::new();
    "hello".hash(&mut h);
    assert_eq!(hash_random("hello"), h.finish());
}

#[test]
fn seed_holder() {
    let mut s = RngSeedable::new(3);
    assert_eq!(s.seed(), 3);
    s.set_seed(11);
    assert_eq!(s.seed(), 11);
}
