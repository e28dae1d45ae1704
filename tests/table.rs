use hashown::metrics::{is_truth, truth_density_ratio};
use hashown::zero_map::{Cid, HashOwn};

fn ratio(r: (u32, u32)) -> f32 {
    r.0 as f32 / r.1 as f32
}

#[test]
fn test_zero_distortion() {
    let mut map = HashOwn::new();

    let key = Cid::from_content(b"consciousness");
    let value = Cid::from_content(b"awakening");

    assert!(map.insert(key, value));
    assert_eq!(map.get(key), Some(value));

    let lie_key = Cid::from_content(b"unconsciousness");
    assert_ne!(key, lie_key);

    assert!(ratio(map.coherence_ratio()) > 0.0);
}

#[test]
fn content_digest_is_deterministic() {
    let a = Cid::from_content(b"consciousness");
    let b = Cid::from_content(b"consciousness");
    assert_eq!(a, b);
    assert_eq!(Cid::from_content(b""), Cid::from_content(b""));
}

#[test]
fn empty_content_gives_zero_digest() {
    assert_eq!(Cid::from_content(b""), Cid::from_bytes([0u8; 32]));
}

#[test]
fn content_digest_exact_values() {
    let mut one = [0u8; 32];
    one[0] = 75;
    assert_eq!(Cid::from_content(b"a"), Cid::from_bytes(one));
    let mut two = [0u8; 32];
    two[0] = 75;
    two[1] = 146;
    assert_eq!(Cid::from_content(b"ab"), Cid::from_bytes(two));
}

#[test]
fn from_bytes_keeps_bytes() {
    let mut raw = [0u8; 32];
    raw[31] = 9;
    assert_eq!(Cid::from_bytes(raw), Cid::from_bytes(raw));
    assert_ne!(Cid::from_bytes(raw), Cid::from_bytes([0u8; 32]));
}

#[test]
fn scenario_insert_then_get() {
    let mut map = HashOwn::new();
    let key = Cid::from_content(b"consciousness");
    let value = Cid::from_content(b"awakening");
    assert!(map.insert(key, value));
    assert_eq!(map.get(Cid::from_content(b"consciousness")), Some(Cid::from_content(b"awakening")));
    assert!(map.contains(key));
    assert_eq!(map.len(), 1);
    assert!(!map.is_empty());
}

#[test]
fn scenario_distinct_contents_distinct_digests() {
    assert_ne!(Cid::from_content(b"consciousness"), Cid::from_content(b"unconsciousness"));
}

#[test]
fn update_does_not_duplicate() {
    let mut map = HashOwn::new();
    let key = Cid::from_content(b"key");
    let v1 = Cid::from_content(b"first");
    let v2 = Cid::from_content(b"second");
    assert!(map.insert(key, v1));
    assert_eq!(map.len(), 1);
    assert!(map.insert(key, v2));
    assert_eq!(map.len(), 1);
    assert_eq!(map.get(key), Some(v2));
}

#[test]
fn absent_key_on_empty_table() {
    let map = HashOwn::new();
    let key = Cid::from_content(b"nothing");
    assert_eq!(map.get(key), None);
    assert!(!map.contains(key));
    assert!(map.is_empty());
    assert_eq!(map.len(), 0);
}

#[test]
fn absent_key_after_other_inserts() {
    let mut map = HashOwn::new();
    for i in 0u8..10 {
        assert!(map.insert(Cid::from_content(&[i]), Cid::from_content(b"v")));
    }
    let key = Cid::from_content(b"missing");
    assert_eq!(map.get(key), None);
    assert!(!map.contains(key));
}

#[test]
fn capacity_bound() {
    let mut map = HashOwn::new();
    for i in 0u8..64 {
        assert!(map.insert(Cid::from_content(&[i]), Cid::from_content(b"v")));
    }
    assert_eq!(map.len(), 64);
    for i in 0u8..64 {
        assert_eq!(map.get(Cid::from_content(&[i])), Some(Cid::from_content(b"v")));
    }
    let extra = Cid::from_content(&[64u8]);
    assert!(!map.insert(extra, Cid::from_content(b"v")));
    assert_eq!(map.len(), 64);
    assert_eq!(map.get(extra), None);
    assert!(map.insert(Cid::from_content(&[3u8]), Cid::from_content(b"w")));
    assert_eq!(map.get(Cid::from_content(&[3u8])), Some(Cid::from_content(b"w")));
    assert_eq!(map.len(), 64);
}

#[test]
fn colliding_home_slots_are_probed() {
    let mut map = HashOwn::new();
    let mut a = [7u8; 32];
    let mut b = [7u8; 32];
    a[20] = 1;
    b[20] = 2;
    let (ka, kb) = (Cid::from_bytes(a), Cid::from_bytes(b));
    let (va, vb) = (Cid::from_content(b"a"), Cid::from_content(b"b"));
    assert!(map.insert(ka, va));
    assert!(map.insert(kb, vb));
    assert_eq!(map.len(), 2);
    assert_eq!(map.get(ka), Some(va));
    assert_eq!(map.get(kb), Some(vb));
    let mut c = [7u8; 32];
    c[20] = 3;
    assert_eq!(map.get(Cid::from_bytes(c)), None);
}

#[test]
fn empty_table_metrics() {
    let map = HashOwn::new();
    assert_eq!(map.coherence_ratio(), (1, 1));
    assert_eq!(ratio(map.coherence_ratio()), 1.0);
    assert_eq!(truth_density_ratio(&map), (0, 1));
    assert_eq!(ratio(truth_density_ratio(&map)), 0.0);
}

#[test]
fn coherence_exact_values() {
    let zero = Cid::from_bytes([0u8; 32]);
    let mut map = HashOwn::new();
    assert!(map.insert(zero, zero));
    assert_eq!(map.coherence_ratio(), (256, 256));

    let mut map = HashOwn::new();
    assert!(map.insert(zero, Cid::from_bytes([0x0Fu8; 32])));
    assert_eq!(map.coherence_ratio(), (128, 256));
    assert_eq!(truth_density_ratio(&map), (128, 256 * 64));
    assert_eq!(ratio(truth_density_ratio(&map)), 0.5 / 64.0);

    let mut map = HashOwn::new();
    assert!(map.insert(Cid::from_content(b"consciousness"), Cid::from_content(b"awakening")));
    assert_eq!(map.coherence_ratio(), (208, 256));
}

#[test]
fn complementary_pair_has_zero_coherence() {
    let mut map = HashOwn::new();
    assert!(map.insert(Cid::from_bytes([0u8; 32]), Cid::from_bytes([0xFFu8; 32])));
    assert_eq!(map.coherence_ratio(), (0, 256));
}

#[test]
fn coherence_positive_after_single_insert() {
    let mut map = HashOwn::new();
    assert!(map.insert(Cid::from_content(b"left"), Cid::from_content(b"right")));
    let (n, d) = map.coherence_ratio();
    assert!(n > 0);
    assert!(ratio((n, d)) > 0.0);
}

#[test]
fn is_truth_matches_get() {
    let mut map = HashOwn::new();
    let key = Cid::from_content(b"consciousness");
    let value = Cid::from_content(b"awakening");
    let other = Cid::from_content(b"sleep");
    assert!(!is_truth(&map, key, value));
    assert!(map.insert(key, value));
    assert!(is_truth(&map, key, value));
    assert!(!is_truth(&map, key, other));
    assert!(!is_truth(&map, other, value));
    assert_eq!(is_truth(&map, key, value), map.get(key) == Some(value));
}
