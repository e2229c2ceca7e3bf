use integeriser::{integerise_all, BTreeIntegeriser, FnvHashIntegeriser, HashIntegeriser, Integeriser};
use std::cmp::Ordering;
use std::collections::hash_map::DefaultHasher;
use std::hash::{Hash, Hasher};

fn codes<T: Integeriser>(t: &mut T, xs: Vec<T::Item>) -> Vec<usize> {
    let mut out = Vec::new();
    for x in xs {
        out.push(t.integerise(x));
    }
    out
}

fn hash_of<T: Hash>(t: &T) -> u64 {
    let mut h = DefaultHasher::new();
    t.hash(&mut h);
    h.finish()
}

#[test]
fn hash_order_preservation_example() {
    let mut t = HashIntegeriser::new();
    assert_eq!(codes(&mut t, vec!["this", "is", "a", "test", "."]), vec![0, 1, 2, 3, 4]);
    assert_eq!(
        codes(&mut t, vec!["this", "test", "is", "really", "simple", "."]),
        vec![0, 3, 1, 5, 6, 4]
    );
    assert_eq!(t.size(), 7);
    assert_eq!(t.values(), &vec!["this", "is", "a", "test", ".", "really", "simple"]);
}

#[test]
fn btree_order_preservation_example() {
    let mut t = BTreeIntegeriser::new();
    assert_eq!(codes(&mut t, vec!["this", "is", "a", "test", "."]), vec![0, 1, 2, 3, 4]);
    assert_eq!(
        codes(&mut t, vec!["this", "test", "is", "really", "simple", "."]),
        vec![0, 3, 1, 5, 6, 4]
    );
    assert_eq!(t.size(), 7);
    assert_eq!(t.values(), &vec!["this", "is", "a", "test", ".", "really", "simple"]);
}

#[test]
fn consecutive_codes_from_zero() {
    let mut t = HashIntegeriser::new();
    let got = codes(&mut t, vec![30u64, 10, 30, 20, 10, 40]);
    assert_eq!(got, vec![0, 1, 0, 2, 1, 3]);
    assert_eq!(t.size(), 4);
    let mut seen: Vec<usize> = got.clone();
    seen.sort();
    seen.dedup();
    assert_eq!(seen, vec![0, 1, 2, 3]);
}

#[test]
fn empty_table() {
    let h: HashIntegeriser<u64> = HashIntegeriser::new();
    let b: BTreeIntegeriser<u64> = BTreeIntegeriser::new();
    assert_eq!(h.size(), 0);
    assert_eq!(b.size(), 0);
    assert_eq!(h.find_value(0), None);
    assert_eq!(b.find_key(&7), None);
    assert!(h.values().is_empty());
}

#[test]
fn repeat_call_is_idempotent() {
    let mut h = HashIntegeriser::new();
    h.integerise(String::from("x"));
    let before = h.size();
    let first = h.integerise(String::from("y"));
    let after_first = h.size();
    let second = h.integerise(String::from("y"));
    assert_eq!(first, 1);
    assert_eq!(first, second);
    assert_eq!(after_first, before + 1);
    assert_eq!(h.size(), after_first);

    let mut b = BTreeIntegeriser::new();
    let c1 = b.integerise(5u8);
    let c2 = b.integerise(5u8);
    assert_eq!((c1, c2, b.size()), (0, 0, 1));
}

#[test]
fn find_value_and_find_key_round_trip() {
    let mut h = HashIntegeriser::new();
    let mut b = BTreeIntegeriser::new();
    for w in ["red", "green", "blue", "green"] {
        h.integerise(w.to_string());
        b.integerise(w.to_string());
    }
    for c in 0..h.size() {
        let v = h.find_value(c).unwrap();
        assert_eq!(h.find_key(v), Some(c));
        let v = b.find_value(c).unwrap();
        assert_eq!(b.find_key(v), Some(c));
    }
    assert_eq!(h.find_value(1), Some(&"green".to_string()));
    assert_eq!(b.find_key(&"blue".to_string()), Some(2));
    assert_eq!(h.find_value(3), None);
    assert_eq!(b.find_value(usize::MAX), None);
    assert_eq!(h.find_key(&"black".to_string()), None);
    assert_eq!(h.size(), 3);
}

#[test]
fn find_key_assigns_nothing() {
    let mut h = HashIntegeriser::new();
    h.integerise(1i32);
    assert_eq!(h.find_key(&2), None);
    assert_eq!(h.size(), 1);
    assert_eq!(h.integerise(2), 1);
}

#[test]
fn reload_from_values_keeps_codes() {
    let mut h = HashIntegeriser::new();
    let mut b = BTreeIntegeriser::new();
    for w in ["z", "y", "x", "y", "w"] {
        h.integerise(w);
        b.integerise(w);
    }
    let h2: HashIntegeriser<&str> = HashIntegeriser::from_values(h.values().clone());
    let b2 = BTreeIntegeriser::from_values(b.values().clone());
    assert_eq!(h2.size(), h.size());
    assert_eq!(b2.size(), b.size());
    for w in ["z", "y", "x", "w"] {
        assert_eq!(h2.find_key(&w), h.find_key(&w));
        assert_eq!(b2.find_key(&w), b.find_key(&w));
    }
    assert!(h2 == h);
    assert!(b2 == b);
}

#[test]
fn reload_interns_repeats_once() {
    let t = BTreeIntegeriser::from_values(vec![3u32, 1, 3, 2]);
    assert_eq!(t.values(), &vec![3, 1, 2]);
    assert_eq!(t.find_key(&2), Some(2));
}

#[test]
fn equality_follows_value_order() {
    let mut a = HashIntegeriser::new();
    let mut b = HashIntegeriser::new();
    let mut c = HashIntegeriser::new();
    codes(&mut a, vec![1u64, 2, 3]);
    codes(&mut b, vec![1u64, 1, 2, 1, 3, 2]);
    codes(&mut c, vec![3u64, 2, 1]);
    assert!(a == b);
    assert!(a != c);
    assert_eq!(hash_of(&a), hash_of(&b));

    let mut d = BTreeIntegeriser::new();
    let mut e = BTreeIntegeriser::new();
    codes(&mut d, vec!['a', 'b']);
    codes(&mut e, vec!['b', 'a']);
    assert!(d != e);
    codes(&mut e, vec!['c']);
    let mut f = BTreeIntegeriser::new();
    codes(&mut f, vec!['b', 'b', 'a', 'c']);
    assert!(e == f);
    assert_eq!(hash_of(&e), hash_of(&f));
}

#[test]
fn ordering_is_lexicographic_on_values() {
    let mut a = BTreeIntegeriser::new();
    let mut b = BTreeIntegeriser::new();
    codes(&mut a, vec![1u64, 5]);
    codes(&mut b, vec![1u64, 7]);
    assert_eq!(a.partial_cmp(&b), Some(Ordering::Less));
    assert_eq!(b.partial_cmp(&a), Some(Ordering::Greater));
    codes(&mut b, vec![2u64]);
    let mut c = BTreeIntegeriser::new();
    codes(&mut c, vec![1u64, 7, 2]);
    assert_eq!(b.partial_cmp(&c), Some(Ordering::Equal));

    let mut p = HashIntegeriser::new();
    let mut q = HashIntegeriser::new();
    codes(&mut p, vec![9u64]);
    codes(&mut q, vec![9u64, 0]);
    assert_eq!(p.partial_cmp(&q), Some(Ordering::Less));
    assert!(q > p);
}

#[test]
fn variants_assign_the_same_codes() {
    let input = vec!["b", "a", "b", "c", "a", "d", "c"];
    let mut h = HashIntegeriser::new();
    let mut b = BTreeIntegeriser::new();
    let hc = codes(&mut h, input.clone());
    let bc = codes(&mut b, input);
    assert_eq!(hc, bc);
    assert_eq!(hc, vec![0, 1, 0, 2, 1, 3, 2]);
    assert_eq!(h.values(), b.values());
}

#[test]
fn fnv_backed_table() {
    let mut t: FnvHashIntegeriser<&str> = Default::default();
    assert_eq!(codes(&mut t, vec!["p", "q", "p"]), vec![0, 1, 0]);
    assert_eq!(t.find_key(&"q"), Some(1));
    assert_eq!(t.find_value(0), Some(&"p"));
}

#[test]
fn integerise_all_returns_codes_in_order() {
    let mut h = HashIntegeriser::new();
    let mut b = BTreeIntegeriser::new();
    h.integerise(100u64);
    b.integerise(100u64);
    let hc = integerise_all(&mut h, vec![7u64, 100, 8, 7, 9]);
    let bc = integerise_all(&mut b, vec![7u64, 100, 8, 7, 9]);
    assert_eq!(hc, vec![1, 0, 2, 1, 3]);
    assert_eq!(hc, bc);
    assert_eq!(h.values(), &vec![100, 7, 8, 9]);
    assert_eq!(integerise_all(&mut h, Vec::new()), Vec::<usize>::new());
}

#[test]
fn default_tables_start_empty() {
    let h: HashIntegeriser<u32> = Default::default();
    let b: BTreeIntegeriser<u32> = Default::default();
    assert_eq!(h.size(), 0);
    assert_eq!(b.size(), 0);
    assert_eq!(h.find_key(&1), None);
    assert_eq!(b.find_value(0), None);
}
