//! Condition table behavior: bit assignment, idempotent atom registration,
//! capacity, and exact-mask lookup.

use mc_render::expression::Expression;

fn s(t: &str) -> String {
    t.to_string()
}

#[test]
fn assigns_power_of_two_bits_in_order() {
    let mut e: Expression<u32> = Expression::default();
    let mut m: u64 = 0;
    assert_eq!(e.insert_key(&s("a=1"), &mut m), Some(1));
    assert_eq!(e.insert_key(&s("b=1"), &mut m), Some(2));
    assert_eq!(e.insert_key(&s("c=1"), &mut m), Some(4));
    assert_eq!(m, 7);
    assert_eq!(e.size(), (3, 0));
}

#[test]
fn reinserting_known_atom_keeps_bit_and_keys() {
    let mut e: Expression<u32> = Expression::default();
    let mut m: u64 = 0;
    let first = e.insert_key(&s("facing=north"), &mut m).unwrap();
    let keys_before = e.size().0;
    let mut m2: u64 = 0;
    let again = e.insert_key(&s("facing=north"), &mut m2).unwrap();
    assert_eq!(first, again);
    assert_eq!(e.size().0, keys_before);
    assert_eq!(m2, first);
}

#[test]
fn capacity_is_sixty_four_atoms() {
    let mut e: Expression<u32> = Expression::default();
    let mut m: u64 = 0;
    for i in 0..64 {
        let r = e.insert_key(&format!("k{}=v", i), &mut m);
        assert!(r.is_some());
    }
    assert_eq!(m, u64::MAX);
    let mut m2: u64 = 0;
    assert_eq!(e.insert_key(&s("one=more"), &mut m2), None);
    assert_eq!(m2, 0);
    assert_eq!(e.size().0, 64);
    // a known atom still answers after the table is full
    let mut m3: u64 = 0;
    assert_eq!(e.insert_key(&s("k0=v"), &mut m3), Some(1));
}

#[test]
fn insert_combines_atoms_and_stores_value() {
    let mut e: Expression<u32> = Expression::default();
    let m = e.insert(&vec![s("a=1"), s("b=2")], 42).unwrap();
    assert_eq!(m, 3);
    assert_eq!(e.get(&vec![s("a=1"), s("b=2")], true), Some(&42));
    assert_eq!(e.get(&vec![s("b=2"), s("a=1")], true), Some(&42));
    assert_eq!(e.get(&vec![s("a=1")], true), None);
}

#[test]
fn insert_value_unchecked_returns_previous() {
    let mut e: Expression<u32> = Expression::default();
    assert_eq!(e.insert_value_unchecked(0, 1), None);
    assert_eq!(e.insert_value_unchecked(0, 2), Some(1));
    assert_eq!(e.get_at_mask(0), Some(&2));
    assert_eq!(e.size().1, 1);
}

#[test]
fn strict_lookup_rejects_unknown_atoms() {
    let mut e: Expression<u32> = Expression::default();
    e.insert(&vec![s("a=1")], 7);
    assert_eq!(e.get(&vec![s("a=1"), s("zzz=9")], true), None);
    // without strictness the unknown atom contributes nothing
    assert_eq!(e.get(&vec![s("a=1"), s("zzz=9")], false), Some(&7));
}

#[test]
fn empty_key_table_degrades_to_mask_zero() {
    let mut e: Expression<u32> = Expression::default();
    e.insert_value_unchecked(0, 9);
    // no atoms registered: every environment reaches the value at zero
    assert_eq!(e.get(&vec![s("whatever=thing")], false), Some(&9));
    assert_eq!(e.get(&Vec::new(), false), Some(&9));
}

#[test]
fn all_exposes_stored_pairs() {
    let mut e: Expression<u32> = Expression::default();
    e.insert(&vec![s("a=1")], 5);
    e.insert(&vec![s("b=1")], 6);
    let pairs = e.all();
    assert_eq!(pairs.len(), 2);
    assert_eq!(pairs[0], (1u64, 5));
    assert_eq!(pairs[1], (2u64, 6));
}

#[test]
fn get_initial_link_is_zero() {
    let e: Expression<u32> = Expression::default();
    assert_eq!(e.get_initial_link(), 0);
}
