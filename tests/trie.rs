use deoxys_core::felt::Felt;
use deoxys_core::hasher::{Pedersen, StarkHasher};
use deoxys_core::trie::{CommitmentTree, StateCommitmentTree};
use starknet_types_core::felt::Felt as CoreFelt;
use starknet_types_core::hash::{Pedersen as CorePedersen, StarkHash};

fn to_core(f: Felt) -> CoreFelt {
    CoreFelt::from_bytes_be_slice(&f.to_be_bytes())
}

fn from_core(c: CoreFelt) -> Felt {
    Felt::from_be_slice(&c.to_bytes_be())
}

fn hex(s: &str) -> Felt {
    from_core(CoreFelt::from_hex(s).unwrap())
}

#[test]
fn pedersen_matches_known_vector() {
    let a = hex("0x03d937c035c878245caf64531a5756109c53068da139362728feb561405371cb");
    let b = hex("0x0208a0a10250e382e1e4bbe2880906c2791bf6275695e02fbbc6aeff9cd8b31a");
    let h = Pedersen::combine_two(a, b);
    assert_eq!(h, hex("0x030e480bed5fe53fa909cc0f8c4d99b8f9f2c016be4c41e13a4848797979c662"));
    assert_ne!(h, a);
}

#[test]
fn hash_on_elements_matches_array_hash() {
    let v = vec![Felt::from_u64(1), Felt::from_u64(2), Felt::from_u64(3)];
    let core: Vec<CoreFelt> = v.iter().map(|f| to_core(*f)).collect();
    assert_eq!(Pedersen::hash_on_elements(&v), from_core(CorePedersen::hash_array(&core)));
    assert_eq!(Pedersen::hash_on_elements(&vec![]), from_core(CorePedersen::hash_array(&[])));
}

#[test]
fn felt_bytes_round_trip() {
    let f = Felt { hi: 0x0102, lo: 0xff };
    let b = f.to_be_bytes();
    assert_eq!(b.len(), 32);
    assert_eq!(b[14], 0x01);
    assert_eq!(b[15], 0x02);
    assert_eq!(b[31], 0xff);
    assert_eq!(Felt::from_be_slice(&b), f);
}

#[test]
fn empty_tree_root_is_zero() {
    let mut t = CommitmentTree::<Pedersen>::new();
    assert_eq!(t.commit(), Felt::zero());
    let mut s = StateCommitmentTree::<Pedersen>::new();
    assert_eq!(s.commit(), Felt::zero());
}

#[test]
fn single_leaf_root_is_an_edge() {
    let v = Felt::from_u64(99);
    let mut t = CommitmentTree::<Pedersen>::new();
    t.set(5, v);
    let expected = CorePedersen::hash(&to_core(v), &CoreFelt::from(5u64)) + CoreFelt::from(64u64);
    assert_eq!(t.commit(), from_core(expected));
}

#[test]
fn two_adjacent_leaves_hash_under_one_edge() {
    let a = Felt::from_u64(0xaa);
    let b = Felt::from_u64(0xbb);
    let mut t = CommitmentTree::<Pedersen>::new();
    t.set(0, a);
    t.set(1, b);
    let node = CorePedersen::hash(&to_core(a), &to_core(b));
    let expected = CorePedersen::hash(&node, &CoreFelt::ZERO) + CoreFelt::from(63u64);
    assert_eq!(t.commit(), from_core(expected));
}

#[test]
fn root_does_not_depend_on_set_order() {
    let a = Felt::from_u64(0xaa);
    let b = Felt::from_u64(0xbb);
    let mut t1 = CommitmentTree::<Pedersen>::new();
    t1.set(0, a);
    t1.set(1, b);
    let mut t2 = CommitmentTree::<Pedersen>::new();
    t2.set(1, b);
    t2.set(0, a);
    assert_eq!(t1.commit(), t2.commit());
    let mut t3 = CommitmentTree::<Pedersen>::new();
    t3.set(1, a);
    t3.set(0, b);
    assert_ne!(t1.commit(), t3.commit());
}

#[test]
fn setting_a_key_again_replaces_its_value() {
    let mut t1 = CommitmentTree::<Pedersen>::new();
    t1.set(3, Felt::from_u64(1));
    t1.set(3, Felt::from_u64(2));
    let mut t2 = CommitmentTree::<Pedersen>::new();
    t2.set(3, Felt::from_u64(2));
    assert_eq!(t1.commit(), t2.commit());
}

#[test]
fn state_tree_keys_use_leading_31_bytes() {
    let mut s = StateCommitmentTree::<Pedersen>::new();
    let k = Felt { hi: 0, lo: 0x1234 };
    s.set(k, Felt::from_u64(7));
    assert_eq!(s.get(k), Some(Felt::from_u64(7)));
    // the last byte of the key is not part of it
    assert_eq!(s.get(Felt { hi: 0, lo: 0x12ff }), Some(Felt::from_u64(7)));
    assert_eq!(s.get(Felt { hi: 0, lo: 0x1334 }), None);
    let expected = CorePedersen::hash(&CoreFelt::from(7u64), &CoreFelt::from(0x12u64)) + CoreFelt::from(248u64);
    assert_eq!(s.commit(), from_core(expected));
}

#[test]
fn state_tree_with_high_keys() {
    let mut s = StateCommitmentTree::<Pedersen>::new();
    let k1 = Felt { hi: 1 << 100, lo: 5 << 8 };
    let k2 = Felt { hi: 1 << 101, lo: 5 << 8 };
    s.set(k2, Felt::from_u64(2));
    s.set(k1, Felt::from_u64(1));
    let mut t = StateCommitmentTree::<Pedersen>::new();
    t.set(k1, Felt::from_u64(1));
    t.set(k2, Felt::from_u64(2));
    assert_eq!(s.commit(), t.commit());
    assert_eq!(s.get(k1), Some(Felt::from_u64(1)));
}
