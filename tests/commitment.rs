use deoxys_core::commitment::{
    calculate_class_commitment_leaf_hash, calculate_class_commitment_tree_root_hash,
    calculate_commitments, calculate_contract_state_hash, calculate_event_commitment,
    calculate_event_hash, calculate_state_commitment, calculate_transaction_commitment,
    calculate_transaction_hash_with_signature, calculate_contracts_tree_root_hash, ContractLeaf,
    DeclaredClass, Event, Transaction, TransactionKind,
};
use deoxys_core::felt::Felt;
use deoxys_core::hasher::{Pedersen, StarkHasher};
use deoxys_core::trie::CommitmentTree;
use starknet_types_core::felt::Felt as CoreFelt;
use starknet_types_core::hash::{Pedersen as CorePedersen, StarkHash};

fn to_core(f: Felt) -> CoreFelt {
    CoreFelt::from_bytes_be_slice(&f.to_be_bytes())
}

fn from_core(c: CoreFelt) -> Felt {
    Felt::from_be_slice(&c.to_bytes_be())
}

fn w(x: u64) -> Felt {
    Felt::from_u64(x)
}

fn array(v: &[Felt]) -> CoreFelt {
    let c: Vec<CoreFelt> = v.iter().map(|f| to_core(*f)).collect();
    CorePedersen::hash_array(&c)
}

fn tx(kind: TransactionKind) -> Transaction {
    Transaction { kind, hash: w(0x77), signature: vec![w(1), w(2)] }
}

#[test]
fn declare_before_threshold_leaves_signature_out() {
    let t = tx(TransactionKind::Declare);
    let r = calculate_transaction_hash_with_signature::<Pedersen>(&t, 61393);
    let expected = CorePedersen::hash(&to_core(t.hash), &array(&[]));
    assert_eq!(r, from_core(expected));
}

#[test]
fn declare_from_threshold_includes_signature() {
    let t = tx(TransactionKind::Declare);
    let r = calculate_transaction_hash_with_signature::<Pedersen>(&t, 61394);
    let expected = CorePedersen::hash(&to_core(t.hash), &array(&t.signature));
    assert_eq!(r, from_core(expected));
    let before = calculate_transaction_hash_with_signature::<Pedersen>(&t, 61393);
    assert_ne!(r, before);
}

#[test]
fn invoke_always_includes_signature() {
    let t = tx(TransactionKind::Invoke);
    let r = calculate_transaction_hash_with_signature::<Pedersen>(&t, 0);
    let expected = CorePedersen::hash(&to_core(t.hash), &array(&t.signature));
    assert_eq!(r, from_core(expected));
}

#[test]
fn transaction_commitment_of_two() {
    let txs = vec![tx(TransactionKind::Invoke), Transaction { kind: TransactionKind::L1Handler, hash: w(0x88), signature: vec![] }];
    let a = calculate_transaction_hash_with_signature::<Pedersen>(&txs[0], 100);
    let b = calculate_transaction_hash_with_signature::<Pedersen>(&txs[1], 100);
    let mut t = CommitmentTree::<Pedersen>::new();
    t.set(1, b);
    t.set(0, a);
    assert_eq!(calculate_transaction_commitment::<Pedersen>(&txs, 100), t.commit());
    let node = CorePedersen::hash(&to_core(a), &to_core(b));
    let expected = CorePedersen::hash(&node, &CoreFelt::ZERO) + CoreFelt::from(63u64);
    assert_eq!(calculate_transaction_commitment::<Pedersen>(&txs, 100), from_core(expected));
}

#[test]
fn empty_block_commitments_are_zero() {
    let (t, e) = calculate_commitments::<Pedersen>(&vec![], &vec![], 5);
    assert_eq!(t, Felt::zero());
    assert_eq!(e, Felt::zero());
}

#[test]
fn event_hash_formula() {
    let e = Event { from_address: w(0x10), keys: vec![w(1)], data: vec![w(2), w(3)] };
    let expected = array(&[e.from_address, from_core(array(&e.keys)), from_core(array(&e.data))]);
    assert_eq!(calculate_event_hash::<Pedersen>(&e), from_core(expected));
}

#[test]
fn event_commitment_of_one() {
    let e = Event { from_address: w(0x10), keys: vec![], data: vec![] };
    let h = calculate_event_hash::<Pedersen>(&e);
    let expected = CorePedersen::hash(&to_core(h), &CoreFelt::ZERO) + CoreFelt::from(64u64);
    assert_eq!(calculate_event_commitment::<Pedersen>(&vec![e]), from_core(expected));
}

#[test]
fn state_commitment_formula() {
    let prefix = CoreFelt::from_bytes_be_slice(b"STARKNET_STATE_V0");
    let r = calculate_state_commitment::<Pedersen>(w(5), w(6));
    let expected = CorePedersen::hash_array(&[prefix, CoreFelt::from(5u64), CoreFelt::from(6u64)]);
    assert_eq!(r, from_core(expected));
}

#[test]
fn class_leaf_formula() {
    let prefix = CoreFelt::from_bytes_be_slice(b"CONTRACT_CLASS_LEAF_V0");
    let r = calculate_class_commitment_leaf_hash::<Pedersen>(w(9));
    assert_eq!(r, from_core(CorePedersen::hash_array(&[prefix, CoreFelt::from(9u64)])));
}

#[test]
fn contract_state_hash_formula() {
    let h1 = CorePedersen::hash_array(&[CoreFelt::from(1u64), CoreFelt::from(2u64)]);
    let h2 = CorePedersen::hash_array(&[h1, CoreFelt::from(3u64)]);
    let h3 = CorePedersen::hash_array(&[h2, CoreFelt::ZERO]);
    assert_eq!(calculate_contract_state_hash::<Pedersen>(w(1), w(2), w(3)), from_core(h3));
}

#[test]
fn class_commitment_of_one_class() {
    let c = DeclaredClass { class_hash: Felt { hi: 0, lo: 0x4200 }, compiled_class_hash: w(9) };
    let leaf = calculate_class_commitment_leaf_hash::<Pedersen>(w(9));
    let expected = CorePedersen::hash(&to_core(leaf), &CoreFelt::from(0x42u64)) + CoreFelt::from(248u64);
    assert_eq!(calculate_class_commitment_tree_root_hash::<Pedersen>(&vec![c]), from_core(expected));
    assert_eq!(calculate_class_commitment_tree_root_hash::<Pedersen>(&vec![]), Felt::zero());
}

#[test]
fn combine_is_pair_hash() {
    let r = Pedersen::combine_two(w(1), w(2));
    assert_eq!(r, from_core(CorePedersen::hash(&CoreFelt::from(1u64), &CoreFelt::from(2u64))));
}

#[test]
fn contracts_tree_of_one_contract() {
    let c = ContractLeaf { address: Felt { hi: 0, lo: 0x5500 }, class_hash: w(1), storage_root: w(2), nonce: w(3) };
    let leaf = calculate_contract_state_hash::<Pedersen>(w(1), w(2), w(3));
    let expected = CorePedersen::hash(&to_core(leaf), &CoreFelt::from(0x55u64)) + CoreFelt::from(248u64);
    assert_eq!(calculate_contracts_tree_root_hash::<Pedersen>(&vec![c]), from_core(expected));
    let state = calculate_state_commitment::<Pedersen>(from_core(expected), Felt::zero());
    assert_ne!(state, Felt::zero());
}
