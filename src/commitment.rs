//! The commitments of a block header and of the state: transaction and event
//! commitments over height-64 tries, the class commitment over a height-251
//! trie, and the hash formulas of their leaves.
use vstd::prelude::*;

use crate::felt::{Felt, felt_from_int, lemma_felt_of_value};
use crate::hasher::{StarkHasher, values_of};
use crate::trie::{
    CommitmentTree, Leaf, StateCommitmentTree, leaf_value, root_of, sorted, state_key,
};

verus! {

/// From this block on, the signature of every transaction enters its
/// commitment leaf; before it, only that of invoke transactions does.
pub const SIGNATURE_INCLUSION_BLOCK: u64 = 61394;

/// The kind of a transaction.
#[derive(Clone, Copy, Debug, PartialEq, Eq, Structural)]
pub enum TransactionKind {
    Invoke,
    Declare,
    DeployAccount,
    Deploy,
    L1Handler,
}

/// A transaction as its commitment leaf needs it: its kind, its protocol
/// hash (computed by the transaction-hashing capability from the chain id and
/// block number), and its signature.
#[derive(Clone, Debug)]
pub struct Transaction {
    pub kind: TransactionKind,
    pub hash: Felt,
    pub signature: Vec<Felt>,
}

/// An event emitted by a contract.
#[derive(Clone, Debug)]
pub struct Event {
    pub from_address: Felt,
    pub keys: Vec<Felt>,
    pub data: Vec<Felt>,
}

/// A class declared in a block, with the hash of its compiled form.
#[derive(Clone, Copy, Debug, PartialEq, Eq, Structural)]
pub struct DeclaredClass {
    pub class_hash: Felt,
    pub compiled_class_hash: Felt,
}

/// A contract as its leaf in the contracts tree needs it; the root of its
/// storage trie comes from the caller.
#[derive(Clone, Copy, Debug, PartialEq, Eq, Structural)]
pub struct ContractLeaf {
    pub address: Felt,
    pub class_hash: Felt,
    pub storage_root: Felt,
    pub nonce: Felt,
}

/// "STARKNET_STATE_V0" as a field element.
pub open spec fn state_prefix() -> Felt {
    Felt { hi: 0x53, lo: 0x5441524b4e45545f53544154455f5630 }
}

/// "CONTRACT_CLASS_LEAF_V0" as a field element.
pub open spec fn class_leaf_prefix() -> Felt {
    Felt { hi: 0x434f4e545241, lo: 0x43545f434c4153535f4c4541465f5630 }
}

pub open spec fn state_commitment_spec<H: StarkHasher>(contracts_root: Felt, classes_root: Felt) -> int {
    H::elements_spec(seq![state_prefix().value(), contracts_root.value(), classes_root.value()])
}

pub open spec fn class_leaf_hash_spec<H: StarkHasher>(compiled_class_hash: Felt) -> int {
    H::elements_spec(seq![class_leaf_prefix().value(), compiled_class_hash.value()])
}

pub open spec fn contract_state_hash_spec<H: StarkHasher>(hash: Felt, root: Felt, nonce: Felt) -> int {
    let class_storage = H::elements_spec(seq![hash.value(), root.value()]);
    let with_nonce = H::elements_spec(seq![class_storage, nonce.value()]);
    H::elements_spec(seq![with_nonce, 0])
}

/// The hash of the signature that enters a transaction's leaf at block `n`.
pub open spec fn signature_hash_spec<H: StarkHasher>(tx: Transaction, n: u64) -> int {
    if tx.kind == TransactionKind::Invoke || n >= SIGNATURE_INCLUSION_BLOCK {
        H::elements_spec(values_of(tx.signature@))
    } else {
        H::elements_spec(seq![])
    }
}

pub open spec fn tx_hash_with_signature_spec<H: StarkHasher>(tx: Transaction, n: u64) -> int {
    H::combine_spec(tx.hash.value(), signature_hash_spec::<H>(tx, n))
}

pub open spec fn event_hash_spec<H: StarkHasher>(e: Event) -> int {
    H::elements_spec(
        seq![
            e.from_address.value(),
            H::elements_spec(values_of(e.keys@)),
            H::elements_spec(values_of(e.data@)),
        ],
    )
}

/// The leaf under `k` of the transaction trie of `txs` at block `n`, once the
/// first `i` transactions are set.
pub open spec fn tx_leaf<H: StarkHasher>(txs: Seq<Transaction>, n: u64, i: int, k: Felt) -> Option<
    Felt,
> {
    if k.hi == 0 && k.lo < i {
        Some(felt_from_int(tx_hash_with_signature_spec::<H>(txs[k.lo as int], n)))
    } else {
        None
    }
}

/// The leaf under `k` of the event trie of `events`, once the first `i`
/// events are set.
pub open spec fn event_leaf<H: StarkHasher>(events: Seq<Event>, i: int, k: Felt) -> Option<Felt> {
    if k.hi == 0 && k.lo < i {
        Some(felt_from_int(event_hash_spec::<H>(events[k.lo as int])))
    } else {
        None
    }
}

/// The leaf under `k` of the class trie once the first `i` classes are set:
/// the latest of them whose class hash leads to `k`.
pub open spec fn class_leaf<H: StarkHasher>(classes: Seq<DeclaredClass>, i: int, k: Felt) -> Option<
    Felt,
>
    decreases i,
{
    if i <= 0 {
        None
    } else if state_key(classes[i - 1].class_hash) == k {
        Some(felt_from_int(class_leaf_hash_spec::<H>(classes[i - 1].compiled_class_hash)))
    } else {
        class_leaf::<H>(classes, i - 1, k)
    }
}

/// The leaf under `k` of the contracts tree once the first `i` contracts are
/// set: the latest of them whose address leads to `k`.
pub open spec fn contract_leaf<H: StarkHasher>(contracts: Seq<ContractLeaf>, i: int, k: Felt) -> Option<
    Felt,
>
    decreases i,
{
    if i <= 0 {
        None
    } else if state_key(contracts[i - 1].address) == k {
        let c = contracts[i - 1];
        Some(felt_from_int(contract_state_hash_spec::<H>(c.class_hash, c.storage_root, c.nonce)))
    } else {
        contract_leaf::<H>(contracts, i - 1, k)
    }
}

fn state_prefix_exec() -> (r: Felt)
    ensures
        r == state_prefix(),
{
    Felt { hi: 0x53, lo: 0x5441524b4e45545f53544154455f5630 }
}

fn class_leaf_prefix_exec() -> (r: Felt)
    ensures
        r == class_leaf_prefix(),
{
    Felt { hi: 0x434f4e545241, lo: 0x43545f434c4153535f4c4541465f5630 }
}

/// The state commitment: the hash of a version prefix and the roots of the
/// contracts tree and the classes tree.
pub fn calculate_state_commitment<H: StarkHasher>(contracts_tree_root: Felt, classes_tree_root: Felt) -> (r: Felt)
    ensures
        r.value() == state_commitment_spec::<H>(contracts_tree_root, classes_tree_root),
{
    let v = vec![state_prefix_exec(), contracts_tree_root, classes_tree_root];
    proof {
        assert(values_of(v@) =~= seq![
            state_prefix().value(),
            contracts_tree_root.value(),
            classes_tree_root.value(),
        ]);
    }
    H::hash_on_elements(&v)
}

/// The leaf of the class commitment tree for a compiled class hash.
pub fn calculate_class_commitment_leaf_hash<H: StarkHasher>(compiled_class_hash: Felt) -> (r: Felt)
    ensures
        r.value() == class_leaf_hash_spec::<H>(compiled_class_hash),
{
    let v = vec![class_leaf_prefix_exec(), compiled_class_hash];
    proof {
        assert(values_of(v@) =~= seq![class_leaf_prefix().value(), compiled_class_hash.value()]);
    }
    H::hash_on_elements(&v)
}

/// The leaf of the contracts tree for a contract: its class hash, its
/// storage root and its nonce, hashed in turn, then with the version zero.
pub fn calculate_contract_state_hash<H: StarkHasher>(hash: Felt, root: Felt, nonce: Felt) -> (r: Felt)
    ensures
        r.value() == contract_state_hash_spec::<H>(hash, root, nonce),
{
    let v1 = vec![hash, root];
    proof {
        assert(values_of(v1@) =~= seq![hash.value(), root.value()]);
    }
    let class_storage_hash = H::hash_on_elements(&v1);
    let v2 = vec![class_storage_hash, nonce];
    proof {
        assert(values_of(v2@) =~= seq![class_storage_hash.value(), nonce.value()]);
    }
    let nonce_hash = H::hash_on_elements(&v2);
    let v3 = vec![nonce_hash, Felt::zero()];
    proof {
        assert(values_of(v3@) =~= seq![nonce_hash.value(), 0]);
    }
    H::hash_on_elements(&v3)
}

/// The leaf of the transaction commitment for `tx` in block `block_number`:
/// its hash combined with the hash of its signature, or of no elements for a
/// transaction other than an invoke before the inclusion block.
pub fn calculate_transaction_hash_with_signature<H: StarkHasher>(tx: &Transaction, block_number: u64) -> (r: Felt)
    ensures
        r.value() == tx_hash_with_signature_spec::<H>(*tx, block_number),
{
    let include_signature = block_number >= SIGNATURE_INCLUSION_BLOCK;
    let signature_hash = if tx.kind == TransactionKind::Invoke || include_signature {
        H::hash_on_elements(&tx.signature)
    } else {
        let empty: Vec<Felt> = Vec::new();
        proof {
            assert(values_of(empty@) =~= seq![]);
        }
        H::hash_on_elements(&empty)
    };
    H::combine_two(tx.hash, signature_hash)
}

/// The hash of an event: its emitter, the hash of its keys and the hash of
/// its data.
pub fn calculate_event_hash<H: StarkHasher>(event: &Event) -> (r: Felt)
    ensures
        r.value() == event_hash_spec::<H>(*event),
{
    let keys_hash = H::hash_on_elements(&event.keys);
    let data_hash = H::hash_on_elements(&event.data);
    let v = vec![event.from_address, keys_hash, data_hash];
    proof {
        assert(values_of(v@) =~= seq![
            event.from_address.value(),
            H::elements_spec(values_of(event.keys@)),
            H::elements_spec(values_of(event.data@)),
        ]);
    }
    H::hash_on_elements(&v)
}

/// The transaction commitment: the root of the height-64 trie whose leaf `i`
/// is the hash with signature of transaction `i`.
pub fn calculate_transaction_commitment<H: StarkHasher>(transactions: &Vec<Transaction>, block_number: u64) -> (r: Felt)
    ensures
        exists|s: Seq<Leaf>|
            sorted(s) && (forall|k: Felt| #[trigger] leaf_value(s, k) == tx_leaf::<H>(
                transactions@,
                block_number,
                transactions@.len() as int,
                k,
            )) && r.value() == root_of::<H>(s, 64),
{
    let mut tree = CommitmentTree::<H>::new();
    let mut i: usize = 0;
    while i < transactions.len()
        invariant
            i <= transactions@.len(),
            tree.wf(),
            forall|k: Felt| #[trigger] leaf_value(tree.leaves@, k) == tx_leaf::<H>(
                transactions@,
                block_number,
                i as int,
                k,
            ),
        decreases transactions@.len() - i,
    {
        let final_hash = calculate_transaction_hash_with_signature::<H>(&transactions[i], block_number);
        tree.set(i as u64, final_hash);
        proof {
            lemma_felt_of_value(final_hash);
        }
        i = i + 1;
    }
    tree.commit()
}

/// The event commitment: the root of the height-64 trie whose leaf `i` is
/// the hash of event `i`, over the events of all transactions in order.
pub fn calculate_event_commitment<H: StarkHasher>(events: &Vec<Event>) -> (r: Felt)
    ensures
        exists|s: Seq<Leaf>|
            sorted(s) && (forall|k: Felt| #[trigger] leaf_value(s, k) == event_leaf::<H>(
                events@,
                events@.len() as int,
                k,
            )) && r.value() == root_of::<H>(s, 64),
{
    let mut tree = CommitmentTree::<H>::new();
    let mut i: usize = 0;
    while i < events.len()
        invariant
            i <= events@.len(),
            tree.wf(),
            forall|k: Felt| #[trigger] leaf_value(tree.leaves@, k) == event_leaf::<H>(
                events@,
                i as int,
                k,
            ),
        decreases events@.len() - i,
    {
        let final_hash = calculate_event_hash::<H>(&events[i]);
        tree.set(i as u64, final_hash);
        proof {
            lemma_felt_of_value(final_hash);
        }
        i = i + 1;
    }
    tree.commit()
}

/// The transaction commitment and the event commitment of a block.
pub fn calculate_commitments<H: StarkHasher>(
    transactions: &Vec<Transaction>,
    events: &Vec<Event>,
    block_number: u64,
) -> (r: (Felt, Felt))
    ensures
        exists|s: Seq<Leaf>|
            sorted(s) && (forall|k: Felt| #[trigger] leaf_value(s, k) == tx_leaf::<H>(
                transactions@,
                block_number,
                transactions@.len() as int,
                k,
            )) && r.0.value() == root_of::<H>(s, 64),
        exists|s: Seq<Leaf>|
            sorted(s) && (forall|k: Felt| #[trigger] leaf_value(s, k) == event_leaf::<H>(
                events@,
                events@.len() as int,
                k,
            )) && r.1.value() == root_of::<H>(s, 64),
{
    (
        calculate_transaction_commitment::<H>(transactions, block_number),
        calculate_event_commitment::<H>(events),
    )
}

/// The class commitment: the root of the height-251 trie that maps each
/// declared class hash to the leaf hash of its compiled class hash.
pub fn calculate_class_commitment_tree_root_hash<H: StarkHasher>(classes: &Vec<DeclaredClass>) -> (r: Felt)
    ensures
        exists|s: Seq<Leaf>|
            sorted(s) && (forall|k: Felt| #[trigger] leaf_value(s, k) == class_leaf::<H>(
                classes@,
                classes@.len() as int,
                k,
            )) && r.value() == root_of::<H>(s, 248),
{
    let mut tree = StateCommitmentTree::<H>::new();
    let mut i: usize = 0;
    while i < classes.len()
        invariant
            i <= classes@.len(),
            tree.wf(),
            forall|k: Felt| #[trigger] leaf_value(tree.leaves@, k) == class_leaf::<H>(
                classes@,
                i as int,
                k,
            ),
        decreases classes@.len() - i,
    {
        let c = classes[i];
        let final_hash = calculate_class_commitment_leaf_hash::<H>(c.compiled_class_hash);
        tree.set(c.class_hash, final_hash);
        proof {
            lemma_felt_of_value(final_hash);
        }
        i = i + 1;
    }
    tree.commit()
}

/// The contracts tree root: the root of the height-251 trie that maps each
/// contract address to its contract state hash.
pub fn calculate_contracts_tree_root_hash<H: StarkHasher>(contracts: &Vec<ContractLeaf>) -> (r: Felt)
    ensures
        exists|s: Seq<Leaf>|
            sorted(s) && (forall|k: Felt| #[trigger] leaf_value(s, k) == contract_leaf::<H>(
                contracts@,
                contracts@.len() as int,
                k,
            )) && r.value() == root_of::<H>(s, 248),
{
    let mut tree = StateCommitmentTree::<H>::new();
    let mut i: usize = 0;
    while i < contracts.len()
        invariant
            i <= contracts@.len(),
            tree.wf(),
            forall|k: Felt| #[trigger] leaf_value(tree.leaves@, k) == contract_leaf::<H>(
                contracts@,
                i as int,
                k,
            ),
        decreases contracts@.len() - i,
    {
        let c = contracts[i];
        let leaf = calculate_contract_state_hash::<H>(c.class_hash, c.storage_root, c.nonce);
        tree.set(c.address, leaf);
        proof {
            lemma_felt_of_value(leaf);
        }
        i = i + 1;
    }
    tree.commit()
}

/// A transaction other than an invoke leaves its signature out of its leaf
/// before the inclusion block and puts it in from that block on.
pub proof fn lemma_signature_threshold<H: StarkHasher>(tx: Transaction, n: u64)
    requires
        tx.kind != TransactionKind::Invoke,
    ensures
        n < SIGNATURE_INCLUSION_BLOCK ==> tx_hash_with_signature_spec::<H>(tx, n) == H::combine_spec(
            tx.hash.value(),
            H::elements_spec(seq![]),
        ),
        n >= SIGNATURE_INCLUSION_BLOCK ==> tx_hash_with_signature_spec::<H>(tx, n)
            == H::combine_spec(tx.hash.value(), H::elements_spec(values_of(tx.signature@))),
{
}

} // verus!
