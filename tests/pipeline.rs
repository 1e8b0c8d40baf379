use deoxys_core::commitment::DeclaredClass;
use deoxys_core::felt::Felt;
use deoxys_core::codec::encode_felt;
use deoxys_core::pipeline::{
    store_class_update, store_key_update, store_state_update, ClassData, ContractStorageDiff,
    DeployedContract, NonceUpdate, ReplacedClass, StateDiff, StateMaps, StorageEntry,
};
use deoxys_core::store::StorageError;

fn w(x: u64) -> Felt {
    Felt::from_u64(x)
}

fn empty_diff() -> StateDiff {
    StateDiff {
        deployed_contracts: vec![],
        replaced_classes: vec![],
        nonces: vec![],
        declared_classes: vec![],
        storage_diffs: vec![],
    }
}

#[test]
fn deployed_contract_without_nonce_gets_zero() {
    let mut maps = StateMaps::new();
    let mut d = empty_diff();
    d.deployed_contracts.push(DeployedContract { address: w(1), class_hash: w(100) });
    assert_eq!(store_state_update(&mut maps, 10, d.clone()), Ok(()));
    assert_eq!(maps.contract_nonces.get_felt_at(w(1), 10), Ok(Some(Felt::zero())));
    assert_eq!(maps.contract_nonces.get_felt_at(w(1), 9), Ok(None));
    assert_eq!(maps.contract_class_hash.get_felt_at(w(1), 10), Ok(Some(w(100))));
    assert!(maps.is_contract_deployed_at(w(1), 10));
    assert!(!maps.is_contract_deployed_at(w(1), 9));
}

#[test]
fn replaced_class_gets_no_default_nonce() {
    let mut maps = StateMaps::new();
    let mut d = empty_diff();
    d.replaced_classes.push(ReplacedClass { contract_address: w(2), class_hash: w(200) });
    assert_eq!(store_state_update(&mut maps, 10, d.clone()), Ok(()));
    assert_eq!(maps.contract_nonces.get_felt_at(w(2), 10), Ok(None));
    assert_eq!(maps.contract_class_hash.get_felt_at(w(2), 10), Ok(Some(w(200))));
}

#[test]
fn explicit_nonce_wins_over_default() {
    let mut maps = StateMaps::new();
    let mut d = empty_diff();
    d.deployed_contracts.push(DeployedContract { address: w(1), class_hash: w(100) });
    d.nonces.push(NonceUpdate { contract_address: w(1), nonce: w(5) });
    d.nonces.push(NonceUpdate { contract_address: w(3), nonce: w(6) });
    assert_eq!(store_state_update(&mut maps, 10, d.clone()), Ok(()));
    assert_eq!(maps.contract_nonces.get_felt_at(w(1), 10), Ok(Some(w(5))));
    assert_eq!(maps.contract_nonces.get_felt_at(w(3), 10), Ok(Some(w(6))));
}

#[test]
fn replacement_follows_deployment() {
    let mut maps = StateMaps::new();
    let mut d = empty_diff();
    d.deployed_contracts.push(DeployedContract { address: w(1), class_hash: w(100) });
    d.replaced_classes.push(ReplacedClass { contract_address: w(1), class_hash: w(101) });
    d.declared_classes.push(DeclaredClass { class_hash: w(101), compiled_class_hash: w(7) });
    assert_eq!(store_state_update(&mut maps, 1, d.clone()), Ok(()));
    assert_eq!(maps.contract_class_hash.get_felt_at(w(1), 1), Ok(Some(w(101))));
    assert_eq!(maps.contract_class_hashes.get_felt_at(w(101), 1), Ok(Some(w(7))));
}

#[test]
fn old_block_is_refused_without_writes() {
    let mut maps = StateMaps::new();
    let mut d = empty_diff();
    d.deployed_contracts.push(DeployedContract { address: w(1), class_hash: w(100) });
    assert_eq!(store_state_update(&mut maps, 10, d.clone()), Ok(()));
    let mut d2 = empty_diff();
    d2.deployed_contracts.push(DeployedContract { address: w(2), class_hash: w(100) });
    assert_eq!(store_state_update(&mut maps, 9, d2), Err(StorageError::Consistency));
    assert_eq!(maps.contract_class_hash.get_felt_at(w(2), 100), Ok(None));
}

#[test]
fn storage_last_write_wins_and_defaults_to_zero() {
    let mut maps = StateMaps::new();
    let diffs = vec![
        ContractStorageDiff {
            address: w(1),
            storage_entries: vec![StorageEntry { key: w(5), value: w(50) }, StorageEntry { key: w(5), value: w(51) }],
        },
        ContractStorageDiff { address: w(2), storage_entries: vec![StorageEntry { key: w(5), value: w(60) }] },
    ];
    assert_eq!(store_key_update(&mut maps, 3, &diffs), Ok(()));
    assert_eq!(maps.get_storage_at(w(1), w(5), 3), Ok(w(51)));
    assert_eq!(maps.get_storage_at(w(2), w(5), 3), Ok(w(60)));
    assert_eq!(maps.get_storage_at(w(1), w(5), 2), Ok(Felt::zero()));
    assert_eq!(maps.get_storage_at(w(1), w(6), 3), Ok(Felt::zero()));
    assert_eq!(store_key_update(&mut maps, 2, &diffs), Err(StorageError::Consistency));
}

#[test]
fn class_data_is_stored_by_hash() {
    let mut maps = StateMaps::new();
    let classes = vec![ClassData { hash: w(9), contract_class: vec![1, 2, 3] }];
    assert_eq!(store_class_update(&mut maps, 4, &classes), Ok(()));
    assert_eq!(maps.contract_class_data.get_at(&encode_felt(w(9)), 4), Some(vec![1, 2, 3]));
    assert_eq!(maps.contract_class_data.get_at(&encode_felt(w(9)), 3), None);
}

#[test]
fn state_diff_is_archived_by_block() {
    let mut maps = StateMaps::new();
    let mut d = empty_diff();
    d.nonces.push(NonceUpdate { contract_address: w(3), nonce: w(1) });
    assert!(maps.block_state_diff(7).is_none());
    assert_eq!(store_state_update(&mut maps, 7, d.clone()), Ok(()));
    let archived = maps.block_state_diff(7).unwrap();
    assert_eq!(archived.nonces, d.nonces);
    assert!(maps.block_state_diff(8).is_none());
}
