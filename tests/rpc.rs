use deoxys_core::errors::StarknetRpcApiError;
use deoxys_core::felt::Felt;
use deoxys_core::pipeline::{
    store_key_update, store_state_update, ContractStorageDiff, DeployedContract, StateDiff, StateMaps,
    StorageEntry,
};
use deoxys_core::mapping::{MappingCommitment, MappingDb};
use deoxys_core::rpc::{get_storage_at, is_canon, load_hash};
use deoxys_core::store::Store;

fn w(x: u64) -> Felt {
    Felt::from_u64(x)
}

fn deployed_maps() -> StateMaps {
    let mut maps = StateMaps::new();
    let d = StateDiff {
        deployed_contracts: vec![DeployedContract { address: w(1), class_hash: w(100) }],
        replaced_classes: vec![],
        nonces: vec![],
        declared_classes: vec![],
        storage_diffs: vec![],
    };
    assert_eq!(store_state_update(&mut maps, 5, d), Ok(()));
    let diffs = vec![ContractStorageDiff { address: w(1), storage_entries: vec![StorageEntry { key: w(2), value: w(3) }] }];
    assert_eq!(store_key_update(&mut maps, 5, &diffs), Ok(()));
    maps
}

#[test]
fn storage_of_unknown_contract_is_an_error() {
    let maps = deployed_maps();
    assert!(matches!(get_storage_at(&maps, w(9), w(2), 5), Err(StarknetRpcApiError::ContractNotFound)));
    assert!(matches!(get_storage_at(&maps, w(1), w(2), 4), Err(StarknetRpcApiError::ContractNotFound)));
}

#[test]
fn storage_of_deployed_contract() {
    let maps = deployed_maps();
    assert_eq!(get_storage_at(&maps, w(1), w(2), 5).unwrap(), w(3));
    assert_eq!(get_storage_at(&maps, w(1), w(4), 5).unwrap(), Felt::zero());
}

#[test]
fn canonical_block_check() {
    assert!(is_canon(w(1), Some(w(1))));
    assert!(!is_canon(w(1), Some(w(2))));
    assert!(!is_canon(w(1), None));
}

#[test]
fn load_hash_picks_the_first_canonical_block() {
    let mut db = MappingDb::new(Store::new());
    for block in [100u64, 101, 102] {
        let c = MappingCommitment {
            block_number: 7,
            block_hash: w(block),
            starknet_block_hash: w(200),
            starknet_transaction_hashes: vec![],
        };
        assert_eq!(db.write_hashes(c), Ok(()));
    }
    assert_eq!(load_hash(&db, w(200), |h| h == w(101) || h == w(102)), Ok(Some(w(101))));
    assert_eq!(load_hash(&db, w(200), |_| false), Ok(None));
    assert_eq!(load_hash(&db, w(201), |_| true), Ok(None));
}
