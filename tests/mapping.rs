use deoxys_core::felt::Felt;
use deoxys_core::mapping::{MappingCommitment, MappingDb};
use deoxys_core::pipeline::store_mapping;
use deoxys_core::store::{Column, StorageError, Store};
use deoxys_core::codec::encode_felt;

fn word(x: u128) -> Felt {
    Felt { hi: 0, lo: x }
}

fn commitment(n: u64, block: u128, chain: u128, txs: &[u128]) -> MappingCommitment {
    MappingCommitment {
        block_number: n,
        block_hash: word(block),
        starknet_block_hash: word(chain),
        starknet_transaction_hashes: txs.iter().map(|t| word(*t)).collect(),
    }
}

#[test]
fn unknown_block_is_not_synced() {
    let db = MappingDb::new(Store::new());
    assert_eq!(db.is_synced(&word(1)), Ok(false));
    assert_eq!(db.substrate_block_hash(word(9)), Ok(None));
    assert_eq!(db.substrate_block_hash_from_transaction_hash(word(5)), Ok(None));
    assert_eq!(db.transaction_hashes_from_block_hash(word(9)), Ok(None));
    assert_eq!(db.starknet_block_hash_from_block_number(3), Ok(None));
    assert_eq!(db.block_number_from_starknet_block_hash(word(9)), Ok(None));
}

#[test]
fn write_none_marks_synced_only() {
    let mut db = MappingDb::new(Store::new());
    db.write_none(word(4));
    assert_eq!(db.is_synced(&word(4)), Ok(true));
    assert_eq!(db.is_synced(&word(5)), Ok(false));
}

#[test]
fn write_hashes_makes_all_effects_visible() {
    let mut db = MappingDb::new(Store::new());
    assert_eq!(db.write_hashes(commitment(7, 100, 200, &[11, 12, 13])), Ok(()));
    assert_eq!(db.is_synced(&word(100)), Ok(true));
    assert_eq!(db.substrate_block_hash(word(200)), Ok(Some(vec![word(100)])));
    for t in [11, 12, 13] {
        assert_eq!(db.substrate_block_hash_from_transaction_hash(word(t)), Ok(Some(word(100))));
    }
    assert_eq!(
        db.transaction_hashes_from_block_hash(word(200)),
        Ok(Some(vec![word(11), word(12), word(13)]))
    );
    assert_eq!(db.starknet_block_hash_from_block_number(7), Ok(Some(word(200))));
    assert_eq!(db.block_number_from_starknet_block_hash(word(200)), Ok(Some(7)));
}

#[test]
fn equivocating_blocks_are_listed_in_order() {
    let mut db = MappingDb::new(Store::new());
    assert_eq!(db.write_hashes(commitment(7, 100, 200, &[11])), Ok(()));
    assert_eq!(db.write_hashes(commitment(7, 101, 200, &[11])), Ok(()));
    assert_eq!(db.substrate_block_hash(word(200)), Ok(Some(vec![word(100), word(101)])));
    assert_eq!(db.is_synced(&word(101)), Ok(true));
}

#[test]
fn corrupt_list_fails_and_writes_nothing() {
    let mut store = Store::new();
    store.put(Column::BlockMapping, encode_felt(word(200)), vec![0xff]);
    let mut db = MappingDb::new(store);
    assert_eq!(db.substrate_block_hash(word(200)), Err(StorageError::Codec));
    assert_eq!(db.write_hashes(commitment(7, 100, 200, &[11])), Err(StorageError::Codec));
    assert_eq!(db.is_synced(&word(100)), Ok(false));
}

#[test]
fn corrupt_flag_is_a_codec_error() {
    let mut store = Store::new();
    store.put(Column::SyncedMapping, encode_felt(word(1)), vec![3]);
    let db = MappingDb::new(store);
    assert_eq!(db.is_synced(&word(1)), Err(StorageError::Codec));
}

#[test]
fn store_mapping_writes_the_commitment() {
    let mut db = MappingDb::new(Store::new());
    assert_eq!(store_mapping(&mut db, 3, word(30), word(300), vec![word(1)]), Ok(()));
    assert_eq!(db.block_number_from_starknet_block_hash(word(30)), Ok(Some(3)));
    assert_eq!(db.substrate_block_hash_from_transaction_hash(word(1)), Ok(Some(word(300))));
}
