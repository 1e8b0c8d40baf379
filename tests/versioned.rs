use deoxys_core::codec::encode_felt;
use deoxys_core::felt::Felt;
use deoxys_core::hasher::Pedersen;
use deoxys_core::store::StorageError;
use deoxys_core::versioned::VersionedMap;
use starknet_types_core::felt::Felt as CoreFelt;
use starknet_types_core::hash::{Pedersen as CorePedersen, StarkHash};

fn word(x: u128) -> Felt {
    Felt { hi: 0, lo: x }
}

fn to_core(f: Felt) -> CoreFelt {
    CoreFelt::from_bytes_be_slice(&f.to_be_bytes())
}

fn from_core(c: CoreFelt) -> Felt {
    Felt::from_be_slice(&c.to_bytes_be())
}

#[test]
fn staged_writes_are_invisible_until_commit() {
    let mut m = VersionedMap::new();
    m.insert_felt(word(1), word(10));
    assert_eq!(m.get_felt_at(word(1), 100), Ok(None));
    assert_eq!(m.commit(5), Ok(()));
    assert_eq!(m.get_felt_at(word(1), 4), Ok(None));
    assert_eq!(m.get_felt_at(word(1), 5), Ok(Some(word(10))));
}

#[test]
fn reads_take_the_latest_entry_not_above_the_block() {
    let mut m = VersionedMap::new();
    m.insert_felt(word(1), word(10));
    assert_eq!(m.commit(5), Ok(()));
    m.insert_felt(word(1), word(20));
    assert_eq!(m.commit(10), Ok(()));
    assert_eq!(m.get_felt_at(word(1), 4), Ok(None));
    assert_eq!(m.get_felt_at(word(1), 5), Ok(Some(word(10))));
    assert_eq!(m.get_felt_at(word(1), 9), Ok(Some(word(10))));
    assert_eq!(m.get_felt_at(word(1), 10), Ok(Some(word(20))));
    assert_eq!(m.get_felt_at(word(1), u64::MAX), Ok(Some(word(20))));
    assert!(m.contains_at(&encode_felt(word(1)), 5));
    assert!(!m.contains_at(&encode_felt(word(1)), 4));
}

#[test]
fn last_insert_in_a_block_wins() {
    let mut m = VersionedMap::new();
    m.insert_felt(word(1), word(10));
    m.insert_felt(word(1), word(11));
    m.insert_felt(word(2), word(12));
    assert_eq!(m.commit(1), Ok(()));
    assert_eq!(m.get_felt_at(word(1), 1), Ok(Some(word(11))));
    assert_eq!(m.get_felt_at(word(2), 1), Ok(Some(word(12))));
}

#[test]
fn commit_below_latest_block_is_refused() {
    let mut m = VersionedMap::new();
    m.insert_felt(word(1), word(10));
    assert_eq!(m.commit(5), Ok(()));
    m.insert_felt(word(1), word(20));
    assert_eq!(m.commit(4), Err(StorageError::Consistency));
    assert_eq!(m.get_felt_at(word(1), 100), Ok(Some(word(10))));
    assert_eq!(m.commit(5), Ok(()));
    assert_eq!(m.get_felt_at(word(1), 5), Ok(Some(word(20))));
}

#[test]
fn undecodable_value_is_a_codec_error() {
    let mut m = VersionedMap::new();
    m.insert(encode_felt(word(1)), vec![1, 2, 3]);
    assert_eq!(m.commit(0), Ok(()));
    assert_eq!(m.get_felt_at(word(1), 0), Err(StorageError::Codec));
    assert_eq!(m.get_at(&encode_felt(word(1)), 0), Some(vec![1, 2, 3]));
}

#[test]
fn empty_commit_returns_the_same_root() {
    let mut m = VersionedMap::new();
    m.insert_felt(word(0x100), word(10));
    m.insert_felt(word(0x200), word(20));
    let r1 = m.commit_root::<Pedersen>(3).unwrap();
    let r2 = m.commit_root::<Pedersen>(3).unwrap();
    let r3 = m.commit_root::<Pedersen>(4).unwrap();
    assert_eq!(r1, r2);
    assert_eq!(r1, r3);
    assert_ne!(r1, Felt::zero());
}

#[test]
fn root_of_one_entry_is_its_edge() {
    let mut m = VersionedMap::new();
    m.insert_felt(word(0x1234), word(7));
    let r = m.commit_root::<Pedersen>(1).unwrap();
    // one leaf: an edge of 248 bits over the leading 31 bytes of the key
    let expected = CorePedersen::hash(&CoreFelt::from(7u64), &CoreFelt::from(0x12u64)) + CoreFelt::from(248u64);
    assert_eq!(r, from_core(expected));
    let _ = to_core(r);
}
