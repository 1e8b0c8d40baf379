//! The index between node blocks and chain blocks.
//!
//! It records which node blocks were processed, the node blocks that claim a
//! chain block hash (more than one under equivocation), the block of each
//! transaction, the transactions of each chain block, and the two-way index
//! between chain block numbers and hashes. A block's mapping is written in one
//! batch.
use vstd::prelude::*;

use crate::codec::{
    dec_bool, dec_felt, dec_felts, dec_u64, decode_bool, decode_felt, decode_felts, decode_u64,
    enc_bool, enc_felt, enc_felts, enc_u64, encode_bool, encode_felt, encode_felts, encode_u64,
    lemma_bool_round_trip, lemma_felt_round_trip, lemma_felts_round_trip, lemma_u64_round_trip,
};
use crate::felt::{Felt, H256};
use crate::store::{
    Column, StorageError, Store, WriteBatch, lemma_lookup_append, lemma_lookup_push, lookup,
};

verus! {

/// What a stored byte string reads as, given its decoder.
pub open spec fn read_with<T>(raw: Option<Seq<u8>>, dec: spec_fn(Seq<u8>) -> Option<T>) -> Result<
    Option<T>,
    StorageError,
> {
    match raw {
        None => Ok(None),
        Some(b) => match dec(b) {
            Some(v) => Ok(Some(v)),
            None => Err(StorageError::Codec),
        },
    }
}

/// The mapping written when a block is processed.
#[derive(Debug, Clone)]
pub struct MappingCommitment {
    pub block_number: u64,
    pub block_hash: H256,
    pub starknet_block_hash: Felt,
    pub starknet_transaction_hashes: Vec<Felt>,
}

/// The value that processing commitment `c` puts under `column` and `key`,
/// where `hashes` is the new list of node blocks for its chain block hash.
pub open spec fn commit_value(
    c: MappingCommitment,
    hashes: Seq<H256>,
    column: Column,
    key: Seq<u8>,
) -> Option<Seq<u8>> {
    let txs = c.starknet_transaction_hashes@;
    if column == Column::BlockMapping && key == enc_felt(c.starknet_block_hash) {
        Some(enc_felts(hashes))
    } else if column == Column::SyncedMapping && key == enc_felt(c.block_hash) {
        Some(enc_bool(true))
    } else if column == Column::TransactionMapping && exists|j: int|
        0 <= j < txs.len() && key == #[trigger] enc_felt(txs[j]) {
        Some(enc_felt(c.block_hash))
    } else if column == Column::StarknetTransactionHashesMapping && key == enc_felt(
        c.starknet_block_hash,
    ) {
        Some(enc_felts(txs))
    } else if column == Column::StarknetBlockHashesMapping && key == enc_u64(c.block_number) {
        Some(enc_felt(c.starknet_block_hash))
    } else if column == Column::StarknetBlockNumberMapping && key == enc_felt(
        c.starknet_block_hash,
    ) {
        Some(enc_u64(c.block_number))
    } else {
        None
    }
}

/// Access to the block index.
pub struct MappingDb {
    pub db: Store,
}

impl MappingDb {
    /// Whether node block `h` was processed.
    pub open spec fn synced_spec(&self, h: H256) -> Result<bool, StorageError> {
        match read_with(self.db.value_of(Column::SyncedMapping, enc_felt(h)), |b| dec_bool(b)) {
            Ok(Some(x)) => Ok(x),
            Ok(None) => Ok(false),
            Err(e) => Err(e),
        }
    }

    /// The node blocks that claim chain block hash `ch`, in the order they came.
    pub open spec fn block_hashes_spec(&self, ch: Felt) -> Result<Option<Seq<H256>>, StorageError> {
        read_with(self.db.value_of(Column::BlockMapping, enc_felt(ch)), |b| dec_felts(b))
    }

    /// The node block that holds transaction `tx`.
    pub open spec fn tx_block_spec(&self, tx: Felt) -> Result<Option<H256>, StorageError> {
        read_with(self.db.value_of(Column::TransactionMapping, enc_felt(tx)), |b| dec_felt(b))
    }

    /// The transactions of chain block `ch`.
    pub open spec fn tx_hashes_spec(&self, ch: Felt) -> Result<Option<Seq<Felt>>, StorageError> {
        read_with(
            self.db.value_of(Column::StarknetTransactionHashesMapping, enc_felt(ch)),
            |b| dec_felts(b),
        )
    }

    /// The chain block hash at height `n`.
    pub open spec fn block_hash_spec(&self, n: u64) -> Result<Option<Felt>, StorageError> {
        read_with(self.db.value_of(Column::StarknetBlockHashesMapping, enc_u64(n)), |b| dec_felt(b))
    }

    /// The height of chain block `ch`.
    pub open spec fn block_number_spec(&self, ch: Felt) -> Result<Option<u64>, StorageError> {
        read_with(self.db.value_of(Column::StarknetBlockNumberMapping, enc_felt(ch)), |b| dec_u64(b))
    }

    /// The list of node blocks for `c`'s chain block hash once `c` is added.
    pub open spec fn extended_hashes(&self, c: MappingCommitment) -> Seq<H256> {
        match self.block_hashes_spec(c.starknet_block_hash) {
            Ok(Some(l)) => l.push(c.block_hash),
            _ => seq![c.block_hash],
        }
    }

    /// `self` is `old` with the whole of commitment `c` applied.
    pub open spec fn committed_from(&self, old: &MappingDb, c: MappingCommitment) -> bool {
        forall|column: Column, key: Seq<u8>|
            #[trigger] self.db.value_of(column, key) == match commit_value(
                c,
                old.extended_hashes(c),
                column,
                key,
            ) {
                Some(v) => Some(v),
                None => old.db.value_of(column, key),
            }
    }

    /// Creates the index over the store `db`.
    pub fn new(db: Store) -> (r: Self)
        ensures
            r.db == db,
    {
        MappingDb { db }
    }

    /// Whether node block `block_hash` has been processed.
    pub fn is_synced(&self, block_hash: &H256) -> (r: Result<bool, StorageError>)
        ensures
            r == self.synced_spec(*block_hash),
    {
        let key = encode_felt(*block_hash);
        match self.db.get(Column::SyncedMapping, &key) {
            Some(raw) => match decode_bool(raw.as_slice()) {
                Some(b) => Ok(b),
                None => Err(StorageError::Codec),
            },
            None => Ok(false),
        }
    }

    /// The node blocks that carry the chain block `starknet_block_hash`.
    ///
    /// Under equivocation there are several: the caller picks the canonical one.
    pub fn substrate_block_hash(&self, starknet_block_hash: Felt) -> (r: Result<
        Option<Vec<H256>>,
        StorageError,
    >)
        ensures
            match r {
                Ok(Some(v)) => self.block_hashes_spec(starknet_block_hash) == Ok::<
                    Option<Seq<H256>>,
                    StorageError,
                >(Some(v@)),
                Ok(None) => self.block_hashes_spec(starknet_block_hash) == Ok::<
                    Option<Seq<H256>>,
                    StorageError,
                >(None),
                Err(e) => self.block_hashes_spec(starknet_block_hash) == Err::<
                    Option<Seq<H256>>,
                    StorageError,
                >(e),
            },
    {
        let key = encode_felt(starknet_block_hash);
        match self.db.get(Column::BlockMapping, &key) {
            Some(raw) => match decode_felts(raw.as_slice()) {
                Some(v) => Ok(Some(v)),
                None => Err(StorageError::Codec),
            },
            None => Ok(None),
        }
    }

    /// Records that node block `block_hash` was processed and carried no chain block.
    pub fn write_none(&mut self, block_hash: H256)
        ensures
            final(self).synced_spec(block_hash) == Ok::<bool, StorageError>(true),
            forall|column: Column, key: Seq<u8>|
                !(column == Column::SyncedMapping && key == enc_felt(block_hash))
                    ==> #[trigger] final(self).db.value_of(column, key) == old(self).db.value_of(
                    column,
                    key,
                ),
    {
        let key = encode_felt(block_hash);
        let value = encode_bool(true);
        self.db.put(Column::SyncedMapping, key, value);
        proof {
            lemma_bool_round_trip(true);
        }
    }

    /// Writes the whole mapping of a processed block in one batch.
    ///
    /// The node block is appended to the list of its chain block hash, marked
    /// processed, and set as the block of each transaction; the transactions
    /// and the two-way index between height and hash are recorded. On an error
    /// nothing is written.
    pub fn write_hashes(&mut self, commitment: MappingCommitment) -> (r: Result<(), StorageError>)
        ensures
            match old(self).block_hashes_spec(commitment.starknet_block_hash) {
                Err(e) => r == Err::<(), StorageError>(e),
                Ok(l) => {
                    if commitment.starknet_transaction_hashes@.len() > u32::MAX
                        || old(self).extended_hashes(commitment).len() > u32::MAX {
                        r == Err::<(), StorageError>(StorageError::Capacity)
                    } else {
                        r is Ok
                    }
                },
            },
            r is Ok ==> final(self).committed_from(old(self), commitment),
            r is Err ==> *final(self) == *old(self),
    {
        let hashes = match self.substrate_block_hash(commitment.starknet_block_hash) {
            Err(e) => return Err(e),
            Ok(Some(l)) => {
                let mut l = l;
                l.push(commitment.block_hash);
                l
            },
            Ok(None) => {
                let mut l: Vec<H256> = Vec::new();
                l.push(commitment.block_hash);
                l
            },
        };
        proof {
            assert(hashes@ =~= old(self).extended_hashes(commitment));
        }
        let txs = &commitment.starknet_transaction_hashes;
        if txs.len() > 0xFFFF_FFFF || hashes.len() > 0xFFFF_FFFF {
            return Err(StorageError::Capacity);
        }
        let ghost hs = hashes@;
        let ghost c = commitment;
        let mut batch = WriteBatch::new();
        let block_key = encode_felt(commitment.block_hash);
        let mut i: usize = 0;
        while i < txs.len()
            invariant
                i <= txs@.len(),
                commitment == c,
                txs@ == c.starknet_transaction_hashes@,
                block_key@ == enc_felt(c.block_hash),
                forall|column: Column, key: Seq<u8>|
                    #[trigger] lookup(batch.ops@, column, key) == if column
                        == Column::TransactionMapping && exists|j: int|
                        0 <= j < i && key == #[trigger] enc_felt(txs@[j]) {
                        Some(enc_felt(c.block_hash))
                    } else {
                        None
                    },
            decreases txs@.len() - i,
        {
            let tx_key = encode_felt(txs[i]);
            let value = encode_felt(commitment.block_hash);
            let ghost prev = batch.ops@;
            batch.put(Column::TransactionMapping, tx_key, value);
            proof {
                assert forall|column: Column, key: Seq<u8>|
                    #[trigger] lookup(batch.ops@, column, key) == if column
                        == Column::TransactionMapping && exists|j: int|
                        0 <= j < i + 1 && key == #[trigger] enc_felt(txs@[j]) {
                        Some(enc_felt(c.block_hash))
                    } else {
                        None
                    } by {
                    lemma_lookup_push(batch.ops@, prev, column, key);
                    if column == Column::TransactionMapping && key == enc_felt(txs@[i as int]) {
                        assert(exists|j: int| 0 <= j < i + 1 && key == #[trigger] enc_felt(txs@[j]));
                    } else if column == Column::TransactionMapping && exists|j: int|
                        0 <= j < i + 1 && key == #[trigger] enc_felt(txs@[j]) {
                        let j = choose|j: int| 0 <= j < i + 1 && key == #[trigger] enc_felt(txs@[j]);
                        assert(j < i);
                    }
                }
            }
            i = i + 1;
        }
        let chain_key = encode_felt(commitment.starknet_block_hash);
        let ghost o0 = batch.ops@;
        batch.put(Column::BlockMapping, copy_key(&chain_key), encode_felts(&hashes));
        let ghost o1 = batch.ops@;
        batch.put(Column::SyncedMapping, block_key, encode_bool(true));
        let ghost o2 = batch.ops@;
        batch.put(Column::StarknetTransactionHashesMapping, copy_key(&chain_key), encode_felts(txs));
        let ghost o3 = batch.ops@;
        batch.put(
            Column::StarknetBlockHashesMapping,
            encode_u64(commitment.block_number),
            encode_felt(commitment.starknet_block_hash),
        );
        let ghost o4 = batch.ops@;
        batch.put(Column::StarknetBlockNumberMapping, chain_key, encode_u64(commitment.block_number));
        let ghost ops = batch.ops@;
        proof {
            assert forall|column: Column, key: Seq<u8>|
                #[trigger] lookup(ops, column, key) == commit_value(c, hs, column, key) by {
                lemma_lookup_push(ops, o4, column, key);
                lemma_lookup_push(o4, o3, column, key);
                lemma_lookup_push(o3, o2, column, key);
                lemma_lookup_push(o2, o1, column, key);
                lemma_lookup_push(o1, o0, column, key);
                assert(lookup(o0, column, key) == if column == Column::TransactionMapping && exists|
                    j: int,
                | 0 <= j < txs@.len() && key == #[trigger] enc_felt(txs@[j]) {
                    Some(enc_felt(c.block_hash))
                } else {
                    None
                });
            }
        }
        let ghost before = self.db.log@;
        self.db.write(batch);
        proof {
            assert forall|column: Column, key: Seq<u8>|
                #[trigger] self.db.value_of(column, key) == match commit_value(c, hs, column, key) {
                    Some(v) => Some(v),
                    None => old(self).db.value_of(column, key),
                } by {
                lemma_lookup_append(before, ops, column, key);
            }
        }
        Ok(())
    }

    /// The node block that holds transaction `transaction_hash`.
    pub fn substrate_block_hash_from_transaction_hash(&self, transaction_hash: Felt) -> (r: Result<
        Option<H256>,
        StorageError,
    >)
        ensures
            r == self.tx_block_spec(transaction_hash),
    {
        let key = encode_felt(transaction_hash);
        match self.db.get(Column::TransactionMapping, &key) {
            Some(raw) => match decode_felt(raw.as_slice()) {
                Some(v) => Ok(Some(v)),
                None => Err(StorageError::Codec),
            },
            None => Ok(None),
        }
    }

    /// The transactions of chain block `starknet_block_hash`, in block order.
    pub fn transaction_hashes_from_block_hash(&self, starknet_block_hash: Felt) -> (r: Result<
        Option<Vec<Felt>>,
        StorageError,
    >)
        ensures
            match r {
                Ok(Some(v)) => self.tx_hashes_spec(starknet_block_hash) == Ok::<
                    Option<Seq<Felt>>,
                    StorageError,
                >(Some(v@)),
                Ok(None) => self.tx_hashes_spec(starknet_block_hash) == Ok::<
                    Option<Seq<Felt>>,
                    StorageError,
                >(None),
                Err(e) => self.tx_hashes_spec(starknet_block_hash) == Err::<
                    Option<Seq<Felt>>,
                    StorageError,
                >(e),
            },
    {
        let key = encode_felt(starknet_block_hash);
        match self.db.get(Column::StarknetTransactionHashesMapping, &key) {
            Some(raw) => match decode_felts(raw.as_slice()) {
                Some(v) => Ok(Some(v)),
                None => Err(StorageError::Codec),
            },
            None => Ok(None),
        }
    }

    /// The chain block hash at height `block_number`.
    pub fn starknet_block_hash_from_block_number(&self, block_number: u64) -> (r: Result<
        Option<Felt>,
        StorageError,
    >)
        ensures
            r == self.block_hash_spec(block_number),
    {
        let key = encode_u64(block_number);
        match self.db.get(Column::StarknetBlockHashesMapping, &key) {
            Some(raw) => match decode_felt(raw.as_slice()) {
                Some(v) => Ok(Some(v)),
                None => Err(StorageError::Codec),
            },
            None => Ok(None),
        }
    }

    /// The height of chain block `starknet_block_hash`.
    pub fn block_number_from_starknet_block_hash(&self, starknet_block_hash: Felt) -> (r: Result<
        Option<u64>,
        StorageError,
    >)
        ensures
            r == self.block_number_spec(starknet_block_hash),
    {
        let key = encode_felt(starknet_block_hash);
        match self.db.get(Column::StarknetBlockNumberMapping, &key) {
            Some(raw) => match decode_u64(raw.as_slice()) {
                Some(v) => Ok(Some(v)),
                None => Err(StorageError::Codec),
            },
            None => Ok(None),
        }
    }
}

/// After a block's mapping is written, all five of its effects are seen
/// together: the block is processed, it ends the list of its chain block
/// hash, each transaction leads to it, the chain block lists its
/// transactions, and height and hash lead to each other.
pub proof fn lemma_mapping_effects(old: MappingDb, new: MappingDb, c: MappingCommitment)
    requires
        new.committed_from(&old, c),
        c.starknet_transaction_hashes@.len() <= u32::MAX,
        old.extended_hashes(c).len() <= u32::MAX,
    ensures
        new.synced_spec(c.block_hash) == Ok::<bool, StorageError>(true),
        new.block_hashes_spec(c.starknet_block_hash) == Ok::<Option<Seq<H256>>, StorageError>(
            Some(old.extended_hashes(c)),
        ),
        forall|j: int|
            0 <= j < c.starknet_transaction_hashes@.len() ==> #[trigger] new.tx_block_spec(
                c.starknet_transaction_hashes@[j],
            ) == Ok::<Option<H256>, StorageError>(Some(c.block_hash)),
        new.tx_hashes_spec(c.starknet_block_hash) == Ok::<Option<Seq<Felt>>, StorageError>(
            Some(c.starknet_transaction_hashes@),
        ),
        new.block_hash_spec(c.block_number) == Ok::<Option<Felt>, StorageError>(
            Some(c.starknet_block_hash),
        ),
        new.block_number_spec(c.starknet_block_hash) == Ok::<Option<u64>, StorageError>(
            Some(c.block_number),
        ),
{
    let ch = c.starknet_block_hash;
    let txs = c.starknet_transaction_hashes@;
    assert(new.db.value_of(Column::SyncedMapping, enc_felt(c.block_hash)) == Some(enc_bool(true)));
    lemma_bool_round_trip(true);
    assert(new.db.value_of(Column::BlockMapping, enc_felt(ch)) == Some(
        enc_felts(old.extended_hashes(c)),
    ));
    lemma_felts_round_trip(old.extended_hashes(c));
    assert forall|j: int| 0 <= j < txs.len() implies #[trigger] new.tx_block_spec(txs[j]) == Ok::<
        Option<H256>,
        StorageError,
    >(Some(c.block_hash)) by {
        assert(new.db.value_of(Column::TransactionMapping, enc_felt(txs[j])) == Some(
            enc_felt(c.block_hash),
        ));
        lemma_felt_round_trip(c.block_hash);
    }
    assert(new.db.value_of(Column::StarknetTransactionHashesMapping, enc_felt(ch)) == Some(
        enc_felts(txs),
    ));
    lemma_felts_round_trip(txs);
    assert(new.db.value_of(Column::StarknetBlockHashesMapping, enc_u64(c.block_number)) == Some(
        enc_felt(ch),
    ));
    lemma_felt_round_trip(ch);
    assert(new.db.value_of(Column::StarknetBlockNumberMapping, enc_felt(ch)) == Some(
        enc_u64(c.block_number),
    ));
    lemma_u64_round_trip(c.block_number);
}

/// Two node blocks that claim the same chain block hash are both listed
/// under it, in the order they were written.
pub proof fn lemma_equivocation(
    s0: MappingDb,
    s1: MappingDb,
    s2: MappingDb,
    c1: MappingCommitment,
    c2: MappingCommitment,
)
    requires
        s1.committed_from(&s0, c1),
        s2.committed_from(&s1, c2),
        c1.starknet_block_hash == c2.starknet_block_hash,
        c1.starknet_transaction_hashes@.len() <= u32::MAX,
        s0.extended_hashes(c1).len() < u32::MAX,
    ensures
        s2.block_hashes_spec(c2.starknet_block_hash) == Ok::<Option<Seq<H256>>, StorageError>(
            Some(s0.extended_hashes(c1).push(c2.block_hash)),
        ),
{
    lemma_mapping_effects(s0, s1, c1);
    let l = s1.extended_hashes(c2);
    assert(l == s0.extended_hashes(c1).push(c2.block_hash));
    assert(s2.db.value_of(Column::BlockMapping, enc_felt(c2.starknet_block_hash)) == Some(
        enc_felts(l),
    ));
    lemma_felts_round_trip(l);
}

fn copy_key(k: &Vec<u8>) -> (r: Vec<u8>)
    ensures
        r@ == k@,
{
    crate::store::copy_bytes(k)
}

} // verus!
