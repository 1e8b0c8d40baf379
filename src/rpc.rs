//! The decisions that the query interface takes over the stored state.
use vstd::prelude::*;

use crate::codec::{dec_felt, enc_felt};
use crate::errors::StarknetRpcApiError;
use crate::felt::{Felt, H256};
use crate::mapping::MappingDb;
use crate::pipeline::{StateMaps, storage_key, zero_felt};
use crate::store::StorageError;

verus! {

/// The value of a storage slot as the query interface answers it: an error if
/// no contract is deployed at the address as of the block, zero for a slot
/// never written, and an internal error if the stored value is corrupt.
pub fn get_storage_at(maps: &StateMaps, contract_address: Felt, key: Felt, block_number: u64) -> (r: Result<
    Felt,
    StarknetRpcApiError,
>)
    ensures
        maps.contract_class_hash.get_spec(enc_felt(contract_address), block_number) is None ==> r
            == Err::<Felt, StarknetRpcApiError>(StarknetRpcApiError::ContractNotFound),
        maps.contract_class_hash.get_spec(enc_felt(contract_address), block_number) is Some ==> match maps.contract_storage.get_spec(
            storage_key(contract_address, key),
            block_number,
        ) {
            None => r == Ok::<Felt, StarknetRpcApiError>(zero_felt()),
            Some(b) => match dec_felt(b) {
                Some(v) => r == Ok::<Felt, StarknetRpcApiError>(v),
                None => r == Err::<Felt, StarknetRpcApiError>(StarknetRpcApiError::InternalServerError),
            },
        },
{
    if !maps.is_contract_deployed_at(contract_address, block_number) {
        return Err(StarknetRpcApiError::ContractNotFound);
    }
    match maps.get_storage_at(contract_address, key, block_number) {
        Ok(v) => Ok(v),
        Err(_) => Err(StarknetRpcApiError::InternalServerError),
    }
}

/// Whether node block `target_hash` is on the canonical chain, given the
/// canonical block at its height, if the chain has one.
pub fn is_canon(target_hash: H256, canonical_at_height: Option<H256>) -> (r: bool)
    ensures
        r == (canonical_at_height == Some(target_hash)),
{
    match canonical_at_height {
        Some(hash) => hash == target_hash,
        None => false,
    }
}

/// The canonical node block that carries chain block `hash`: the first of
/// the blocks listed for it for which `is_canon` answers true.
pub fn load_hash<F: Fn(H256) -> bool>(db: &MappingDb, hash: Felt, is_canon: F) -> (r: Result<
    Option<H256>,
    StorageError,
>)
    requires
        forall|h: H256| is_canon.requires((h,)),
    ensures
        match db.block_hashes_spec(hash) {
            Err(e) => r == Err::<Option<H256>, StorageError>(e),
            Ok(None) => r == Ok::<Option<H256>, StorageError>(None),
            Ok(Some(l)) => match r {
                Ok(Some(h)) => exists|i: int|
                    0 <= i < l.len() && l[i] == h && is_canon.ensures((h,), true) && forall|j: int|
                        0 <= j < i ==> is_canon.ensures((#[trigger] l[j],), false),
                Ok(None) => forall|j: int| 0 <= j < l.len() ==> is_canon.ensures((#[trigger] l[j],), false),
                Err(_) => false,
            },
        },
{
    let candidates = match db.substrate_block_hash(hash) {
        Err(e) => return Err(e),
        Ok(None) => return Ok(None),
        Ok(Some(v)) => v,
    };
    let mut i: usize = 0;
    while i < candidates.len()
        invariant
            i <= candidates@.len(),
            db.block_hashes_spec(hash) == Ok::<Option<Seq<H256>>, StorageError>(Some(candidates@)),
            forall|h: H256| is_canon.requires((h,)),
            forall|j: int| 0 <= j < i ==> is_canon.ensures((#[trigger] candidates@[j],), false),
        decreases candidates@.len() - i,
    {
        let c = candidates[i];
        if is_canon(c) {
            assert(candidates@[i as int] == c);
            return Ok(Some(c));
        }
        i = i + 1;
    }
    Ok(None)
}

} // verus!
