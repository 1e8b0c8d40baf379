//! Applying one block's state diff to the versioned state maps.
//!
//! Deployed and replaced contracts set class hashes, with a zero nonce for a
//! deployed contract that the diff gives no nonce; explicit nonces, declared
//! classes, storage slots and class data follow. Each map commits its writes
//! at the block's number. A block whose number is below a map's latest commit
//! is refused before anything is written.
use vstd::prelude::*;

use crate::codec::{dec_felt, enc_felt, encode_felt, lemma_felt_round_trip};
use crate::commitment::DeclaredClass;
use crate::felt::{Felt, H256};
use crate::mapping::{MappingCommitment, MappingDb};
use crate::store::{StorageError, copy_bytes};
use crate::versioned::{VersionedMap, read_after_commit, staged_value};

verus! {

/// A contract deployed in the block, with its class.
#[derive(Clone, Copy, Debug, PartialEq, Eq, Structural)]
pub struct DeployedContract {
    pub address: Felt,
    pub class_hash: Felt,
}

/// A contract whose class was replaced in the block.
#[derive(Clone, Copy, Debug, PartialEq, Eq, Structural)]
pub struct ReplacedClass {
    pub contract_address: Felt,
    pub class_hash: Felt,
}

/// The nonce of a contract after the block.
#[derive(Clone, Copy, Debug, PartialEq, Eq, Structural)]
pub struct NonceUpdate {
    pub contract_address: Felt,
    pub nonce: Felt,
}

/// A storage slot written in the block.
#[derive(Clone, Copy, Debug, PartialEq, Eq, Structural)]
pub struct StorageEntry {
    pub key: Felt,
    pub value: Felt,
}

/// The storage slots of one contract written in the block, in diff order.
#[derive(Clone, Debug)]
pub struct ContractStorageDiff {
    pub address: Felt,
    pub storage_entries: Vec<StorageEntry>,
}

/// What a block changed in the state.
#[derive(Clone, Debug)]
pub struct StateDiff {
    pub deployed_contracts: Vec<DeployedContract>,
    pub replaced_classes: Vec<ReplacedClass>,
    pub nonces: Vec<NonceUpdate>,
    pub declared_classes: Vec<DeclaredClass>,
    pub storage_diffs: Vec<ContractStorageDiff>,
}

/// The raw definition of a class declared in the block.
#[derive(Clone, Debug)]
pub struct ClassData {
    pub hash: Felt,
    pub contract_class: Vec<u8>,
}

/// The versioned maps of the chain state.
pub struct StateMaps {
    /// Contract address to class hash.
    pub contract_class_hash: VersionedMap,
    /// Contract address to nonce.
    pub contract_nonces: VersionedMap,
    /// Class hash to compiled class hash.
    pub contract_class_hashes: VersionedMap,
    /// Contract address and storage key to storage value.
    pub contract_storage: VersionedMap,
    /// Class hash to class definition.
    pub contract_class_data: VersionedMap,
    /// Each block's state diff as it was applied, with the block's number.
    pub block_state_diffs: Vec<(u64, StateDiff)>,
}

/// The diff archived last under block number `b` among the first `i` entries.
pub open spec fn archived_diff(a: Seq<(u64, StateDiff)>, i: int, b: u64) -> Option<StateDiff>
    decreases i,
{
    if i <= 0 {
        None
    } else if a[i - 1].0 == b {
        Some(a[i - 1].1)
    } else {
        archived_diff(a, i - 1, b)
    }
}

pub open spec fn zero_felt() -> Felt {
    Felt { hi: 0, lo: 0 }
}

/// The key of a storage slot: the contract address, then the slot key.
pub open spec fn storage_key(address: Felt, key: Felt) -> Seq<u8> {
    enc_felt(address) + enc_felt(key)
}

/// The class hash written for key `k` by the first `i` deployments.
pub open spec fn deployed_write(d: Seq<DeployedContract>, i: int, k: Seq<u8>) -> Option<Seq<u8>>
    decreases i,
{
    if i <= 0 {
        None
    } else if enc_felt(d[i - 1].address) == k {
        Some(enc_felt(d[i - 1].class_hash))
    } else {
        deployed_write(d, i - 1, k)
    }
}

/// The class hash written for key `k` by the first `i` replacements.
pub open spec fn replaced_write(r: Seq<ReplacedClass>, i: int, k: Seq<u8>) -> Option<Seq<u8>>
    decreases i,
{
    if i <= 0 {
        None
    } else if enc_felt(r[i - 1].contract_address) == k {
        Some(enc_felt(r[i - 1].class_hash))
    } else {
        replaced_write(r, i - 1, k)
    }
}

/// The nonce written for key `k` by the first `i` nonce updates.
pub open spec fn explicit_write(ns: Seq<NonceUpdate>, i: int, k: Seq<u8>) -> Option<Seq<u8>>
    decreases i,
{
    if i <= 0 {
        None
    } else if enc_felt(ns[i - 1].contract_address) == k {
        Some(enc_felt(ns[i - 1].nonce))
    } else {
        explicit_write(ns, i - 1, k)
    }
}

/// Whether the diff gives a nonce for the contract at `a`.
pub open spec fn has_explicit_nonce(ns: Seq<NonceUpdate>, a: Felt) -> bool {
    exists|j: int| 0 <= j < ns.len() && #[trigger] ns[j].contract_address == a
}

/// The zero nonce written for key `k` by the first `i` deployments, for
/// contracts that the diff gives no nonce.
pub open spec fn default_write(d: Seq<DeployedContract>, ns: Seq<NonceUpdate>, i: int, k: Seq<u8>) -> Option<
    Seq<u8>,
>
    decreases i,
{
    if i <= 0 {
        None
    } else if enc_felt(d[i - 1].address) == k && !has_explicit_nonce(ns, d[i - 1].address) {
        Some(enc_felt(zero_felt()))
    } else {
        default_write(d, ns, i - 1, k)
    }
}

/// The compiled class hash written for key `k` by the first `i` declarations.
pub open spec fn declared_write(cs: Seq<DeclaredClass>, i: int, k: Seq<u8>) -> Option<Seq<u8>>
    decreases i,
{
    if i <= 0 {
        None
    } else if enc_felt(cs[i - 1].class_hash) == k {
        Some(enc_felt(cs[i - 1].compiled_class_hash))
    } else {
        declared_write(cs, i - 1, k)
    }
}

/// The class hash that the diff sets for key `k`: replacements follow
/// deployments.
pub open spec fn class_write(diff: StateDiff, k: Seq<u8>) -> Option<Seq<u8>> {
    match replaced_write(diff.replaced_classes@, diff.replaced_classes@.len() as int, k) {
        Some(v) => Some(v),
        None => deployed_write(diff.deployed_contracts@, diff.deployed_contracts@.len() as int, k),
    }
}

/// The nonce that the diff sets for key `k`: its own nonce, or zero for a
/// deployed contract without one.
pub open spec fn nonce_write(diff: StateDiff, k: Seq<u8>) -> Option<Seq<u8>> {
    match explicit_write(diff.nonces@, diff.nonces@.len() as int, k) {
        Some(v) => Some(v),
        None => default_write(
            diff.deployed_contracts@,
            diff.nonces@,
            diff.deployed_contracts@.len() as int,
            k,
        ),
    }
}

pub open spec fn compiled_write(diff: StateDiff, k: Seq<u8>) -> Option<Seq<u8>> {
    declared_write(diff.declared_classes@, diff.declared_classes@.len() as int, k)
}

/// The value written for key `k` by the first `j` entries of one contract.
pub open spec fn entries_write(address: Felt, es: Seq<StorageEntry>, j: int, k: Seq<u8>) -> Option<
    Seq<u8>,
>
    decreases j,
{
    if j <= 0 {
        None
    } else if storage_key(address, es[j - 1].key) == k {
        Some(enc_felt(es[j - 1].value))
    } else {
        entries_write(address, es, j - 1, k)
    }
}

/// The value written for key `k` by the first `i` contracts' storage diffs.
pub open spec fn storage_write(diffs: Seq<ContractStorageDiff>, i: int, k: Seq<u8>) -> Option<Seq<u8>>
    decreases i,
{
    if i <= 0 {
        None
    } else {
        match entries_write(
            diffs[i - 1].address,
            diffs[i - 1].storage_entries@,
            diffs[i - 1].storage_entries@.len() as int,
            k,
        ) {
            Some(v) => Some(v),
            None => storage_write(diffs, i - 1, k),
        }
    }
}

/// The definition written for key `k` by the first `i` classes.
pub open spec fn class_data_write(cs: Seq<ClassData>, i: int, k: Seq<u8>) -> Option<Seq<u8>>
    decreases i,
{
    if i <= 0 {
        None
    } else if enc_felt(cs[i - 1].hash) == k {
        Some(cs[i - 1].contract_class@)
    } else {
        class_data_write(cs, i - 1, k)
    }
}

/// Map `m` reads as `old` with the writes `w` committed at block `b`.
pub open spec fn applied(
    m: VersionedMap,
    old: VersionedMap,
    w: spec_fn(Seq<u8>) -> Option<Seq<u8>>,
    b: u64,
) -> bool {
    &&& m.wf()
    &&& m.pending@.len() == 0
    &&& forall|k: Seq<u8>, n: u64|
        #[trigger] m.get_spec(k, n) == if b <= n && w(k) is Some {
            w(k)
        } else {
            old.get_spec(k, n)
        }
}

/// A map accepts a commit at block `b`.
pub open spec fn accepts(m: VersionedMap, b: u64) -> bool {
    match m.last_block() {
        Some(l) => l <= b,
        None => true,
    }
}

pub proof fn lemma_enc_felt_injective(a: Felt, b: Felt)
    ensures
        (enc_felt(a) == enc_felt(b)) == (a == b),
{
    lemma_felt_round_trip(a);
    lemma_felt_round_trip(b);
}

/// Commits the staged writes of `m`, whose staged values are those of `w`.
fn commit_writes(
    m: &mut VersionedMap,
    b: u64,
    Ghost(w): Ghost<spec_fn(Seq<u8>) -> Option<Seq<u8>>>,
    Ghost(before): Ghost<VersionedMap>,
)
    requires
        old(m).wf(),
        accepts(*old(m), b),
        old(m).history@ == before.history@,
        forall|k: Seq<u8>| #[trigger] staged_value(old(m).pending@, k) == w(k),
    ensures
        applied(*final(m), before, w, b),
{
    let r = m.commit(b);
    assert(r is Ok);
    assert forall|k: Seq<u8>, n: u64| #[trigger] m.get_spec(k, n) == if b <= n && w(k) is Some {
        w(k)
    } else {
        before.get_spec(k, n)
    } by {
        assert(m.get_spec(k, n) == read_after_commit(old(m).get_spec(k, n), old(m).pending@, b, k, n));
    }
}

impl StateMaps {
    pub open spec fn wf(&self) -> bool {
        &&& self.contract_class_hash.wf() && self.contract_class_hash.pending@.len() == 0
        &&& self.contract_nonces.wf() && self.contract_nonces.pending@.len() == 0
        &&& self.contract_class_hashes.wf() && self.contract_class_hashes.pending@.len() == 0
        &&& self.contract_storage.wf() && self.contract_storage.pending@.len() == 0
        &&& self.contract_class_data.wf() && self.contract_class_data.pending@.len() == 0
    }

    pub fn new() -> (r: StateMaps)
        ensures
            r.wf(),
            r.contract_class_hash.history@.len() == 0,
            r.contract_nonces.history@.len() == 0,
            r.contract_class_hashes.history@.len() == 0,
            r.contract_storage.history@.len() == 0,
            r.contract_class_data.history@.len() == 0,
            r.block_state_diffs@.len() == 0,
    {
        StateMaps {
            contract_class_hash: VersionedMap::new(),
            contract_nonces: VersionedMap::new(),
            contract_class_hashes: VersionedMap::new(),
            contract_storage: VersionedMap::new(),
            contract_class_data: VersionedMap::new(),
            block_state_diffs: Vec::new(),
        }
    }

    /// The state diff archived for block `block_number`, if any.
    pub fn block_state_diff(&self, block_number: u64) -> (r: Option<&StateDiff>)
        ensures
            match r {
                Some(d) => archived_diff(
                    self.block_state_diffs@,
                    self.block_state_diffs@.len() as int,
                    block_number,
                ) == Some(*d),
                None => archived_diff(
                    self.block_state_diffs@,
                    self.block_state_diffs@.len() as int,
                    block_number,
                ) is None,
            },
    {
        let mut i: usize = self.block_state_diffs.len();
        while i > 0
            invariant
                i <= self.block_state_diffs@.len(),
                archived_diff(
                    self.block_state_diffs@,
                    self.block_state_diffs@.len() as int,
                    block_number,
                ) == archived_diff(self.block_state_diffs@, i as int, block_number),
            decreases i,
        {
            if self.block_state_diffs[i - 1].0 == block_number {
                return Some(&self.block_state_diffs[i - 1].1);
            }
            i = i - 1;
        }
        None
    }

    /// Whether a contract is deployed at `address` as of block `block_number`:
    /// whether its class hash has an entry at or before it.
    pub fn is_contract_deployed_at(&self, address: Felt, block_number: u64) -> (r: bool)
        ensures
            r == self.contract_class_hash.get_spec(enc_felt(address), block_number) is Some,
    {
        self.contract_class_hash.contains_at(&encode_felt(address), block_number)
    }

    /// The value of a storage slot as of block `block_number`; zero where the
    /// slot was never written.
    pub fn get_storage_at(&self, address: Felt, key: Felt, block_number: u64) -> (r: Result<
        Felt,
        StorageError,
    >)
        ensures
            match self.contract_storage.get_spec(storage_key(address, key), block_number) {
                None => r == Ok::<Felt, StorageError>(zero_felt()),
                Some(b) => match dec_felt(b) {
                    Some(v) => r == Ok::<Felt, StorageError>(v),
                    None => r == Err::<Felt, StorageError>(StorageError::Codec),
                },
            },
    {
        let mut k = encode_felt(address);
        let mut kk = encode_felt(key);
        k.append(&mut kk);
        assert(k@ == storage_key(address, key));
        match self.contract_storage.get_at(&k, block_number) {
            None => Ok(Felt::zero()),
            Some(raw) => match crate::codec::decode_felt(raw.as_slice()) {
                Some(v) => Ok(v),
                None => Err(StorageError::Codec),
            },
        }
    }
}

/// Whether the diff gives a nonce for the contract at `a`.
fn has_nonce(nonces: &Vec<NonceUpdate>, a: Felt) -> (r: bool)
    ensures
        r == has_explicit_nonce(nonces@, a),
{
    let mut i: usize = 0;
    while i < nonces.len()
        invariant
            i <= nonces@.len(),
            forall|j: int| 0 <= j < i ==> #[trigger] nonces@[j].contract_address != a,
        decreases nonces@.len() - i,
    {
        if nonces[i].contract_address == a {
            return true;
        }
        i = i + 1;
    }
    false
}

/// Applies the class hashes, nonces and compiled class hashes of a block's
/// state diff and commits them at `block_number`.
///
/// A deployed contract that the diff gives no nonce gets nonce zero; a
/// replaced class gets none. If a map holds a commit above `block_number`,
/// nothing is written and the error is `Consistency`.
pub fn store_state_update(maps: &mut StateMaps, block_number: u64, state_update: StateDiff) -> (r: Result<
    (),
    StorageError,
>)
    requires
        old(maps).wf(),
    ensures
        final(maps).wf(),
        (accepts(old(maps).contract_class_hash, block_number) && accepts(
            old(maps).contract_nonces,
            block_number,
        ) && accepts(old(maps).contract_class_hashes, block_number)) <==> r is Ok,
        r is Err ==> r == Err::<(), StorageError>(StorageError::Consistency) && *final(maps) == *old(
            maps,
        ),
        r is Ok ==> applied(
            final(maps).contract_class_hash,
            old(maps).contract_class_hash,
            |k: Seq<u8>| class_write(state_update, k),
            block_number,
        ),
        r is Ok ==> applied(
            final(maps).contract_nonces,
            old(maps).contract_nonces,
            |k: Seq<u8>| nonce_write(state_update, k),
            block_number,
        ),
        r is Ok ==> applied(
            final(maps).contract_class_hashes,
            old(maps).contract_class_hashes,
            |k: Seq<u8>| compiled_write(state_update, k),
            block_number,
        ),
        r is Ok ==> final(maps).contract_storage == old(maps).contract_storage
            && final(maps).contract_class_data == old(maps).contract_class_data,
        r is Ok ==> final(maps).block_state_diffs@ == old(maps).block_state_diffs@.push(
            (block_number, state_update),
        ),
{
    if !accepts_exec(&maps.contract_class_hash, block_number) || !accepts_exec(
        &maps.contract_nonces,
        block_number,
    ) || !accepts_exec(&maps.contract_class_hashes, block_number) {
        return Err(StorageError::Consistency);
    }
    let ghost m0 = *maps;
    let d = &state_update.deployed_contracts;
    let ns = &state_update.nonces;
    let mut i: usize = 0;
    while i < d.len()
        invariant
            i <= d@.len(),
            d@ == state_update.deployed_contracts@,
            ns@ == state_update.nonces@,
            maps.contract_class_hash.history@ == m0.contract_class_hash.history@,
            maps.contract_nonces.history@ == m0.contract_nonces.history@,
            maps.contract_class_hashes == m0.contract_class_hashes,
            maps.contract_storage == m0.contract_storage,
            maps.contract_class_data == m0.contract_class_data,
            maps.block_state_diffs == m0.block_state_diffs,
            forall|k: Seq<u8>| #[trigger] staged_value(maps.contract_class_hash.pending@, k) == deployed_write(d@, i as int, k),
            forall|k: Seq<u8>| #[trigger] staged_value(maps.contract_nonces.pending@, k) == default_write(d@, ns@, i as int, k),
        decreases d@.len() - i,
    {
        let c = d[i];
        let ghost cp = maps.contract_class_hash.pending@;
        let ghost np = maps.contract_nonces.pending@;
        maps.contract_class_hash.insert_felt(c.address, c.class_hash);
        let explicit = has_nonce(ns, c.address);
        if !explicit {
            maps.contract_nonces.insert_felt(c.address, Felt::zero());
        }
        proof {
            assert forall|k: Seq<u8>| #[trigger] staged_value(maps.contract_class_hash.pending@, k)
                == deployed_write(d@, i + 1, k) by {
                assert(staged_value(cp, k) == deployed_write(d@, i as int, k));
            }
            assert forall|k: Seq<u8>| #[trigger] staged_value(maps.contract_nonces.pending@, k)
                == default_write(d@, ns@, i + 1, k) by {
                assert(staged_value(np, k) == default_write(d@, ns@, i as int, k));
            }
        }
        i = i + 1;
    }
    let rc = &state_update.replaced_classes;
    let mut i: usize = 0;
    while i < rc.len()
        invariant
            i <= rc@.len(),
            rc@ == state_update.replaced_classes@,
            d@ == state_update.deployed_contracts@,
            maps.contract_class_hash.history@ == m0.contract_class_hash.history@,
            maps.contract_nonces.history@ == m0.contract_nonces.history@,
            maps.contract_class_hashes == m0.contract_class_hashes,
            maps.contract_storage == m0.contract_storage,
            maps.contract_class_data == m0.contract_class_data,
            maps.block_state_diffs == m0.block_state_diffs,
            forall|k: Seq<u8>| #[trigger] staged_value(maps.contract_class_hash.pending@, k) == match replaced_write(rc@, i as int, k) {
                Some(v) => Some(v),
                None => deployed_write(d@, d@.len() as int, k),
            },
            forall|k: Seq<u8>| #[trigger] staged_value(maps.contract_nonces.pending@, k) == default_write(d@, ns@, d@.len() as int, k),
        decreases rc@.len() - i,
    {
        let c = rc[i];
        let ghost cp = maps.contract_class_hash.pending@;
        maps.contract_class_hash.insert_felt(c.contract_address, c.class_hash);
        proof {
            assert forall|k: Seq<u8>| #[trigger] staged_value(maps.contract_class_hash.pending@, k)
                == match replaced_write(rc@, i + 1, k) {
                Some(v) => Some(v),
                None => deployed_write(d@, d@.len() as int, k),
            } by {
                assert(staged_value(cp, k) == match replaced_write(rc@, i as int, k) {
                    Some(v) => Some(v),
                    None => deployed_write(d@, d@.len() as int, k),
                });
            }
        }
        i = i + 1;
    }
    let mut i: usize = 0;
    while i < ns.len()
        invariant
            i <= ns@.len(),
            ns@ == state_update.nonces@,
            d@ == state_update.deployed_contracts@,
            maps.contract_class_hash.history@ == m0.contract_class_hash.history@,
            maps.contract_nonces.history@ == m0.contract_nonces.history@,
            maps.contract_class_hashes == m0.contract_class_hashes,
            maps.contract_storage == m0.contract_storage,
            maps.contract_class_data == m0.contract_class_data,
            maps.block_state_diffs == m0.block_state_diffs,
            forall|k: Seq<u8>| #[trigger] staged_value(maps.contract_class_hash.pending@, k) == class_write(state_update, k),
            forall|k: Seq<u8>| #[trigger] staged_value(maps.contract_nonces.pending@, k) == match explicit_write(ns@, i as int, k) {
                Some(v) => Some(v),
                None => default_write(d@, ns@, d@.len() as int, k),
            },
        decreases ns@.len() - i,
    {
        let u = ns[i];
        let ghost np = maps.contract_nonces.pending@;
        maps.contract_nonces.insert_felt(u.contract_address, u.nonce);
        proof {
            assert forall|k: Seq<u8>| #[trigger] staged_value(maps.contract_nonces.pending@, k)
                == match explicit_write(ns@, i + 1, k) {
                Some(v) => Some(v),
                None => default_write(d@, ns@, d@.len() as int, k),
            } by {
                assert(staged_value(np, k) == match explicit_write(ns@, i as int, k) {
                    Some(v) => Some(v),
                    None => default_write(d@, ns@, d@.len() as int, k),
                });
            }
        }
        i = i + 1;
    }
    let cs = &state_update.declared_classes;
    let mut i: usize = 0;
    while i < cs.len()
        invariant
            i <= cs@.len(),
            cs@ == state_update.declared_classes@,
            maps.contract_class_hash.history@ == m0.contract_class_hash.history@,
            maps.contract_nonces.history@ == m0.contract_nonces.history@,
            maps.contract_class_hashes.history@ == m0.contract_class_hashes.history@,
            maps.contract_storage == m0.contract_storage,
            maps.contract_class_data == m0.contract_class_data,
            maps.block_state_diffs == m0.block_state_diffs,
            forall|k: Seq<u8>| #[trigger] staged_value(maps.contract_class_hash.pending@, k) == class_write(state_update, k),
            forall|k: Seq<u8>| #[trigger] staged_value(maps.contract_nonces.pending@, k) == nonce_write(state_update, k),
            forall|k: Seq<u8>| #[trigger] staged_value(maps.contract_class_hashes.pending@, k) == declared_write(cs@, i as int, k),
        decreases cs@.len() - i,
    {
        let c = cs[i];
        let ghost cp = maps.contract_class_hashes.pending@;
        maps.contract_class_hashes.insert_felt(c.class_hash, c.compiled_class_hash);
        proof {
            assert forall|k: Seq<u8>| #[trigger] staged_value(maps.contract_class_hashes.pending@, k)
                == declared_write(cs@, i + 1, k) by {
                assert(staged_value(cp, k) == declared_write(cs@, i as int, k));
            }
        }
        i = i + 1;
    }
    commit_writes(
        &mut maps.contract_class_hash,
        block_number,
        Ghost(|k: Seq<u8>| class_write(state_update, k)),
        Ghost(m0.contract_class_hash),
    );
    commit_writes(
        &mut maps.contract_nonces,
        block_number,
        Ghost(|k: Seq<u8>| nonce_write(state_update, k)),
        Ghost(m0.contract_nonces),
    );
    commit_writes(
        &mut maps.contract_class_hashes,
        block_number,
        Ghost(|k: Seq<u8>| compiled_write(state_update, k)),
        Ghost(m0.contract_class_hashes),
    );
    maps.block_state_diffs.push((block_number, state_update));
    Ok(())
}

/// Applies the storage slots of a block and commits them at `block_number`.
///
/// The contracts' diffs are independent; within one contract the entries go
/// in diff order, so the last write to a slot wins.
pub fn store_key_update(maps: &mut StateMaps, block_number: u64, storage_diffs: &Vec<ContractStorageDiff>) -> (r: Result<
    (),
    StorageError,
>)
    requires
        old(maps).wf(),
    ensures
        final(maps).wf(),
        accepts(old(maps).contract_storage, block_number) <==> r is Ok,
        r is Err ==> r == Err::<(), StorageError>(StorageError::Consistency) && *final(maps) == *old(
            maps,
        ),
        r is Ok ==> applied(
            final(maps).contract_storage,
            old(maps).contract_storage,
            |k: Seq<u8>| storage_write(storage_diffs@, storage_diffs@.len() as int, k),
            block_number,
        ),
        r is Ok ==> final(maps).contract_class_hash == old(maps).contract_class_hash
            && final(maps).contract_nonces == old(maps).contract_nonces
            && final(maps).contract_class_hashes == old(maps).contract_class_hashes
            && final(maps).contract_class_data == old(maps).contract_class_data
            && final(maps).block_state_diffs == old(maps).block_state_diffs,
{
    if !accepts_exec(&maps.contract_storage, block_number) {
        return Err(StorageError::Consistency);
    }
    let ghost m0 = *maps;
    let mut i: usize = 0;
    while i < storage_diffs.len()
        invariant
            i <= storage_diffs@.len(),
            maps.contract_class_hash == m0.contract_class_hash,
            maps.contract_nonces == m0.contract_nonces,
            maps.contract_class_hashes == m0.contract_class_hashes,
            maps.contract_class_data == m0.contract_class_data,
            maps.block_state_diffs == m0.block_state_diffs,
            maps.contract_storage.history@ == m0.contract_storage.history@,
            forall|k: Seq<u8>| #[trigger] staged_value(maps.contract_storage.pending@, k) == storage_write(storage_diffs@, i as int, k),
        decreases storage_diffs@.len() - i,
    {
        let address = storage_diffs[i].address;
        let es = &storage_diffs[i].storage_entries;
        let mut j: usize = 0;
        while j < es.len()
            invariant
                i < storage_diffs@.len(),
                j <= es@.len(),
                es@ == storage_diffs@[i as int].storage_entries@,
                address == storage_diffs@[i as int].address,
                maps.contract_class_hash == m0.contract_class_hash,
                maps.contract_nonces == m0.contract_nonces,
                maps.contract_class_hashes == m0.contract_class_hashes,
                maps.contract_class_data == m0.contract_class_data,
                maps.block_state_diffs == m0.block_state_diffs,
                maps.contract_storage.history@ == m0.contract_storage.history@,
                forall|k: Seq<u8>| #[trigger] staged_value(maps.contract_storage.pending@, k) == match entries_write(address, es@, j as int, k) {
                    Some(v) => Some(v),
                    None => storage_write(storage_diffs@, i as int, k),
                },
            decreases es@.len() - j,
        {
            let e = es[j];
            let mut key = encode_felt(address);
            let mut slot = encode_felt(e.key);
            key.append(&mut slot);
            let ghost sp = maps.contract_storage.pending@;
            maps.contract_storage.insert(key, encode_felt(e.value));
            proof {
                assert forall|k: Seq<u8>| #[trigger] staged_value(maps.contract_storage.pending@, k)
                    == match entries_write(address, es@, j + 1, k) {
                    Some(v) => Some(v),
                    None => storage_write(storage_diffs@, i as int, k),
                } by {
                    assert(staged_value(sp, k) == match entries_write(address, es@, j as int, k) {
                        Some(v) => Some(v),
                        None => storage_write(storage_diffs@, i as int, k),
                    });
                }
            }
            j = j + 1;
        }
        proof {
            assert forall|k: Seq<u8>| #[trigger] staged_value(maps.contract_storage.pending@, k)
                == storage_write(storage_diffs@, i + 1, k) by {}
        }
        i = i + 1;
    }
    commit_writes(
        &mut maps.contract_storage,
        block_number,
        Ghost(|k: Seq<u8>| storage_write(storage_diffs@, storage_diffs@.len() as int, k)),
        Ghost(m0.contract_storage),
    );
    Ok(())
}

/// Stores the definitions of the classes declared in a block and commits
/// them at `block_number`.
pub fn store_class_update(maps: &mut StateMaps, block_number: u64, class_update: &Vec<ClassData>) -> (r: Result<
    (),
    StorageError,
>)
    requires
        old(maps).wf(),
    ensures
        final(maps).wf(),
        accepts(old(maps).contract_class_data, block_number) <==> r is Ok,
        r is Err ==> r == Err::<(), StorageError>(StorageError::Consistency) && *final(maps) == *old(
            maps,
        ),
        r is Ok ==> applied(
            final(maps).contract_class_data,
            old(maps).contract_class_data,
            |k: Seq<u8>| class_data_write(class_update@, class_update@.len() as int, k),
            block_number,
        ),
        r is Ok ==> final(maps).contract_class_hash == old(maps).contract_class_hash
            && final(maps).contract_nonces == old(maps).contract_nonces
            && final(maps).contract_class_hashes == old(maps).contract_class_hashes
            && final(maps).contract_storage == old(maps).contract_storage
            && final(maps).block_state_diffs == old(maps).block_state_diffs,
{
    if !accepts_exec(&maps.contract_class_data, block_number) {
        return Err(StorageError::Consistency);
    }
    let ghost m0 = *maps;
    let mut i: usize = 0;
    while i < class_update.len()
        invariant
            i <= class_update@.len(),
            maps.contract_class_hash == m0.contract_class_hash,
            maps.contract_nonces == m0.contract_nonces,
            maps.contract_class_hashes == m0.contract_class_hashes,
            maps.contract_storage == m0.contract_storage,
            maps.block_state_diffs == m0.block_state_diffs,
            maps.contract_class_data.history@ == m0.contract_class_data.history@,
            forall|k: Seq<u8>| #[trigger] staged_value(maps.contract_class_data.pending@, k) == class_data_write(class_update@, i as int, k),
        decreases class_update@.len() - i,
    {
        let c = &class_update[i];
        let ghost cp = maps.contract_class_data.pending@;
        maps.contract_class_data.insert(encode_felt(c.hash), copy_bytes(&c.contract_class));
        proof {
            assert forall|k: Seq<u8>| #[trigger] staged_value(maps.contract_class_data.pending@, k)
                == class_data_write(class_update@, i + 1, k) by {
                assert(staged_value(cp, k) == class_data_write(class_update@, i as int, k));
            }
        }
        i = i + 1;
    }
    commit_writes(
        &mut maps.contract_class_data,
        block_number,
        Ghost(|k: Seq<u8>| class_data_write(class_update@, class_update@.len() as int, k)),
        Ghost(m0.contract_class_data),
    );
    Ok(())
}

/// The mapping of a processed block.
pub open spec fn mapping_of(
    block_number: u64,
    starknet_block_hash: Felt,
    substrate_block_hash: H256,
    starknet_transaction_hashes: Vec<Felt>,
) -> MappingCommitment {
    MappingCommitment {
        block_number,
        block_hash: substrate_block_hash,
        starknet_block_hash,
        starknet_transaction_hashes,
    }
}

/// Records the mapping of a processed block in one batch.
pub fn store_mapping(
    mapping: &mut MappingDb,
    block_number: u64,
    starknet_block_hash: Felt,
    substrate_block_hash: H256,
    starknet_transaction_hashes: Vec<Felt>,
) -> (r: Result<(), StorageError>)
    ensures
        match old(mapping).block_hashes_spec(starknet_block_hash) {
            Err(e) => r == Err::<(), StorageError>(e),
            Ok(l) => {
                if starknet_transaction_hashes@.len() > u32::MAX || old(mapping).extended_hashes(
                    mapping_of(
                        block_number,
                        starknet_block_hash,
                        substrate_block_hash,
                        starknet_transaction_hashes,
                    ),
                ).len() > u32::MAX {
                    r == Err::<(), StorageError>(StorageError::Capacity)
                } else {
                    r is Ok
                }
            },
        },
        r is Ok ==> final(mapping).committed_from(
            old(mapping),
            mapping_of(block_number, starknet_block_hash, substrate_block_hash, starknet_transaction_hashes),
        ),
        r is Err ==> *final(mapping) == *old(mapping),
{
    let mapping_commitment = MappingCommitment {
        block_number,
        block_hash: substrate_block_hash,
        starknet_block_hash,
        starknet_transaction_hashes,
    };
    mapping.write_hashes(mapping_commitment)
}

/// A contract deployed by a diff that gives it no nonce reads nonce zero
/// from the diff's block on; a contract that the diff neither deploys nor
/// gives a nonce, such as one whose class is only replaced, keeps the nonce
/// it had.
pub proof fn lemma_default_nonce(before: VersionedMap, after: VersionedMap, diff: StateDiff, b: u64, a: Felt, n: u64)
    requires
        applied(after, before, |k: Seq<u8>| nonce_write(diff, k), b),
        !has_explicit_nonce(diff.nonces@, a),
    ensures
        (exists|j: int| 0 <= j < diff.deployed_contracts@.len() && #[trigger] diff.deployed_contracts@[j].address == a)
            && b <= n ==> after.get_spec(enc_felt(a), n) == Some(enc_felt(zero_felt())),
        (forall|j: int| 0 <= j < diff.deployed_contracts@.len() ==> #[trigger] diff.deployed_contracts@[j].address != a)
            ==> after.get_spec(enc_felt(a), n) == before.get_spec(enc_felt(a), n),
{
    let ns = diff.nonces@;
    let d = diff.deployed_contracts@;
    lemma_explicit_absent(ns, ns.len() as int, a);
    lemma_default_write(d, ns, d.len() as int, a);
    assert(after.get_spec(enc_felt(a), n) == if b <= n && nonce_write(diff, enc_felt(a)) is Some {
        nonce_write(diff, enc_felt(a))
    } else {
        before.get_spec(enc_felt(a), n)
    });
}

proof fn lemma_explicit_absent(ns: Seq<NonceUpdate>, i: int, a: Felt)
    requires
        i <= ns.len(),
        !has_explicit_nonce(ns, a),
    ensures
        explicit_write(ns, i, enc_felt(a)) is None,
    decreases i,
{
    if i > 0 {
        lemma_enc_felt_injective(ns[i - 1].contract_address, a);
        lemma_explicit_absent(ns, i - 1, a);
    }
}

proof fn lemma_default_write(d: Seq<DeployedContract>, ns: Seq<NonceUpdate>, i: int, a: Felt)
    requires
        i <= d.len(),
        !has_explicit_nonce(ns, a),
    ensures
        (exists|j: int| 0 <= j < i && #[trigger] d[j].address == a) ==> default_write(d, ns, i, enc_felt(a))
            == Some(enc_felt(zero_felt())),
        (forall|j: int| 0 <= j < i ==> #[trigger] d[j].address != a) ==> default_write(d, ns, i, enc_felt(a))
            is None,
    decreases i,
{
    if i > 0 {
        lemma_enc_felt_injective(d[i - 1].address, a);
        lemma_default_write(d, ns, i - 1, a);
        if d[i - 1].address != a {
            if exists|j: int| 0 <= j < i && #[trigger] d[j].address == a {
                let j = choose|j: int| 0 <= j < i && #[trigger] d[j].address == a;
                assert(j < i - 1);
            }
        }
    }
}

fn accepts_exec(m: &VersionedMap, b: u64) -> (r: bool)
    ensures
        r == accepts(*m, b),
{
    let len = m.history.len();
    len == 0 || m.history[len - 1].block <= b
}

} // verus!
