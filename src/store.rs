//! An in-memory columnar key-value store with atomic write batches.
//!
//! The store is a log of puts: a read returns the value of the latest put to
//! that column and key. A batch is built apart from the store and applied by
//! one call, so a reader sees either none or all of its puts.
use vstd::prelude::*;

verus! {

/// The columns of the store, one per logical map or index.
#[derive(Clone, Copy, Debug, PartialEq, Eq, Structural, Hash)]
pub enum Column {
    SyncedMapping,
    BlockMapping,
    TransactionMapping,
    StarknetTransactionHashesMapping,
    StarknetBlockHashesMapping,
    StarknetBlockNumberMapping,
    ContractClassHash,
    ContractNonces,
    ContractClassHashes,
    ContractStorage,
    ContractClassData,
    BlockStateDiff,
}

/// A failure of the storage layer.
#[derive(Clone, Copy, Debug, PartialEq, Eq, Structural, Hash)]
pub enum StorageError {
    /// Stored bytes do not decode into the expected type.
    Codec,
    /// A value is too large for the codec to frame.
    Capacity,
    /// An operation came out of order, such as a commit below the latest
    /// committed block.
    Consistency,
}

/// One put: `value` stored under `key` in `column`.
#[derive(Clone, Debug)]
pub struct Record {
    pub column: Column,
    pub key: Vec<u8>,
    pub value: Vec<u8>,
}

/// The value of the latest put to `column` and `key` among `log`.
pub open spec fn lookup(log: Seq<Record>, column: Column, key: Seq<u8>) -> Option<Seq<u8>>
    decreases log.len(),
{
    if log.len() == 0 {
        None
    } else if log.last().column == column && log.last().key@ == key {
        Some(log.last().value@)
    } else {
        lookup(log.drop_last(), column, key)
    }
}

/// Puts made after `log` hide what `log` held under the same key.
pub proof fn lemma_lookup_append(log: Seq<Record>, ops: Seq<Record>, column: Column, key: Seq<u8>)
    ensures
        lookup(log + ops, column, key) == match lookup(ops, column, key) {
            Some(v) => Some(v),
            None => lookup(log, column, key),
        },
    decreases ops.len(),
{
    if ops.len() == 0 {
        assert(log + ops =~= log);
    } else {
        assert((log + ops).drop_last() =~= log + ops.drop_last());
        lemma_lookup_append(log, ops.drop_last(), column, key);
    }
}

/// Reading a log one put longer.
pub proof fn lemma_lookup_push(longer: Seq<Record>, shorter: Seq<Record>, column: Column, key: Seq<u8>)
    requires
        longer.len() == shorter.len() + 1,
        longer.drop_last() == shorter,
    ensures
        lookup(longer, column, key) == if longer.last().column == column && longer.last().key@ == key {
            Some(longer.last().value@)
        } else {
            lookup(shorter, column, key)
        },
{
}

pub fn bytes_eq(a: &Vec<u8>, b: &Vec<u8>) -> (r: bool)
    ensures
        r == (a@ == b@),
{
    if a.len() != b.len() {
        return false;
    }
    let mut i: usize = 0;
    while i < a.len()
        invariant
            i <= a@.len(),
            a@.len() == b@.len(),
            a@.subrange(0, i as int) =~= b@.subrange(0, i as int),
        decreases a@.len() - i,
    {
        if a[i] != b[i] {
            assert(a@[i as int] != b@[i as int]);
            return false;
        }
        i = i + 1;
    }
    assert(a@ =~= a@.subrange(0, a@.len() as int));
    assert(b@ =~= b@.subrange(0, b@.len() as int));
    true
}

pub fn copy_bytes(a: &Vec<u8>) -> (r: Vec<u8>)
    ensures
        r@ == a@,
{
    let r = a.clone();
    assert(r@ =~= a@);
    r
}

/// A list of puts to apply together.
pub struct WriteBatch {
    pub ops: Vec<Record>,
}

impl WriteBatch {
    pub fn new() -> (r: WriteBatch)
        ensures
            r.ops@.len() == 0,
    {
        WriteBatch { ops: Vec::new() }
    }

    pub fn put(&mut self, column: Column, key: Vec<u8>, value: Vec<u8>)
        ensures
            final(self).ops@.len() == old(self).ops@.len() + 1,
            final(self).ops@.drop_last() == old(self).ops@,
            final(self).ops@.last().column == column,
            final(self).ops@.last().key@ == key@,
            final(self).ops@.last().value@ == value@,
    {
        self.ops.push(Record { column, key, value });
        assert(self.ops@.drop_last() =~= old(self).ops@);
    }
}

/// The store: a log of every put, oldest first.
pub struct Store {
    pub log: Vec<Record>,
}

impl Store {
    /// The value stored under `key` in `column`, if any.
    pub open spec fn value_of(&self, column: Column, key: Seq<u8>) -> Option<Seq<u8>> {
        lookup(self.log@, column, key)
    }

    pub fn new() -> (r: Store)
        ensures
            forall|c: Column, k: Seq<u8>| r.value_of(c, k) is None,
    {
        Store { log: Vec::new() }
    }

    pub fn get(&self, column: Column, key: &Vec<u8>) -> (r: Option<Vec<u8>>)
        ensures
            match r {
                Some(v) => self.value_of(column, key@) == Some(v@),
                None => self.value_of(column, key@) is None,
            },
    {
        let mut i: usize = self.log.len();
        assert(self.log@.subrange(0, i as int) =~= self.log@);
        while i > 0
            invariant
                i <= self.log@.len(),
                lookup(self.log@, column, key@) == lookup(self.log@.subrange(0, i as int), column, key@),
            decreases i,
        {
            let rec = &self.log[i - 1];
            proof {
                assert(self.log@.subrange(0, i as int).drop_last() =~= self.log@.subrange(0, i - 1));
            }
            if rec.column == column && bytes_eq(&rec.key, key) {
                return Some(copy_bytes(&rec.value));
            }
            i = i - 1;
        }
        None
    }

    pub fn put(&mut self, column: Column, key: Vec<u8>, value: Vec<u8>)
        ensures
            final(self).log@ == old(self).log@.push(Record { column, key, value }),
            final(self).value_of(column, key@) == Some(value@),
            forall|c: Column, k: Seq<u8>|
                !(c == column && k == key@) ==> #[trigger] final(self).value_of(c, k) == old(self).value_of(c, k),
    {
        self.log.push(Record { column, key, value });
        assert(self.log@.drop_last() =~= old(self).log@);
    }

    /// Applies every put of `batch`, in order, in one step.
    pub fn write(&mut self, batch: WriteBatch)
        ensures
            final(self).log@ == old(self).log@ + batch.ops@,
    {
        let mut ops = batch.ops;
        self.log.append(&mut ops);
    }
}

} // verus!
