//! A key-value map with history: each committed entry carries the block at
//! which it took effect, and a read names the block it is made at.
//!
//! Writes are staged by `insert` and become visible only when `commit` tags
//! them with a block number. Commits come in block order, so the latest entry
//! of a key whose block is at most `n` is the one with the greatest such block.
use vstd::prelude::*;

use crate::codec::{dec_felt, decode_felt, enc_felt, encode_felt, felt_of};
use crate::felt::{Felt, lemma_felt_of_value};
use crate::hasher::StarkHasher;
use crate::trie::{Leaf, StateCommitmentTree, leaf_value, lemma_sorted_unique, root_of, sorted, state_key};
use crate::mapping::read_with;
use crate::store::{StorageError, bytes_eq, copy_bytes};

verus! {

/// A committed entry: `value` for `key` from block `block` on.
#[derive(Clone, Debug)]
pub struct Entry {
    pub key: Vec<u8>,
    pub block: u64,
    pub value: Vec<u8>,
}

/// A staged write, not yet visible to reads.
#[derive(Clone, Debug)]
pub struct Staged {
    pub key: Vec<u8>,
    pub value: Vec<u8>,
}

/// The value of `key` as of block `n`: the latest entry of `key` whose block is
/// at most `n`.
pub open spec fn value_at(h: Seq<Entry>, key: Seq<u8>, n: u64) -> Option<Seq<u8>>
    decreases h.len(),
{
    if h.len() == 0 {
        None
    } else if h.last().key@ == key && h.last().block <= n {
        Some(h.last().value@)
    } else {
        value_at(h.drop_last(), key, n)
    }
}

/// The position of the entry that `value_at` reads.
pub open spec fn index_at(h: Seq<Entry>, key: Seq<u8>, n: u64) -> Option<int>
    decreases h.len(),
{
    if h.len() == 0 {
        None
    } else if h.last().key@ == key && h.last().block <= n {
        Some(h.len() - 1)
    } else {
        index_at(h.drop_last(), key, n)
    }
}

/// Entries are in block order.
pub open spec fn ordered(h: Seq<Entry>) -> bool {
    forall|i: int, j: int| 0 <= i < j < h.len() ==> #[trigger] h[i].block <= #[trigger] h[j].block
}

/// The value last staged for `key` among `p`, if any.
pub open spec fn staged_value(p: Seq<Staged>, key: Seq<u8>) -> Option<Seq<u8>>
    decreases p.len(),
{
    if p.len() == 0 {
        None
    } else if p.last().key@ == key {
        Some(p.last().value@)
    } else {
        staged_value(p.drop_last(), key)
    }
}

/// The value of `key` as of block `n` once the writes `p` are committed at
/// block `b` over a map whose reads were `before`.
pub open spec fn read_after_commit(
    before: Option<Seq<u8>>,
    p: Seq<Staged>,
    b: u64,
    key: Seq<u8>,
    n: u64,
) -> Option<Seq<u8>> {
    if b <= n && staged_value(p, key) is Some {
        staged_value(p, key)
    } else {
        before
    }
}

/// A versioned map over byte keys and values.
pub struct VersionedMap {
    pub history: Vec<Entry>,
    pub pending: Vec<Staged>,
}

impl VersionedMap {
    pub open spec fn wf(&self) -> bool {
        ordered(self.history@)
    }

    /// The value of `key` as of block `n`.
    pub open spec fn get_spec(&self, key: Seq<u8>, n: u64) -> Option<Seq<u8>> {
        value_at(self.history@, key, n)
    }

    /// The latest committed block, if any entry was committed.
    pub open spec fn last_block(&self) -> Option<u64> {
        if self.history@.len() == 0 {
            None
        } else {
            Some(self.history@.last().block)
        }
    }

    pub fn new() -> (r: VersionedMap)
        ensures
            r.wf(),
            r.history@.len() == 0,
            r.pending@.len() == 0,
    {
        VersionedMap { history: Vec::new(), pending: Vec::new() }
    }

    /// Stages `value` for `key`; a later insert of the same key before the
    /// commit wins.
    pub fn insert(&mut self, key: Vec<u8>, value: Vec<u8>)
        ensures
            final(self).history@ == old(self).history@,
            final(self).pending@.len() == old(self).pending@.len() + 1,
            final(self).pending@.drop_last() == old(self).pending@,
            final(self).pending@.last().key@ == key@,
            final(self).pending@.last().value@ == value@,
    {
        self.pending.push(Staged { key, value });
        assert(self.pending@.drop_last() =~= old(self).pending@);
    }

    /// Makes every staged write visible from block `block_number` on, in the
    /// order it was staged, and clears the staged writes.
    ///
    /// A commit below the latest committed block is refused and changes nothing.
    pub fn commit(&mut self, block_number: u64) -> (r: Result<(), StorageError>)
        requires
            old(self).wf(),
        ensures
            final(self).wf(),
            match old(self).last_block() {
                Some(b) => block_number < b,
                None => false,
            } ==> r == Err::<(), StorageError>(StorageError::Consistency) && *final(self) == *old(
                self,
            ),
            r is Ok <==> !match old(self).last_block() {
                Some(b) => block_number < b,
                None => false,
            },
            r is Ok && old(self).pending@.len() == 0 ==> final(self).history@ == old(self).history@,
            r is Ok ==> final(self).pending@.len() == 0 && forall|key: Seq<u8>, n: u64|
                #[trigger] final(self).get_spec(key, n) == read_after_commit(
                    old(self).get_spec(key, n),
                    old(self).pending@,
                    block_number,
                    key,
                    n,
                ),
    {
        let len = self.history.len();
        if len > 0 && block_number < self.history[len - 1].block {
            return Err(StorageError::Consistency);
        }
        let ghost h0 = self.history@;
        let ghost p0 = self.pending@;
        let mut i: usize = 0;
        while i < self.pending.len()
            invariant
                i <= p0.len(),
                self.pending@ == p0,
                h0 == old(self).history@,
                p0 == old(self).pending@,
                ordered(h0),
                ordered(self.history@),
                self.history@.len() == h0.len() + i,
                forall|j: int| 0 <= j < h0.len() ==> #[trigger] self.history@[j] == h0[j],
                h0.len() > 0 ==> h0.last().block <= block_number,
                self.history@.len() > 0 ==> self.history@.last().block <= block_number,
                forall|key: Seq<u8>, n: u64|
                    #[trigger] value_at(self.history@, key, n) == read_after_commit(
                        value_at(h0, key, n),
                        p0.subrange(0, i as int),
                        block_number,
                        key,
                        n,
                    ),
            decreases p0.len() - i,
        {
            let s = &self.pending[i];
            let e = Entry { key: copy_bytes(&s.key), block: block_number, value: copy_bytes(&s.value) };
            let ghost hb = self.history@;
            self.history.push(e);
            proof {
                assert forall|a: int, b: int|
                    0 <= a < b < self.history@.len() implies #[trigger] self.history@[a].block
                    <= #[trigger] self.history@[b].block by {
                    if b == self.history@.len() - 1 {
                        if a < hb.len() {
                            assert(hb[a].block <= hb.last().block);
                        }
                    } else {
                        assert(hb[a].block <= hb[b].block);
                    }
                }
                assert(self.history@.drop_last() =~= hb);
                let q = p0.subrange(0, i + 1);
                assert(q.drop_last() =~= p0.subrange(0, i as int));
                assert forall|key: Seq<u8>, n: u64|
                    #[trigger] value_at(self.history@, key, n) == read_after_commit(
                        value_at(h0, key, n),
                        q,
                        block_number,
                        key,
                        n,
                    ) by {
                    assert(value_at(hb, key, n) == read_after_commit(
                        value_at(h0, key, n),
                        p0.subrange(0, i as int),
                        block_number,
                        key,
                        n,
                    ));
                }
            }
            i = i + 1;
        }
        self.pending.clear();
        proof {
            assert(p0.subrange(0, p0.len() as int) =~= p0);
            if p0.len() == 0 {
                assert(self.history@ =~= h0);
            }
        }
        Ok(())
    }

    /// The root of the state trie over the map's word entries, in the order
    /// they were committed.
    pub open spec fn root_spec<H: StarkHasher>(&self, r: Felt) -> bool {
        exists|s: Seq<Leaf>|
            sorted(s) && (forall|k: Felt| #[trigger] leaf_value(s, k) == map_leaf(
                self.history@,
                self.history@.len() as int,
                k,
            )) && r.value() == root_of::<H>(s, 248)
    }

    /// Commits like `commit`, then returns the root of the state trie over
    /// the map's entries whose key and value are words.
    pub fn commit_root<H: StarkHasher>(&mut self, block_number: u64) -> (r: Result<Felt, StorageError>)
        requires
            old(self).wf(),
        ensures
            final(self).wf(),
            r is Ok <==> !match old(self).last_block() {
                Some(b) => block_number < b,
                None => false,
            },
            r is Err ==> r == Err::<Felt, StorageError>(StorageError::Consistency) && *final(self)
                == *old(self),
            r is Ok && old(self).pending@.len() == 0 ==> final(self).history@ == old(self).history@,
            r is Ok ==> final(self).pending@.len() == 0 && final(self).root_spec::<H>(r->Ok_0)
                && forall|key: Seq<u8>, n: u64|
                #[trigger] final(self).get_spec(key, n) == read_after_commit(
                    old(self).get_spec(key, n),
                    old(self).pending@,
                    block_number,
                    key,
                    n,
                ),
    {
        match self.commit(block_number) {
            Err(e) => Err(e),
            Ok(()) => {
                let mut tree = StateCommitmentTree::<H>::new();
                let mut i: usize = 0;
                while i < self.history.len()
                    invariant
                        i <= self.history@.len(),
                        tree.wf(),
                        forall|k: Felt| #[trigger] leaf_value(tree.leaves@, k) == map_leaf(
                            self.history@,
                            i as int,
                            k,
                        ),
                    decreases self.history@.len() - i,
                {
                    let e = &self.history[i];
                    match (decode_felt(e.key.as_slice()), decode_felt(e.value.as_slice())) {
                        (Some(k), Some(v)) => {
                            tree.set(k, v);
                        },
                        _ => {},
                    }
                    i = i + 1;
                }
                Ok(tree.commit())
            },
        }
    }

    /// The value of `key` as of block `block_number`, if any.
    pub fn get_at(&self, key: &Vec<u8>, block_number: u64) -> (r: Option<Vec<u8>>)
        ensures
            match r {
                Some(v) => self.get_spec(key@, block_number) == Some(v@),
                None => self.get_spec(key@, block_number) is None,
            },
    {
        let mut i: usize = self.history.len();
        assert(self.history@.subrange(0, i as int) =~= self.history@);
        while i > 0
            invariant
                i <= self.history@.len(),
                value_at(self.history@, key@, block_number) == value_at(
                    self.history@.subrange(0, i as int),
                    key@,
                    block_number,
                ),
            decreases i,
        {
            let e = &self.history[i - 1];
            proof {
                assert(self.history@.subrange(0, i as int).drop_last() =~= self.history@.subrange(
                    0,
                    i - 1,
                ));
            }
            if e.block <= block_number && bytes_eq(&e.key, key) {
                return Some(copy_bytes(&e.value));
            }
            i = i - 1;
        }
        None
    }

    /// Whether `key` has an entry at or before block `block_number`.
    pub fn contains_at(&self, key: &Vec<u8>, block_number: u64) -> (r: bool)
        ensures
            r == self.get_spec(key@, block_number) is Some,
    {
        self.get_at(key, block_number).is_some()
    }

    /// Stages `value` for the word `key`.
    pub fn insert_felt(&mut self, key: Felt, value: Felt)
        ensures
            final(self).history@ == old(self).history@,
            final(self).pending@.len() == old(self).pending@.len() + 1,
            final(self).pending@.drop_last() == old(self).pending@,
            final(self).pending@.last().key@ == enc_felt(key),
            final(self).pending@.last().value@ == enc_felt(value),
    {
        self.insert(encode_felt(key), encode_felt(value));
    }

    /// The word stored for the word `key` as of block `block_number`.
    pub fn get_felt_at(&self, key: Felt, block_number: u64) -> (r: Result<Option<Felt>, StorageError>)
        ensures
            r == read_with(self.get_spec(enc_felt(key), block_number), |b| dec_felt(b)),
    {
        match self.get_at(&encode_felt(key), block_number) {
            None => Ok(None),
            Some(raw) => match decode_felt(raw.as_slice()) {
                Some(v) => Ok(Some(v)),
                None => Err(StorageError::Codec),
            },
        }
    }
}

/// The leaf under `k` of the state trie over the first `i` entries of `h`:
/// the latest of them whose key and value are words and whose key leads to `k`.
pub open spec fn map_leaf(h: Seq<Entry>, i: int, k: Felt) -> Option<Felt>
    decreases i,
{
    if i <= 0 {
        None
    } else if dec_felt(h[i - 1].key@) is Some && dec_felt(h[i - 1].value@) is Some && state_key(
        felt_of(h[i - 1].key@),
    ) == k {
        Some(felt_of(h[i - 1].value@))
    } else {
        map_leaf(h, i - 1, k)
    }
}

/// A commit with nothing staged leaves the entries as they were, so it
/// returns the root of the commit before it.
pub proof fn lemma_empty_commit_root<H: StarkHasher>(
    before: VersionedMap,
    after: VersionedMap,
    r1: Felt,
    r2: Felt,
)
    requires
        before.root_spec::<H>(r1),
        after.history@ == before.history@,
        after.root_spec::<H>(r2),
    ensures
        r1 == r2,
{
    let s1 = choose|s: Seq<Leaf>|
        sorted(s) && (forall|k: Felt| #[trigger] leaf_value(s, k) == map_leaf(
            before.history@,
            before.history@.len() as int,
            k,
        )) && r1.value() == root_of::<H>(s, 248);
    let s2 = choose|s: Seq<Leaf>|
        sorted(s) && (forall|k: Felt| #[trigger] leaf_value(s, k) == map_leaf(
            after.history@,
            after.history@.len() as int,
            k,
        )) && r2.value() == root_of::<H>(s, 248);
    lemma_sorted_unique(s1, s2);
    lemma_felt_of_value(r1);
    lemma_felt_of_value(r2);
}

/// A read as of a later block never goes back to an older entry: it finds
/// the entry of the greatest block not above it, and an entry seen at `n1`
/// is still seen, or replaced by a newer one, at `n2 >= n1`.
pub proof fn lemma_read_monotone(h: Seq<Entry>, key: Seq<u8>, n1: u64, n2: u64)
    requires
        ordered(h),
        n1 <= n2,
        value_at(h, key, n1) is Some,
    ensures
        index_at(h, key, n2) matches Some(i) && 0 <= i < h.len() && h[i].key@ == key && h[i].block
            <= n2 && value_at(h, key, n2) == Some(h[i].value@) && (forall|j: int|
            0 <= j < h.len() && #[trigger] h[j].key@ == key && h[j].block <= n2 ==> h[j].block
                <= h[i].block) && h[index_at(h, key, n1)->Some_0].block <= h[i].block,
    decreases h.len(),
{
    lemma_index_at(h, key, n1);
    lemma_index_at(h, key, n2);
    let i1 = index_at(h, key, n1)->Some_0;
    assert(h[i1].key@ == key && h[i1].block <= n2);
}

/// What `index_at` finds: the last entry of `key` not above `n`, which in an
/// ordered history has the greatest block among them.
pub proof fn lemma_index_at(h: Seq<Entry>, key: Seq<u8>, n: u64)
    requires
        ordered(h),
    ensures
        (index_at(h, key, n) is Some) == (value_at(h, key, n) is Some),
        (index_at(h, key, n) is None) ==> forall|j: int|
            0 <= j < h.len() ==> !(#[trigger] h[j].key@ == key && h[j].block <= n),
        index_at(h, key, n) matches Some(i) ==> 0 <= i < h.len() && h[i].key@ == key && h[i].block
            <= n && value_at(h, key, n) == Some(h[i].value@) && forall|j: int|
            0 <= j < h.len() && #[trigger] h[j].key@ == key && h[j].block <= n ==> h[j].block
                <= h[i].block,
    decreases h.len(),
{
    if h.len() > 0 {
        let t = h.drop_last();
        assert(ordered(t)) by {
            assert forall|i: int, j: int| 0 <= i < j < t.len() implies #[trigger] t[i].block
                <= #[trigger] t[j].block by {
                assert(t[i] == h[i] && t[j] == h[j]);
            }
        }
        lemma_index_at(t, key, n);
        if h.last().key@ == key && h.last().block <= n {
            assert forall|j: int|
                0 <= j < h.len() && #[trigger] h[j].key@ == key && h[j].block <= n implies h[j].block
                <= h[h.len() - 1].block by {
                if j < h.len() - 1 {
                    assert(h[j].block <= h[h.len() - 1].block);
                }
            }
        } else {
            assert forall|j: int|
                0 <= j < h.len() && #[trigger] h[j].key@ == key && h[j].block <= n implies j < h.len()
                - 1 && t[j] == h[j] by {}
            match index_at(t, key, n) {
                Some(i) => {
                    assert(t[i] == h[i]);
                    assert forall|j: int|
                        0 <= j < h.len() && #[trigger] h[j].key@ == key && h[j].block <= n implies h[j].block
                        <= h[i].block by {
                        assert(t[j] == h[j]);
                    }
                },
                None => {
                    assert forall|j: int| 0 <= j < h.len() implies !(#[trigger] h[j].key@ == key
                        && h[j].block <= n) by {
                        if j < h.len() - 1 {
                            assert(t[j] == h[j]);
                        }
                    }
                },
            }
        }
    }
}

} // verus!
