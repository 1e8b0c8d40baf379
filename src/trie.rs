//! Binary Merkle-Patricia tries over field elements, built in memory to
//! derive a root hash.
//!
//! A trie of height `h` has keys of `h` bits. Its root is the hash of the
//! top node: a leaf's hash is its value; a binary node hashes its two
//! children; a run of single-child nodes is an edge, whose hash is the hash
//! of its child and its path, plus its length. The empty trie has root zero.
//!
//! Leaves are kept sorted by key, so the root depends only on which value
//! each key holds, never on the order in which they were set.
use vstd::prelude::*;

use core::marker::PhantomData;

use crate::felt::{Felt, field_prime};
use crate::hasher::{StarkHasher, felt_add};

verus! {

/// A leaf: `value` under `key`.
#[derive(Clone, Copy, Debug, PartialEq, Eq, Structural)]
pub struct Leaf {
    pub key: Felt,
    pub value: Felt,
}

/// Bit `pos` of `k`, counted from the least significant.
pub open spec fn bit_of(k: Felt, pos: nat) -> bool {
    if pos < 128 {
        (k.lo >> (pos as u128)) & 1 == 1
    } else {
        (k.hi >> ((pos - 128) as u128)) & 1 == 1
    }
}

/// `p` with bit `l` set.
pub open spec fn with_bit(p: Felt, l: nat) -> Felt {
    if l < 128 {
        Felt { hi: p.hi, lo: p.lo | (1u128 << (l as u128)) }
    } else {
        Felt { hi: p.hi | (1u128 << ((l - 128) as u128)), lo: p.lo }
    }
}

/// The number of leading leaves of `s` whose key has bit `pos` clear.
pub open spec fn zeros(s: Seq<Leaf>, pos: nat) -> nat
    decreases s.len(),
{
    if s.len() == 0 {
        0
    } else if bit_of(s[0].key, pos) {
        0
    } else {
        1 + zeros(s.drop_first(), pos)
    }
}

/// The node for the leaves `s` at depth `d` of a trie of height `h`, as the
/// hash below it with the edge that leads down to it: (hash, path, length).
pub open spec fn node<H: StarkHasher>(s: Seq<Leaf>, h: nat, d: nat) -> (int, Felt, nat)
    decreases h - d,
{
    if s.len() == 0 {
        (0, Felt { hi: 0, lo: 0 }, 0)
    } else if d >= h {
        (s[0].value.value(), Felt { hi: 0, lo: 0 }, 0)
    } else {
        let pos = (h - 1 - d) as nat;
        let z = zeros(s, pos);
        if z == 0 {
            let n = node::<H>(s, h, d + 1);
            (n.0, with_bit(n.1, n.2), n.2 + 1)
        } else if z >= s.len() {
            let n = node::<H>(s, h, d + 1);
            (n.0, n.1, n.2 + 1)
        } else {
            (
                H::combine_spec(
                    seal::<H>(node::<H>(s.take(z as int), h, d + 1)),
                    seal::<H>(node::<H>(s.skip(z as int), h, d + 1)),
                ),
                Felt { hi: 0, lo: 0 },
                0,
            )
        }
    }
}

/// The hash of a node seen from above: through its edge, if it has one.
pub open spec fn seal<H: StarkHasher>(n: (int, Felt, nat)) -> int {
    if n.2 == 0 {
        n.0
    } else {
        (H::combine_spec(n.0, n.1.value()) + n.2) % field_prime()
    }
}

/// The root hash of the trie of height `h` whose leaves are `s`.
pub open spec fn root_of<H: StarkHasher>(s: Seq<Leaf>, h: nat) -> int {
    if s.len() == 0 {
        0
    } else {
        seal::<H>(node::<H>(s, h, 0))
    }
}

/// `a` orders before `b`.
pub open spec fn key_lt(a: Felt, b: Felt) -> bool {
    a.hi < b.hi || (a.hi == b.hi && a.lo < b.lo)
}

/// Keys strictly increase along `s`.
pub open spec fn sorted(s: Seq<Leaf>) -> bool {
    forall|i: int, j: int| 0 <= i < j < s.len() ==> key_lt(#[trigger] s[i].key, #[trigger] s[j].key)
}

/// The value of `k` among the leaves `s`.
pub open spec fn leaf_value(s: Seq<Leaf>, k: Felt) -> Option<Felt>
    decreases s.len(),
{
    if s.len() == 0 {
        None
    } else if s[0].key == k {
        Some(s[0].value)
    } else {
        leaf_value(s.drop_first(), k)
    }
}

/// The keys of `s` all fit in `h` bits.
pub open spec fn keys_fit(s: Seq<Leaf>, h: nat) -> bool {
    forall|i: int| 0 <= i < s.len() ==> #[trigger] s[i].key.value() < vstd::arithmetic::power2::pow2(h)
}

proof fn lemma_leaf_value_absent(s: Seq<Leaf>, k: Felt)
    requires
        forall|i: int| 0 <= i < s.len() ==> #[trigger] s[i].key != k,
    ensures
        leaf_value(s, k) is None,
    decreases s.len(),
{
    if s.len() > 0 {
        assert forall|i: int| 0 <= i < s.drop_first().len() implies #[trigger] s.drop_first()[i].key
            != k by {
            assert(s.drop_first()[i] == s[i + 1]);
        }
        lemma_leaf_value_absent(s.drop_first(), k);
    }
}

proof fn lemma_leaf_value_present(s: Seq<Leaf>, k: Felt)
    requires
        leaf_value(s, k) is Some,
    ensures
        exists|i: int| 0 <= i < s.len() && #[trigger] s[i].key == k,
    decreases s.len(),
{
    if s[0].key != k {
        lemma_leaf_value_present(s.drop_first(), k);
        let i = choose|i: int| 0 <= i < s.drop_first().len() && #[trigger] s.drop_first()[i].key == k;
        assert(s[i + 1].key == k);
    }
}

proof fn lemma_leaf_value_concat(a: Seq<Leaf>, b: Seq<Leaf>, k: Felt)
    ensures
        leaf_value(a + b, k) == match leaf_value(a, k) {
            Some(v) => Some(v),
            None => leaf_value(b, k),
        },
    decreases a.len(),
{
    if a.len() == 0 {
        assert(a + b =~= b);
    } else {
        assert((a + b).drop_first() =~= a.drop_first() + b);
        lemma_leaf_value_concat(a.drop_first(), b, k);
    }
}

proof fn lemma_key_order(a: Felt, b: Felt)
    ensures
        key_lt(a, b) ==> !key_lt(b, a) && a != b,
        !key_lt(a, b) && !key_lt(b, a) ==> a == b,
{
}

/// Two sorted leaf lists that give every key the same value are the same list.
pub proof fn lemma_sorted_unique(s1: Seq<Leaf>, s2: Seq<Leaf>)
    requires
        sorted(s1),
        sorted(s2),
        forall|k: Felt| #[trigger] leaf_value(s1, k) == leaf_value(s2, k),
    ensures
        s1 == s2,
    decreases s1.len() + s2.len(),
{
    if s1.len() == 0 && s2.len() == 0 {
        assert(s1 =~= s2);
    } else if s1.len() == 0 {
        assert(leaf_value(s2, s2[0].key) is Some);
        assert(leaf_value(s1, s2[0].key) is None);
    } else if s2.len() == 0 {
        assert(leaf_value(s1, s1[0].key) is Some);
        assert(leaf_value(s2, s1[0].key) is None);
    } else {
        let k1 = s1[0].key;
        let k2 = s2[0].key;
        assert(leaf_value(s1, k1) is Some);
        lemma_leaf_value_present(s2, k1);
        let j = choose|j: int| 0 <= j < s2.len() && #[trigger] s2[j].key == k1;
        assert(leaf_value(s2, k2) is Some);
        lemma_leaf_value_present(s1, k2);
        let i = choose|i: int| 0 <= i < s1.len() && #[trigger] s1[i].key == k2;
        if i > 0 {
            assert(key_lt(s1[0].key, s1[i].key));
        }
        if j > 0 {
            assert(key_lt(s2[0].key, s2[j].key));
        }
        lemma_key_order(k1, k2);
        assert(k1 == k2);
        assert(leaf_value(s1, k1) == Some(s1[0].value));
        assert(leaf_value(s2, k1) == Some(s2[0].value));
        let t1 = s1.drop_first();
        let t2 = s2.drop_first();
        assert(sorted(t1)) by {
            assert forall|a: int, b: int| 0 <= a < b < t1.len() implies key_lt(
                #[trigger] t1[a].key,
                #[trigger] t1[b].key,
            ) by {
                assert(t1[a] == s1[a + 1] && t1[b] == s1[b + 1]);
            }
        }
        assert(sorted(t2)) by {
            assert forall|a: int, b: int| 0 <= a < b < t2.len() implies key_lt(
                #[trigger] t2[a].key,
                #[trigger] t2[b].key,
            ) by {
                assert(t2[a] == s2[a + 1] && t2[b] == s2[b + 1]);
            }
        }
        assert forall|k: Felt| #[trigger] leaf_value(t1, k) == leaf_value(t2, k) by {
            if k == k1 {
                assert forall|a: int| 0 <= a < t1.len() implies #[trigger] t1[a].key != k by {
                    assert(t1[a] == s1[a + 1]);
                    assert(key_lt(s1[0].key, s1[a + 1].key));
                    lemma_key_order(k1, t1[a].key);
                }
                lemma_leaf_value_absent(t1, k);
                assert forall|a: int| 0 <= a < t2.len() implies #[trigger] t2[a].key != k by {
                    assert(t2[a] == s2[a + 1]);
                    assert(key_lt(s2[0].key, s2[a + 1].key));
                    lemma_key_order(k1, t2[a].key);
                }
                lemma_leaf_value_absent(t2, k);
            } else {
                assert(leaf_value(s1, k) == leaf_value(t1, k));
                assert(leaf_value(s2, k) == leaf_value(t2, k));
            }
        }
        lemma_sorted_unique(t1, t2);
        assert(s1 =~= seq![s1[0]] + t1);
        assert(s2 =~= seq![s2[0]] + t2);
    }
}

/// Whether bit `pos` of `k` is set.
fn bit(k: Felt, pos: u64) -> (r: bool)
    requires
        pos < 256,
    ensures
        r == bit_of(k, pos as nat),
{
    if pos < 128 {
        (k.lo >> (pos as u128)) & 1 == 1
    } else {
        (k.hi >> ((pos - 128) as u128)) & 1 == 1
    }
}

fn set_bit(p: Felt, l: u64) -> (r: Felt)
    requires
        l < 256,
    ensures
        r == with_bit(p, l as nat),
{
    if l < 128 {
        Felt { hi: p.hi, lo: p.lo | (1u128 << (l as u128)) }
    } else {
        Felt { hi: p.hi | (1u128 << ((l - 128) as u128)), lo: p.lo }
    }
}

proof fn lemma_zeros(s: Seq<Leaf>, pos: nat, k: int)
    requires
        0 <= k <= s.len(),
        forall|i: int| 0 <= i < k ==> !bit_of(#[trigger] s[i].key, pos),
        k < s.len() ==> bit_of(s[k].key, pos),
    ensures
        zeros(s, pos) == k,
    decreases s.len(),
{
    if s.len() > 0 && k > 0 {
        let t = s.drop_first();
        assert forall|i: int| 0 <= i < k - 1 implies !bit_of(#[trigger] t[i].key, pos) by {
            assert(t[i] == s[i + 1]);
        }
        if k - 1 < t.len() {
            assert(t[k - 1] == s[k]);
        }
        lemma_zeros(t, pos, k - 1);
    }
}

proof fn lemma_node_len<H: StarkHasher>(s: Seq<Leaf>, h: nat, d: nat)
    requires
        d <= h,
    ensures
        node::<H>(s, h, d).2 <= h - d,
    decreases h - d,
{
    if s.len() > 0 && d < h {
        lemma_node_len::<H>(s, h, d + 1);
        let z = zeros(s, (h - 1 - d) as nat);
        if 0 < z < s.len() {
            lemma_node_len::<H>(s.take(z as int), h, d + 1);
            lemma_node_len::<H>(s.skip(z as int), h, d + 1);
        }
    }
}

/// The hash of node `n` seen from above.
fn seal_exec<H: StarkHasher>(n: (Felt, Felt, u64)) -> (r: Felt)
    ensures
        r.value() == seal::<H>((n.0.value(), n.1, n.2 as nat)),
{
    if n.2 == 0 {
        n.0
    } else {
        let e = H::combine_two(n.0, n.1);
        felt_add(e, Felt::from_u64(n.2))
    }
}

/// The node for the leaves from `lo` to `hi` at depth `d`.
fn node_exec<H: StarkHasher>(leaves: &Vec<Leaf>, lo: usize, hi: usize, h: u64, d: u64) -> (r: (
    Felt,
    Felt,
    u64,
))
    requires
        lo < hi <= leaves@.len(),
        d <= h <= 256,
    ensures
        r.0.value() == node::<H>(leaves@.subrange(lo as int, hi as int), h as nat, d as nat).0,
        r.1 == node::<H>(leaves@.subrange(lo as int, hi as int), h as nat, d as nat).1,
        r.2 as nat == node::<H>(leaves@.subrange(lo as int, hi as int), h as nat, d as nat).2,
    decreases h - d,
{
    let ghost s = leaves@.subrange(lo as int, hi as int);
    if d == h {
        return (leaves[lo].value, Felt::zero(), 0);
    }
    let pos = h - 1 - d;
    let mut z = lo;
    while z < hi && !bit(leaves[z].key, pos)
        invariant
            lo <= z <= hi,
            hi <= leaves@.len(),
            pos < 256,
            s == leaves@.subrange(lo as int, hi as int),
            forall|i: int| 0 <= i < z - lo ==> !bit_of(#[trigger] s[i].key, pos as nat),
        decreases hi - z,
    {
        z = z + 1;
    }
    proof {
        lemma_zeros(s, pos as nat, z - lo);
        lemma_node_len::<H>(s, h as nat, (d + 1) as nat);
    }
    if z == lo {
        let n = node_exec::<H>(leaves, lo, hi, h, d + 1);
        (n.0, set_bit(n.1, n.2), n.2 + 1)
    } else if z == hi {
        let n = node_exec::<H>(leaves, lo, hi, h, d + 1);
        (n.0, n.1, n.2 + 1)
    } else {
        proof {
            assert(leaves@.subrange(lo as int, z as int) =~= s.take(z - lo));
            assert(leaves@.subrange(z as int, hi as int) =~= s.skip(z - lo));
        }
        let left = seal_exec::<H>(node_exec::<H>(leaves, lo, z, h, d + 1));
        let right = seal_exec::<H>(node_exec::<H>(leaves, z, hi, h, d + 1));
        (H::combine_two(left, right), Felt::zero(), 0)
    }
}

/// The root hash of the trie of height `h` over `leaves`.
fn root_exec<H: StarkHasher>(leaves: &Vec<Leaf>, h: u64) -> (r: Felt)
    requires
        h <= 256,
    ensures
        r.value() == root_of::<H>(leaves@, h as nat),
{
    if leaves.len() == 0 {
        Felt::zero()
    } else {
        let n = node_exec::<H>(leaves, 0, leaves.len(), h, 0);
        proof {
            assert(leaves@.subrange(0, leaves@.len() as int) =~= leaves@);
        }
        seal_exec::<H>(n)
    }
}

fn felt_lt(a: Felt, b: Felt) -> (r: bool)
    ensures
        r == key_lt(a, b),
{
    a.hi < b.hi || (a.hi == b.hi && a.lo < b.lo)
}

/// Sets `key` to `value` among sorted leaves.
fn set_leaf(leaves: &mut Vec<Leaf>, key: Felt, value: Felt)
    requires
        sorted(old(leaves)@),
    ensures
        sorted(final(leaves)@),
        forall|k: Felt| #[trigger] leaf_value(final(leaves)@, k) == if k == key {
            Some(value)
        } else {
            leaf_value(old(leaves)@, k)
        },
        forall|i: int|
            0 <= i < final(leaves)@.len() ==> (#[trigger] final(leaves)@[i].key == key || exists|
                j: int,
            | 0 <= j < old(leaves)@.len() && old(leaves)@[j].key == final(leaves)@[i].key),
{
    let ghost s = leaves@;
    let mut p: usize = 0;
    while p < leaves.len() && felt_lt(leaves[p].key, key)
        invariant
            p <= leaves@.len(),
            leaves@ == s,
            forall|i: int| 0 <= i < p ==> key_lt(#[trigger] s[i].key, key),
        decreases leaves@.len() - p,
    {
        p = p + 1;
    }
    let leaf = Leaf { key, value };
    let ghost a = s.subrange(0, p as int);
    proof {
        assert forall|i: int| 0 <= i < a.len() implies #[trigger] a[i].key != key by {
            lemma_key_order(a[i].key, key);
        }
        lemma_leaf_value_absent(a, key);
    }
    if p < leaves.len() && leaves[p].key == key {
        leaves.set(p, leaf);
        proof {
            let b = s.subrange(p + 1, s.len() as int);
            assert(s =~= a + (seq![s[p as int]] + b));
            assert(leaves@ =~= a + (seq![leaf] + b));
            assert forall|k: Felt| #[trigger] leaf_value(leaves@, k) == if k == key {
                Some(value)
            } else {
                leaf_value(s, k)
            } by {
                lemma_leaf_value_concat(a, seq![leaf] + b, k);
                lemma_leaf_value_concat(a, seq![s[p as int]] + b, k);
                lemma_leaf_value_concat(seq![leaf], b, k);
                lemma_leaf_value_concat(seq![s[p as int]], b, k);
                if k != key {
                    assert(seq![leaf].drop_first() =~= Seq::<Leaf>::empty());
                    assert(leaf_value(Seq::<Leaf>::empty(), k) is None);
                    assert(seq![s[p as int]].drop_first() =~= Seq::<Leaf>::empty());
                    assert(leaf_value(seq![leaf], k) is None);
                    assert(leaf_value(seq![s[p as int]], k) is None);
                } else {
                    assert(leaf_value(seq![leaf], k) == Some(value));
                }
            }
            assert forall|i: int, j: int| 0 <= i < j < leaves@.len() implies key_lt(
                #[trigger] leaves@[i].key,
                #[trigger] leaves@[j].key,
            ) by {
                assert(key_lt(s[i].key, s[j].key));
            }
            assert forall|i: int| 0 <= i < leaves@.len() implies (#[trigger] leaves@[i].key == key
                || exists|j: int| 0 <= j < s.len() && s[j].key == leaves@[i].key) by {
                if i != p {
                    assert(s[i].key == leaves@[i].key);
                }
            }
        }
    } else {
        leaves.insert(p, leaf);
        proof {
            let b = s.subrange(p as int, s.len() as int);
            assert(s =~= a + b);
            assert(leaves@ =~= a + (seq![leaf] + b));
            if p < s.len() {
                assert(key_lt(key, s[p as int].key)) by {
                    lemma_key_order(s[p as int].key, key);
                }
            }
            assert forall|k: Felt| #[trigger] leaf_value(leaves@, k) == if k == key {
                Some(value)
            } else {
                leaf_value(s, k)
            } by {
                lemma_leaf_value_concat(a, seq![leaf] + b, k);
                lemma_leaf_value_concat(a, b, k);
                lemma_leaf_value_concat(seq![leaf], b, k);
                if k == key {
                    assert(leaf_value(seq![leaf], k) == Some(value));
                } else {
                    assert(seq![leaf].drop_first() =~= Seq::<Leaf>::empty());
                    assert(leaf_value(Seq::<Leaf>::empty(), k) is None);
                    assert(leaf_value(seq![leaf], k) is None);
                }
            }
            assert forall|i: int, j: int| 0 <= i < j < leaves@.len() implies key_lt(
                #[trigger] leaves@[i].key,
                #[trigger] leaves@[j].key,
            ) by {
                if j < p {
                    assert(key_lt(s[i].key, s[j].key));
                } else if j == p {
                    assert(key_lt(s[i].key, key));
                } else if i < p {
                    assert(leaves@[j] == s[j - 1]);
                    if j - 1 > p {
                        assert(key_lt(s[p as int].key, s[j - 1].key));
                    }
                    assert(key_lt(s[i].key, key));
                } else if i == p {
                    assert(leaves@[j] == s[j - 1]);
                    if j - 1 > p {
                        assert(key_lt(s[p as int].key, s[j - 1].key));
                    }
                } else {
                    assert(key_lt(s[i - 1].key, s[j - 1].key));
                }
            }
            assert forall|i: int| 0 <= i < leaves@.len() implies (#[trigger] leaves@[i].key == key
                || exists|j: int| 0 <= j < s.len() && s[j].key == leaves@[i].key) by {
                if i < p {
                    assert(s[i].key == leaves@[i].key);
                } else if i > p {
                    assert(s[i - 1].key == leaves@[i].key);
                }
            }
        }
    }
}

/// The value stored under `key` among sorted leaves.
fn get_leaf(leaves: &Vec<Leaf>, key: Felt) -> (r: Option<Felt>)
    ensures
        r == leaf_value(leaves@, key),
{
    let mut i: usize = 0;
    assert(leaves@.subrange(0, leaves@.len() as int) =~= leaves@);
    while i < leaves.len()
        invariant
            i <= leaves@.len(),
            leaf_value(leaves@, key) == leaf_value(leaves@.subrange(i as int, leaves@.len() as int), key),
        decreases leaves@.len() - i,
    {
        proof {
            assert(leaves@.subrange(i as int, leaves@.len() as int).drop_first() =~= leaves@.subrange(
                i + 1,
                leaves@.len() as int,
            ));
        }
        if leaves[i].key == key {
            return Some(leaves[i].value);
        }
        i = i + 1;
    }
    None
}

/// The height of the trees over transactions and events, whose keys are
/// 64-bit indices.
pub const INDEX_TREE_HEIGHT: u64 = 64;

/// The number of key bits of the state trees: the leading 31 bytes of a
/// 32-byte word.
pub const STATE_KEY_BITS: u64 = 248;

/// A trie of height 64 keyed by the index of a transaction or event in its
/// block, built fresh for one block.
pub struct CommitmentTree<H> {
    pub leaves: Vec<Leaf>,
    pub hasher: PhantomData<H>,
}

impl<H: StarkHasher> CommitmentTree<H> {
    pub open spec fn wf(&self) -> bool {
        sorted(self.leaves@) && keys_fit(self.leaves@, 64)
    }

    /// The value at index `i`, if set.
    pub open spec fn value_spec(&self, i: u64) -> Option<Felt> {
        leaf_value(self.leaves@, Felt { hi: 0, lo: i as u128 })
    }

    /// The root of this trie.
    pub open spec fn root_spec(&self) -> int {
        root_of::<H>(self.leaves@, 64)
    }

    pub fn new() -> (r: Self)
        ensures
            r.wf(),
            r.leaves@.len() == 0,
    {
        CommitmentTree { leaves: Vec::new(), hasher: PhantomData }
    }

    /// Sets the value at `index`.
    pub fn set(&mut self, index: u64, value: Felt)
        requires
            old(self).wf(),
        ensures
            final(self).wf(),
            forall|k: Felt| #[trigger] leaf_value(final(self).leaves@, k) == if k == (Felt {
                hi: 0,
                lo: index as u128,
            }) {
                Some(value)
            } else {
                leaf_value(old(self).leaves@, k)
            },
    {
        let key = Felt::from_u64(index);
        proof {
            vstd::arithmetic::power2::lemma2_to64();
            assert(key.value() == index as int);
        }
        set_leaf(&mut self.leaves, key, value);
        proof {
            assert forall|i: int| 0 <= i < self.leaves@.len() implies #[trigger] self.leaves@[i].key.value()
                < vstd::arithmetic::power2::pow2(64) by {
                if self.leaves@[i].key != key {
                    let j = choose|j: int|
                        0 <= j < old(self).leaves@.len() && old(self).leaves@[j].key == self.leaves@[i].key;
                    assert(old(self).leaves@[j].key.value() < vstd::arithmetic::power2::pow2(64));
                }
            }
        }
    }

    /// The root hash of the trie.
    pub fn commit(&mut self) -> (r: Felt)
        ensures
            *final(self) == *old(self),
            r.value() == old(self).root_spec(),
    {
        root_exec::<H>(&self.leaves, INDEX_TREE_HEIGHT)
    }
}

/// The key of `f` in a state tree: its leading 31 bytes.
pub open spec fn state_key(f: Felt) -> Felt {
    Felt { hi: f.hi >> 8u128, lo: (f.lo >> 8u128) | ((f.hi & 0xffu128) << 120u128) }
}

fn state_key_exec(f: Felt) -> (r: Felt)
    ensures
        r == state_key(f),
{
    Felt { hi: f.hi >> 8u128, lo: (f.lo >> 8u128) | ((f.hi & 0xffu128) << 120u128) }
}

/// A trie of height 251 keyed by field elements (through their leading 31
/// bytes), used for the class and contract trees.
pub struct StateCommitmentTree<H> {
    pub leaves: Vec<Leaf>,
    pub hasher: PhantomData<H>,
}

impl<H: StarkHasher> StateCommitmentTree<H> {
    pub open spec fn wf(&self) -> bool {
        sorted(self.leaves@)
    }

    /// The value stored under `index`, if any.
    pub open spec fn value_spec(&self, index: Felt) -> Option<Felt> {
        leaf_value(self.leaves@, state_key(index))
    }

    /// The root of this trie.
    pub open spec fn root_spec(&self) -> int {
        root_of::<H>(self.leaves@, 248)
    }

    pub fn new() -> (r: Self)
        ensures
            r.wf(),
            r.leaves@.len() == 0,
    {
        StateCommitmentTree { leaves: Vec::new(), hasher: PhantomData }
    }

    /// Sets the value under `index`.
    pub fn set(&mut self, index: Felt, value: Felt)
        requires
            old(self).wf(),
        ensures
            final(self).wf(),
            forall|k: Felt| #[trigger] leaf_value(final(self).leaves@, k) == if k == state_key(index) {
                Some(value)
            } else {
                leaf_value(old(self).leaves@, k)
            },
    {
        let key = state_key_exec(index);
        set_leaf(&mut self.leaves, key, value);
    }

    /// The value stored under `key`, if any.
    pub fn get(&self, key: Felt) -> (r: Option<Felt>)
        ensures
            r == self.value_spec(key),
    {
        get_leaf(&self.leaves, state_key_exec(key))
    }

    /// The root hash of the trie.
    pub fn commit(&mut self) -> (r: Felt)
        ensures
            *final(self) == *old(self),
            r.value() == old(self).root_spec(),
    {
        root_exec::<H>(&self.leaves, STATE_KEY_BITS)
    }
}

/// The root of a trie depends only on the value each key holds: two tries
/// that agree on every key have the same root, whatever order their leaves
/// were set in.
pub proof fn lemma_root_depends_on_values<H: StarkHasher>(s1: Seq<Leaf>, s2: Seq<Leaf>, h: nat)
    requires
        sorted(s1),
        sorted(s2),
        forall|k: Felt| #[trigger] leaf_value(s1, k) == leaf_value(s2, k),
    ensures
        root_of::<H>(s1, h) == root_of::<H>(s2, h),
{
    lemma_sorted_unique(s1, s2);
}

/// Setting two different keys gives the same root in either order: from
/// the same leaves, `k1` then `k2` and `k2` then `k1` agree on every key.
pub proof fn lemma_set_order<H: StarkHasher>(
    s0: Seq<Leaf>,
    s1: Seq<Leaf>,
    s2: Seq<Leaf>,
    t1: Seq<Leaf>,
    t2: Seq<Leaf>,
    k1: Felt,
    v1: Felt,
    k2: Felt,
    v2: Felt,
    h: nat,
)
    requires
        k1 != k2,
        sorted(s2),
        sorted(t2),
        forall|k: Felt| #[trigger] leaf_value(s1, k) == if k == k1 { Some(v1) } else { leaf_value(s0, k) },
        forall|k: Felt| #[trigger] leaf_value(s2, k) == if k == k2 { Some(v2) } else { leaf_value(s1, k) },
        forall|k: Felt| #[trigger] leaf_value(t1, k) == if k == k2 { Some(v2) } else { leaf_value(s0, k) },
        forall|k: Felt| #[trigger] leaf_value(t2, k) == if k == k1 { Some(v1) } else { leaf_value(t1, k) },
    ensures
        root_of::<H>(s2, h) == root_of::<H>(t2, h),
{
    assert forall|k: Felt| #[trigger] leaf_value(s2, k) == leaf_value(t2, k) by {
        assert(leaf_value(s1, k) == leaf_value(s1, k));
        assert(leaf_value(t1, k) == leaf_value(t1, k));
    }
    lemma_sorted_unique(s2, t2);
}

} // verus!
