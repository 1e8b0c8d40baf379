//! Canonical binary encoding of the values kept in the store.
//!
//! Integers are little-endian, a `bool` is one byte, a 256-bit word is its 32
//! big-endian bytes, and a list is a compact length prefix followed by its
//! items. Every decoder is exact: it accepts the encoding of one value and
//! nothing else, so a stored byte string that does not decode is corruption.
use vstd::prelude::*;
use vstd::arithmetic::div_mod::{
    lemma_div_denominator, lemma_mod_breakdown, lemma_mod_mod, lemma_small_mod,
};

use crate::felt::Felt;

verus! {

pub open spec fn pow256(n: nat) -> nat
    decreases n,
{
    if n == 0 {
        1
    } else {
        256 * pow256((n - 1) as nat)
    }
}

/// The `n` low bytes of `x`, least significant first.
pub open spec fn le_bytes(x: nat, n: nat) -> Seq<u8>
    decreases n,
{
    if n == 0 {
        seq![]
    } else {
        seq![(x % 256) as u8] + le_bytes(x / 256, (n - 1) as nat)
    }
}

/// The number whose little-endian bytes are `s`.
pub open spec fn from_le(s: Seq<u8>) -> nat
    decreases s.len(),
{
    if s.len() == 0 {
        0
    } else {
        s[0] as nat + 256 * from_le(s.drop_first())
    }
}

pub open spec fn enc_u64(x: u64) -> Seq<u8> {
    le_bytes(x as nat, 8)
}

pub open spec fn dec_u64(s: Seq<u8>) -> Option<u64> {
    if s.len() == 8 {
        Some(from_le(s) as u64)
    } else {
        None
    }
}

pub open spec fn enc_bool(b: bool) -> Seq<u8> {
    if b {
        seq![1u8]
    } else {
        seq![0u8]
    }
}

pub open spec fn dec_bool(s: Seq<u8>) -> Option<bool> {
    if s.len() == 1 && s[0] == 0 {
        Some(false)
    } else if s.len() == 1 && s[0] == 1 {
        Some(true)
    } else {
        None
    }
}

/// The `n` low bytes of `x`, most significant first.
pub open spec fn be_bytes(x: nat, n: nat) -> Seq<u8> {
    Seq::new(n, |i: int| le_bytes(x, n)[n - 1 - i])
}

/// The bytes of `s` in the opposite order.
pub open spec fn reversed(s: Seq<u8>) -> Seq<u8> {
    Seq::new(s.len(), |i: int| s[s.len() - 1 - i])
}

/// The number whose big-endian bytes are `s`.
pub open spec fn from_be(s: Seq<u8>) -> nat {
    from_le(reversed(s))
}

pub open spec fn enc_felt(f: Felt) -> Seq<u8> {
    be_bytes(f.hi as nat, 16) + be_bytes(f.lo as nat, 16)
}

/// The word held by exactly 32 bytes.
pub open spec fn felt_of(s: Seq<u8>) -> Felt {
    Felt { hi: from_be(s.subrange(0, 16)) as u128, lo: from_be(s.subrange(16, 32)) as u128 }
}

pub open spec fn dec_felt(s: Seq<u8>) -> Option<Felt> {
    if s.len() == 32 {
        Some(felt_of(s))
    } else {
        None
    }
}

/// The compact form of a length: one, two or four bytes whose two low bits
/// give the form, or a marker byte followed by four bytes.
pub open spec fn enc_compact(n: nat) -> Seq<u8> {
    if n < 64 {
        le_bytes(n * 4, 1)
    } else if n < 0x4000 {
        le_bytes(n * 4 + 1, 2)
    } else if n < 0x4000_0000 {
        le_bytes(n * 4 + 2, 4)
    } else {
        seq![3u8] + le_bytes(n, 4)
    }
}

/// A compact length at the start of `s`, with the number of bytes it takes.
/// Only the shortest form of each length is accepted.
pub open spec fn dec_compact(s: Seq<u8>) -> Option<(nat, nat)> {
    if s.len() == 0 {
        None
    } else if s[0] % 4 == 0 {
        Some(((s[0] / 4) as nat, 1))
    } else if s[0] % 4 == 1 {
        if s.len() >= 2 && from_le(s.subrange(0, 2)) / 4 >= 64 {
            Some((from_le(s.subrange(0, 2)) / 4, 2))
        } else {
            None
        }
    } else if s[0] % 4 == 2 {
        if s.len() >= 4 && from_le(s.subrange(0, 4)) / 4 >= 0x4000 {
            Some((from_le(s.subrange(0, 4)) / 4, 4))
        } else {
            None
        }
    } else {
        if s[0] == 3 && s.len() >= 5 && from_le(s.subrange(1, 5)) >= 0x4000_0000 {
            Some((from_le(s.subrange(1, 5)), 5))
        } else {
            None
        }
    }
}

pub open spec fn enc_felt_items(v: Seq<Felt>) -> Seq<u8>
    decreases v.len(),
{
    if v.len() == 0 {
        seq![]
    } else {
        enc_felt(v[0]) + enc_felt_items(v.drop_first())
    }
}

pub open spec fn enc_felts(v: Seq<Felt>) -> Seq<u8> {
    enc_compact(v.len()) + enc_felt_items(v)
}

pub open spec fn dec_felts(s: Seq<u8>) -> Option<Seq<Felt>> {
    match dec_compact(s) {
        Some((n, k)) => if s.len() == k + 32 * n {
            Some(Seq::new(n, |j: int| felt_of(s.subrange(k + 32 * j, k + 32 * j + 32))))
        } else {
            None
        },
        None => None,
    }
}

pub open spec fn enc_bytes(v: Seq<u8>) -> Seq<u8> {
    enc_compact(v.len()) + v
}

pub open spec fn dec_bytes(s: Seq<u8>) -> Option<Seq<u8>> {
    match dec_compact(s) {
        Some((n, k)) => if s.len() == k + n {
            Some(s.subrange(k as int, s.len() as int))
        } else {
            None
        },
        None => None,
    }
}

pub proof fn lemma_pow256_values()
    ensures
        pow256(1) == 0x100,
        pow256(2) == 0x1_0000,
        pow256(4) == 0x1_0000_0000,
        pow256(8) == 0x1_0000_0000_0000_0000,
        pow256(16) == 0x1_0000_0000_0000_0000 * 0x1_0000_0000_0000_0000,
{
    reveal_with_fuel(pow256, 17);
}

pub proof fn lemma_pow256_mono(a: nat, b: nat)
    requires
        a <= b,
    ensures
        1 <= pow256(a) <= pow256(b),
    decreases b,
{
    if b > 0 {
        if a < b {
            lemma_pow256_mono(a, (b - 1) as nat);
        } else {
            lemma_pow256_mono((a - 1) as nat, (b - 1) as nat);
        }
    }
}

pub proof fn lemma_le_bytes_len(x: nat, n: nat)
    ensures
        le_bytes(x, n).len() == n,
    decreases n,
{
    if n > 0 {
        lemma_le_bytes_len(x / 256, (n - 1) as nat);
    }
}

pub proof fn lemma_from_le_bound(s: Seq<u8>)
    ensures
        from_le(s) < pow256(s.len()),
    decreases s.len(),
{
    if s.len() > 0 {
        lemma_from_le_bound(s.drop_first());
    }
}

/// Reading back the bytes of `x` gives `x` modulo the range they cover.
pub proof fn lemma_from_le_le(x: nat, n: nat)
    ensures
        from_le(le_bytes(x, n)) == x % pow256(n),
    decreases n,
{
    if n > 0 {
        let p = pow256((n - 1) as nat);
        lemma_pow256_mono(0, (n - 1) as nat);
        lemma_from_le_le(x / 256, (n - 1) as nat);
        let s = le_bytes(x, n);
        assert(s.drop_first() =~= le_bytes(x / 256, (n - 1) as nat));
        lemma_mod_breakdown(x as int, 256, p as int);
    }
}

/// Appending one byte at the top of the encoding.
pub proof fn lemma_le_bytes_snoc(x: nat, i: nat)
    ensures
        le_bytes(x, i + 1) =~= le_bytes(x, i).push(((x / pow256(i)) % 256) as u8),
    decreases i,
{
    if i == 0 {
        assert(pow256(0) == 1);
        assert(le_bytes(x, 1) =~= seq![(x % 256) as u8] + le_bytes(x / 256, 0));
    } else {
        let p = pow256((i - 1) as nat);
        lemma_pow256_mono(0, (i - 1) as nat);
        lemma_le_bytes_snoc(x / 256, (i - 1) as nat);
        lemma_div_denominator(x as int, 256, p as int);
        let head = seq![(x % 256) as u8];
        let t = le_bytes(x / 256, (i - 1) as nat);
        let b = (((x / 256) / p) % 256) as u8;
        assert(le_bytes(x / 256, i) =~= t.push(b));
        assert(le_bytes(x, i + 1) =~= head + t.push(b));
        assert(le_bytes(x, i) =~= head + t);
        assert(head + t.push(b) =~= (head + t).push(b));
    }
}

/// Decoding the encoding of a `u64` gives it back.
pub proof fn lemma_u64_round_trip(x: u64)
    ensures
        dec_u64(enc_u64(x)) == Some(x),
{
    lemma_le_bytes_len(x as nat, 8);
    lemma_from_le_le(x as nat, 8);
    lemma_pow256_values();
}

/// Decoding the encoding of a word gives it back.
pub proof fn lemma_felt_round_trip(f: Felt)
    ensures
        dec_felt(enc_felt(f)) == Some(f),
{
    let s = enc_felt(f);
    lemma_enc_felt_len(f);
    lemma_from_be_be(f.hi as nat, 16);
    lemma_from_be_be(f.lo as nat, 16);
    lemma_pow256_values();
    assert(s.subrange(0, 16) =~= be_bytes(f.hi as nat, 16));
    assert(s.subrange(16, 32) =~= be_bytes(f.lo as nat, 16));
    lemma_small_mod(f.lo as nat, pow256(16));
    lemma_small_mod(f.hi as nat, pow256(16));
    assert(felt_of(s) == f);
}

pub proof fn lemma_enc_felt_len(f: Felt)
    ensures
        enc_felt(f).len() == 32,
{
}

/// Reading back the big-endian bytes of `x` gives `x` modulo the range
/// they cover.
pub proof fn lemma_from_be_be(x: nat, n: nat)
    ensures
        from_be(be_bytes(x, n)) == x % pow256(n),
{
    lemma_le_bytes_len(x, n);
    assert(reversed(be_bytes(x, n)) =~= le_bytes(x, n));
    lemma_from_le_le(x, n);
}

/// A compact length is read back from the front of any bytes that follow it.
pub proof fn lemma_compact_round_trip(n: nat, rest: Seq<u8>)
    requires
        n <= u32::MAX,
    ensures
        dec_compact(enc_compact(n) + rest) == Some((n, enc_compact(n).len())),
{
    let e = enc_compact(n);
    let s = e + rest;
    lemma_pow256_values();
    if n < 64 {
        lemma_le_bytes_len(n * 4, 1);
        assert(s[0] == ((n * 4) % 256) as u8);
        assert(s[0] == n * 4);
    } else if n < 0x4000 {
        let x = n * 4 + 1;
        lemma_le_bytes_len(x, 2);
        lemma_from_le_le(x, 2);
        assert(s.subrange(0, 2) =~= e);
        assert(s[0] == (x % 256) as u8);
        lemma_mod_mod(x as int, 4, 64);
        assert(x % 4 == 1) by (nonlinear_arith)
            requires x == n * 4 + 1;
        assert(x / 4 == n) by (nonlinear_arith)
            requires x == n * 4 + 1;
    } else if n < 0x4000_0000 {
        let x = n * 4 + 2;
        lemma_le_bytes_len(x, 4);
        lemma_from_le_le(x, 4);
        assert(s.subrange(0, 4) =~= e);
        assert(s[0] == (x % 256) as u8);
        lemma_mod_mod(x as int, 4, 64);
        assert(x % 4 == 2) by (nonlinear_arith)
            requires x == n * 4 + 2;
        assert(x / 4 == n) by (nonlinear_arith)
            requires x == n * 4 + 2;
    } else {
        lemma_le_bytes_len(n, 4);
        lemma_from_le_le(n, 4);
        assert(s.subrange(1, 5) =~= le_bytes(n, 4));
        assert(s[0] == 3u8);
    }
}

pub proof fn lemma_felt_items(v: Seq<Felt>)
    ensures
        enc_felt_items(v).len() == 32 * v.len(),
        forall|j: int|
            0 <= j < v.len() ==> #[trigger] enc_felt_items(v).subrange(32 * j, 32 * j + 32)
                == enc_felt(v[j]),
    decreases v.len(),
{
    if v.len() > 0 {
        let t = v.drop_first();
        lemma_felt_items(t);
        lemma_enc_felt_len(v[0]);
        let e = enc_felt_items(v);
        assert forall|j: int| 0 <= j < v.len() implies #[trigger] e.subrange(32 * j, 32 * j + 32)
            == enc_felt(v[j]) by {
            if j == 0 {
                assert(e.subrange(0, 32) =~= enc_felt(v[0]));
            } else {
                assert(enc_felt_items(t).subrange(32 * (j - 1), 32 * (j - 1) + 32) == enc_felt(
                    t[j - 1],
                ));
                assert(e.subrange(32 * j, 32 * j + 32) =~= enc_felt_items(t).subrange(
                    32 * (j - 1),
                    32 * (j - 1) + 32,
                ));
            }
        }
    }
}

/// Decoding the encoding of a list of words gives it back.
pub proof fn lemma_felts_round_trip(v: Seq<Felt>)
    requires
        v.len() <= u32::MAX,
    ensures
        dec_felts(enc_felts(v)) == Some(v),
{
    let c = enc_compact(v.len());
    let items = enc_felt_items(v);
    let s = c + items;
    lemma_compact_round_trip(v.len(), items);
    lemma_felt_items(v);
    let k = c.len();
    let d = Seq::new(v.len(), |j: int| felt_of(s.subrange(k + 32 * j, k + 32 * j + 32)));
    assert forall|j: int| 0 <= j < v.len() implies d[j] == v[j] by {
        assert(s.subrange(k + 32 * j, k + 32 * j + 32) =~= items.subrange(32 * j, 32 * j + 32));
        lemma_felt_round_trip(v[j]);
        lemma_enc_felt_len(v[j]);
    }
    assert(d =~= v);
}

/// Decoding the encoding of a byte string gives it back.
pub proof fn lemma_bytes_round_trip(v: Seq<u8>)
    requires
        v.len() <= u32::MAX,
    ensures
        dec_bytes(enc_bytes(v)) == Some(v),
{
    let c = enc_compact(v.len());
    lemma_compact_round_trip(v.len(), v);
    assert((c + v).subrange(c.len() as int, (c + v).len() as int) =~= v);
}

/// Decoding the encoding of a `bool` gives it back.
pub proof fn lemma_bool_round_trip(b: bool)
    ensures
        dec_bool(enc_bool(b)) == Some(b),
{
}

/// Appends the `n` low bytes of `x` to `out`.
fn push_le(out: &mut Vec<u8>, x: u128, n: usize)
    requires
        n <= 16,
    ensures
        final(out)@ == old(out)@ + le_bytes(x as nat, n as nat),
{
    let ghost start = old(out)@;
    let mut v: u128 = x;
    let mut i: usize = 0;
    proof {
        lemma_pow256_mono(0, 0);
        assert(le_bytes(x as nat, 0) =~= seq![]);
        assert(start + le_bytes(x as nat, 0) =~= start);
    }
    while i < n
        invariant
            i <= n,
            out@ == start + le_bytes(x as nat, i as nat),
            v as nat == x as nat / pow256(i as nat),
        decreases n - i,
    {
        proof {
            lemma_le_bytes_snoc(x as nat, i as nat);
            lemma_pow256_mono(0, i as nat);
            lemma_div_denominator(x as int, pow256(i as nat) as int, 256);
            assert(pow256((i + 1) as nat) == pow256(i as nat) * 256);
        }
        out.push((v % 256) as u8);
        v = v / 256;
        i = i + 1;
        proof {
            assert(out@ =~= start + le_bytes(x as nat, i as nat));
        }
    }
}

/// The number held by `n` bytes of `s` from `start`, least significant first.
fn read_le(s: &[u8], start: usize, n: usize) -> (r: u128)
    requires
        n <= 16,
        start + n <= s@.len(),
    ensures
        r as nat == from_le(s@.subrange(start as int, start + n)),
{
    let mut acc: u128 = 0;
    let mut i: usize = n;
    let len = s.len();
    proof {
        assert(s@.subrange(start + n, start + n) =~= Seq::<u8>::empty());
    }
    while i > 0
        invariant
            i <= n,
            n <= 16,
            start + n <= s@.len(),
            len == s@.len(),
            acc as nat == from_le(s@.subrange(start + i, start + n)),
        decreases i,
    {
        let ghost tail = s@.subrange(start + i, start + n);
        let ghost whole = s@.subrange(start + i - 1, start + n);
        proof {
            lemma_from_le_bound(tail);
            lemma_pow256_mono((n - i) as nat, 15);
            lemma_pow256_values();
            assert(pow256(16) == 256 * pow256(15));
            assert(whole.drop_first() =~= tail);
            assert(acc < pow256(15));
            assert(256 * acc + 255 < 256 * pow256(15));
            assert(256 * acc + 255 <= u128::MAX);
        }
        acc = s[start + i - 1] as u128 + 256 * acc;
        i = i - 1;
    }
    acc
}

pub fn encode_u64(x: u64) -> (r: Vec<u8>)
    ensures
        r@ == enc_u64(x),
{
    let mut out: Vec<u8> = Vec::new();
    push_le(&mut out, x as u128, 8);
    proof {
        assert(out@ =~= enc_u64(x));
    }
    out
}

pub fn decode_u64(s: &[u8]) -> (r: Option<u64>)
    ensures
        r == dec_u64(s@),
{
    if s.len() == 8 {
        let x = read_le(s, 0, 8);
        proof {
            assert(s@.subrange(0, 8) =~= s@);
            lemma_from_le_bound(s@);
            lemma_pow256_values();
        }
        Some(x as u64)
    } else {
        None
    }
}

pub fn encode_bool(b: bool) -> (r: Vec<u8>)
    ensures
        r@ == enc_bool(b),
{
    let mut out: Vec<u8> = Vec::new();
    if b {
        out.push(1);
    } else {
        out.push(0);
    }
    proof {
        assert(out@ =~= enc_bool(b));
    }
    out
}

pub fn decode_bool(s: &[u8]) -> (r: Option<bool>)
    ensures
        r == dec_bool(s@),
{
    if s.len() == 1 && s[0] == 0 {
        Some(false)
    } else if s.len() == 1 && s[0] == 1 {
        Some(true)
    } else {
        None
    }
}

/// Appends the `n` low bytes of `x` to `out`, most significant first.
fn push_be(out: &mut Vec<u8>, x: u128, n: usize)
    requires
        n <= 16,
    ensures
        final(out)@ == old(out)@ + be_bytes(x as nat, n as nat),
{
    let mut le: Vec<u8> = Vec::new();
    push_le(&mut le, x, n);
    proof {
        lemma_le_bytes_len(x as nat, n as nat);
    }
    let ghost start = out@;
    let mut i: usize = 0;
    while i < n
        invariant
            i <= n,
            le@ =~= le_bytes(x as nat, n as nat),
            le@.len() == n,
            out@ =~= start + Seq::new(i as nat, |j: int| le@[n - 1 - j]),
        decreases n - i,
    {
        out.push(le[n - 1 - i]);
        i = i + 1;
    }
}

fn push_felt(out: &mut Vec<u8>, f: Felt)
    ensures
        final(out)@ == old(out)@ + enc_felt(f),
{
    push_be(out, f.hi, 16);
    push_be(out, f.lo, 16);
    proof {
        assert(final(out)@ =~= old(out)@ + enc_felt(f));
    }
}

pub fn encode_felt(f: Felt) -> (r: Vec<u8>)
    ensures
        r@ == enc_felt(f),
{
    let mut out: Vec<u8> = Vec::new();
    push_felt(&mut out, f);
    proof {
        assert(out@ =~= enc_felt(f));
    }
    out
}

/// The number held by `n` bytes of `s` from `start`, most significant first.
fn read_be(s: &[u8], start: usize, n: usize) -> (r: u128)
    requires
        n <= 16,
        start + n <= s@.len(),
    ensures
        r as nat == from_be(s@.subrange(start as int, start + n)),
{
    let mut le: Vec<u8> = Vec::new();
    let mut i: usize = 0;
    let len = s.len();
    while i < n
        invariant
            i <= n,
            n <= 16,
            start + n <= s@.len(),
            len == s@.len(),
            le@ =~= Seq::new(i as nat, |j: int| s@[start + n - 1 - j]),
        decreases n - i,
    {
        le.push(s[start + n - 1 - i]);
        i = i + 1;
    }
    proof {
        assert(le@ =~= reversed(s@.subrange(start as int, start + n)));
        assert(le@.subrange(0, n as int) =~= le@);
    }
    read_le(le.as_slice(), 0, n)
}

/// The word held by the 32 bytes of `s` from `start`.
fn read_felt(s: &[u8], start: usize) -> (r: Felt)
    requires
        start + 32 <= s@.len(),
    ensures
        r == felt_of(s@.subrange(start as int, start + 32)),
{
    let len = s.len();
    assert(start + 16 < len);
    let hi = read_be(s, start, 16);
    let lo = read_be(s, start + 16, 16);
    proof {
        let w = s@.subrange(start as int, start + 32);
        assert(w.subrange(0, 16) =~= s@.subrange(start as int, start + 16));
        assert(w.subrange(16, 32) =~= s@.subrange(start + 16, start + 32));
    }
    Felt { hi, lo }
}

/// The word held by exactly 32 bytes.
pub fn felt_from_bytes(s: &[u8]) -> (r: Felt)
    requires
        s@.len() == 32,
    ensures
        r == felt_of(s@),
{
    let f = read_felt(s, 0);
    proof {
        assert(s@.subrange(0, 32) =~= s@);
    }
    f
}

pub fn decode_felt(s: &[u8]) -> (r: Option<Felt>)
    ensures
        r == dec_felt(s@),
{
    if s.len() == 32 {
        let f = read_felt(s, 0);
        proof {
            assert(s@.subrange(0, 32) =~= s@);
        }
        Some(f)
    } else {
        None
    }
}

fn push_compact(out: &mut Vec<u8>, n: usize)
    requires
        n <= u32::MAX,
    ensures
        final(out)@ == old(out)@ + enc_compact(n as nat),
{
    if n < 64 {
        push_le(out, (n * 4) as u128, 1);
    } else if n < 0x4000 {
        push_le(out, (n * 4 + 1) as u128, 2);
    } else if n < 0x4000_0000 {
        push_le(out, (n * 4 + 2) as u128, 4);
    } else {
        out.push(3);
        push_le(out, n as u128, 4);
        proof {
            assert(final(out)@ =~= old(out)@ + enc_compact(n as nat));
        }
    }
}

/// The compact length at the start of `s` and the bytes it takes.
fn read_compact(s: &[u8]) -> (r: Option<(usize, usize)>)
    ensures
        match r {
            Some((n, k)) => dec_compact(s@) == Some((n as nat, k as nat)) && k <= s@.len(),
            None => dec_compact(s@) is None,
        },
{
    if s.len() == 0 {
        return None;
    }
    let b0 = s[0];
    if b0 % 4 == 0 {
        Some(((b0 / 4) as usize, 1))
    } else if b0 % 4 == 1 {
        if s.len() >= 2 {
            let x = read_le(s, 0, 2);
            proof {
                lemma_from_le_bound(s@.subrange(0, 2));
                lemma_pow256_values();
            }
            if x / 4 >= 64 {
                return Some(((x / 4) as usize, 2));
            }
        }
        None
    } else if b0 % 4 == 2 {
        if s.len() >= 4 {
            let x = read_le(s, 0, 4);
            proof {
                lemma_from_le_bound(s@.subrange(0, 4));
                lemma_pow256_values();
            }
            if x / 4 >= 0x4000 {
                return Some(((x / 4) as usize, 4));
            }
        }
        None
    } else {
        if b0 == 3 && s.len() >= 5 {
            let x = read_le(s, 1, 4);
            proof {
                lemma_from_le_bound(s@.subrange(1, 5));
                lemma_pow256_values();
            }
            if x >= 0x4000_0000 {
                return Some((x as usize, 5));
            }
        }
        None
    }
}

pub fn encode_felts(v: &Vec<Felt>) -> (r: Vec<u8>)
    requires
        v@.len() <= u32::MAX,
    ensures
        r@ == enc_felts(v@),
{
    let mut out: Vec<u8> = Vec::new();
    push_compact(&mut out, v.len());
    let ghost head = out@;
    let mut i: usize = 0;
    proof {
        assert(enc_felt_items(v@.subrange(0, 0)) =~= seq![]);
        assert(out@ =~= head + enc_felt_items(v@.subrange(0, 0)));
    }
    while i < v.len()
        invariant
            i <= v@.len(),
            head == enc_compact(v@.len()),
            out@ == head + enc_felt_items(v@.subrange(0, i as int)),
        decreases v@.len() - i,
    {
        push_felt(&mut out, v[i]);
        proof {
            lemma_felt_items_snoc(v@.subrange(0, i as int), v@[i as int]);
            assert(v@.subrange(0, i as int).push(v@[i as int]) =~= v@.subrange(0, i + 1));
            assert(out@ =~= head + enc_felt_items(v@.subrange(0, i + 1)));
        }
        i = i + 1;
    }
    proof {
        assert(v@.subrange(0, v@.len() as int) =~= v@);
    }
    out
}

proof fn lemma_felt_items_snoc(v: Seq<Felt>, f: Felt)
    ensures
        enc_felt_items(v.push(f)) =~= enc_felt_items(v) + enc_felt(f),
    decreases v.len(),
{
    if v.len() == 0 {
        assert(v.push(f).drop_first() =~= Seq::<Felt>::empty());
        assert(enc_felt_items(Seq::<Felt>::empty()) =~= seq![]);
    } else {
        lemma_felt_items_snoc(v.drop_first(), f);
        assert(v.push(f).drop_first() =~= v.drop_first().push(f));
    }
}

pub fn decode_felts(s: &[u8]) -> (r: Option<Vec<Felt>>)
    ensures
        match r {
            Some(v) => dec_felts(s@) == Some(v@),
            None => dec_felts(s@) is None,
        },
{
    match read_compact(s) {
        None => None,
        Some((n, k)) => {
            let rest = s.len() - k;
            if n > rest / 32 {
                return None;
            }
            assert(32 * n <= rest) by (nonlinear_arith)
                requires n <= rest / 32;
            if rest != 32 * n {
                return None;
            }
            let mut out: Vec<Felt> = Vec::new();
            let mut i: usize = 0;
            let len = s.len();
            while i < n
                invariant
                    i <= n,
                    len == s@.len(),
                    k + 32 * n == s@.len(),
                    out@ =~= Seq::new(
                        i as nat,
                        |j: int| felt_of(s@.subrange(k + 32 * j, k + 32 * j + 32)),
                    ),
                decreases n - i,
            {
                assert(32 * i + 32 <= 32 * n) by (nonlinear_arith)
                    requires i < n;
                let f = read_felt(s, k + 32 * i);
                out.push(f);
                i = i + 1;
            }
            Some(out)
        },
    }
}

pub fn encode_bytes(v: &Vec<u8>) -> (r: Vec<u8>)
    requires
        v@.len() <= u32::MAX,
    ensures
        r@ == enc_bytes(v@),
{
    let mut out: Vec<u8> = Vec::new();
    push_compact(&mut out, v.len());
    let mut i: usize = 0;
    let ghost head = out@;
    while i < v.len()
        invariant
            i <= v@.len(),
            out@ =~= head + v@.subrange(0, i as int),
        decreases v@.len() - i,
    {
        out.push(v[i]);
        i = i + 1;
    }
    out
}

pub fn decode_bytes(s: &[u8]) -> (r: Option<Vec<u8>>)
    ensures
        match r {
            Some(v) => dec_bytes(s@) == Some(v@),
            None => dec_bytes(s@) is None,
        },
{
    match read_compact(s) {
        None => None,
        Some((n, k)) => {
            if s.len() - k != n {
                return None;
            }
            let mut out: Vec<u8> = Vec::new();
            let mut i: usize = k;
            while i < s.len()
                invariant
                    k <= i <= s@.len(),
                    out@ =~= s@.subrange(k as int, i as int),
                decreases s@.len() - i,
            {
                out.push(s[i]);
                i = i + 1;
            }
            Some(out)
        },
    }
}

} // verus!
