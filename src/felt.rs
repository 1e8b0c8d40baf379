use vstd::prelude::*;
use vstd::arithmetic::div_mod::{
    lemma_fundamental_div_mod_converse_div, lemma_fundamental_div_mod_converse_mod,
};

verus! {

/// 2^128, the weight of the upper half of a 256-bit word.
pub open spec fn two_pow_128() -> int {
    (0x1_0000_0000_0000_0000 * 0x1_0000_0000_0000_0000) as int
}

/// The prime of the Stark field, 2^251 + 17 * 2^192 + 1.
pub open spec fn field_prime() -> int {
    0x800_0000_0000_0011 * two_pow_128() * 0x1_0000_0000_0000_0000 + 1
}

/// A 256-bit Starknet scalar (field element, hash, address, key or value),
/// held as its upper and lower 128 bits.
#[derive(Clone, Copy, Debug, PartialEq, Eq, Structural, Hash)]
pub struct Felt {
    pub hi: u128,
    pub lo: u128,
}

/// A node-internal block hash: an opaque 256-bit word.
pub type H256 = Felt;

/// The word whose value is `x`, for `0 <= x < 2^256`.
pub open spec fn felt_from_int(x: int) -> Felt {
    Felt { hi: (x / two_pow_128()) as u128, lo: (x % two_pow_128()) as u128 }
}

/// A word is the word of its value.
pub proof fn lemma_felt_of_value(f: Felt)
    ensures
        felt_from_int(f.value()) == f,
{
    lemma_fundamental_div_mod_converse_div(f.value(), two_pow_128(), f.hi as int, f.lo as int);
    lemma_fundamental_div_mod_converse_mod(f.value(), two_pow_128(), f.hi as int, f.lo as int);
}

impl Felt {
    /// The integer this word stands for.
    pub open spec fn value(self) -> int {
        self.hi * two_pow_128() + self.lo
    }

    pub fn zero() -> (r: Felt)
        ensures
            r == (Felt { hi: 0, lo: 0 }),
            r.value() == 0,
    {
        Felt { hi: 0, lo: 0 }
    }

    pub fn from_u64(x: u64) -> (r: Felt)
        ensures
            r == (Felt { hi: 0, lo: x as u128 }),
            r.value() == x,
    {
        Felt { hi: 0, lo: x as u128 }
    }

    pub fn from_u128(x: u128) -> (r: Felt)
        ensures
            r.value() == x,
    {
        Felt { hi: 0, lo: x }
    }
}

} // verus!
