//! The hashing capability that commitments are built with.
//!
//! The engine is written against `StarkHasher`, which hashes two field
//! elements or a list of them; `Pedersen` provides it through the Stark curve
//! Pedersen hash of starknet-types-core.
use vstd::prelude::*;

use crate::codec::{enc_felt, encode_felt, felt_from_bytes, felt_of};
use crate::felt::{Felt, field_prime};

verus! {

impl Felt {
    /// The 32 big-endian bytes of this word.
    pub fn to_be_bytes(&self) -> (r: Vec<u8>)
        ensures
            r@ == enc_felt(*self),
    {
        encode_felt(*self)
    }

    /// The word held by 32 big-endian bytes.
    pub fn from_be_slice(b: &[u8]) -> (r: Felt)
        requires
            b@.len() == 32,
        ensures
            r == felt_of(b@),
    {
        felt_from_bytes(b)
    }
}

/// The Pedersen hash of two field elements.
pub uninterp spec fn pedersen_of(a: int, b: int) -> int;

/// The Pedersen hash of a list of field elements.
pub uninterp spec fn pedersen_array_of(s: Seq<int>) -> int;

/// The values of a list of words.
pub open spec fn values_of(s: Seq<Felt>) -> Seq<int> {
    s.map_values(|f: Felt| f.value())
}

/// A hash over field elements.
pub trait StarkHasher {
    /// The hash of two elements.
    spec fn combine_spec(a: int, b: int) -> int;

    /// The hash of a list of elements.
    spec fn elements_spec(s: Seq<int>) -> int;

    fn combine_two(a: Felt, b: Felt) -> (r: Felt)
        ensures
            r.value() == Self::combine_spec(a.value(), b.value()),
            r.value() < field_prime(),
    ;

    fn hash_on_elements(elements: &Vec<Felt>) -> (r: Felt)
        ensures
            r.value() == Self::elements_spec(values_of(elements@)),
            r.value() < field_prime(),
    ;
}

/// The Pedersen hash on the Stark curve.
pub struct Pedersen;

impl StarkHasher for Pedersen {
    open spec fn combine_spec(a: int, b: int) -> int {
        pedersen_of(a, b)
    }

    open spec fn elements_spec(s: Seq<int>) -> int {
        pedersen_array_of(s)
    }

    fn combine_two(a: Felt, b: Felt) -> (r: Felt) {
        pedersen_hash(a, b)
    }

    fn hash_on_elements(elements: &Vec<Felt>) -> (r: Felt) {
        pedersen_hash_array(elements)
    }
}

/// Relies on starknet_types_core's `Pedersen::hash` (0.1.7), the Stark curve
/// Pedersen hash of two field elements. The words go in through
/// `Felt::from_bytes_be_slice`, which reduces them modulo the prime, and the
/// result comes back through `Felt::to_bytes_be`, its canonical bytes.
#[verifier::external_body]
fn pedersen_hash(a: Felt, b: Felt) -> (r: Felt)
    ensures
        r.value() == pedersen_of(a.value(), b.value()),
        r.value() < field_prime(),
{
    let x = starknet_types_core::felt::Felt::from_bytes_be_slice(&a.to_be_bytes());
    let y = starknet_types_core::felt::Felt::from_bytes_be_slice(&b.to_be_bytes());
    let h = <starknet_types_core::hash::Pedersen as starknet_types_core::hash::StarkHash>::hash(&x, &y);
    Felt::from_be_slice(&h.to_bytes_be())
}

/// Relies on starknet_types_core's `Pedersen::hash_array` (0.1.7), which
/// folds the pair hash over the list from zero and hashes in the length.
/// Conversions as for `pedersen_hash`.
#[verifier::external_body]
fn pedersen_hash_array(elements: &Vec<Felt>) -> (r: Felt)
    ensures
        r.value() == pedersen_array_of(values_of(elements@)),
        r.value() < field_prime(),
{
    let v: Vec<starknet_types_core::felt::Felt> = elements
        .iter()
        .map(|f| starknet_types_core::felt::Felt::from_bytes_be_slice(&f.to_be_bytes()))
        .collect();
    let h = <starknet_types_core::hash::Pedersen as starknet_types_core::hash::StarkHash>::hash_array(&v);
    Felt::from_be_slice(&h.to_bytes_be())
}

/// Relies on starknet_types_core's `Felt` addition (0.1.7), which adds
/// modulo the Stark prime; `Felt::from_bytes_be_slice` reads each word as one
/// integer reduced modulo the prime.
#[verifier::external_body]
pub(crate) fn felt_add(a: Felt, b: Felt) -> (r: Felt)
    ensures
        r.value() == (a.value() + b.value()) % field_prime(),
{
    let x = starknet_types_core::felt::Felt::from_bytes_be_slice(&a.to_be_bytes());
    let y = starknet_types_core::felt::Felt::from_bytes_be_slice(&b.to_be_bytes());
    Felt::from_be_slice(&(x + y).to_bytes_be())
}

} // verus!
