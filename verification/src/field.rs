//! Trusted boundary around the backend's field and curve-point primitives.
//!
//! The scalar field `ark_bn254::Fr` and the affine curve points are opaque
//! values here: what the backend computes on them is named by uninterpreted
//! spec functions, and each executable wrapper states only what the backend's
//! source shows of its result.

use vstd::prelude::*;

verus! {

use ark_ff::FromBytes;
use ark_ff::ToBytes;

#[verifier::external_type_specification]
#[verifier::external_body]
#[verifier::reject_recursive_types(P)]
pub struct ExFp256<P>(ark_ff::Fp256<P>);

#[verifier::external_type_specification]
#[verifier::external_body]
pub struct ExFrParameters(ark_bn254::FrParameters);

#[verifier::external_type_specification]
#[verifier::external_body]
pub struct ExFqParameters(ark_bn254::FqParameters);

/// The sum of two scalar-field elements, as the backend computes it.
pub uninterp spec fn fr_add_of(a: ark_bn254::Fr, b: ark_bn254::Fr) -> ark_bn254::Fr;

/// The field element that a 64-bit integer embeds to.
pub uninterp spec fn fr_of_u64(n: u64) -> ark_bn254::Fr;

/// The canonical byte encoding of a scalar-field element.
pub uninterp spec fn fr_bytes_of(e: ark_bn254::Fr) -> Seq<u8>;

/// The canonical byte encoding of a base-field element (a curve-point
/// coordinate, or one half of a quadratic-extension coordinate).
pub uninterp spec fn fq_bytes_of(e: ark_bn254::Fq) -> Seq<u8>;

/// The algebra of scalar-field addition that canonicalization relies on:
/// addition in a prime field is commutative and associative.
pub open spec fn fr_add_laws() -> bool {
    &&& (forall|a: ark_bn254::Fr, b: ark_bn254::Fr|
        #[trigger] fr_add_of(a, b) == fr_add_of(b, a))
    &&& (forall|a: ark_bn254::Fr, b: ark_bn254::Fr, c: ark_bn254::Fr|
        #[trigger] fr_add_of(fr_add_of(a, b), c) == fr_add_of(a, fr_add_of(b, c)))
}

/// What `fr_add` returns: the named sum, together with the addition laws.
pub open spec fn fr_add_post(a: ark_bn254::Fr, b: ark_bn254::Fr, r: ark_bn254::Fr) -> bool {
    r == fr_add_of(a, b) && fr_add_laws()
}

/// Relies on `+` for `ark_bn254::Fr` (ark-ff's prime-field addition): the sum
/// is a pure function of the two operands, and field addition is commutative
/// and associative.
#[verifier::external_body]
pub fn fr_add(a: &ark_bn254::Fr, b: &ark_bn254::Fr) -> (r: ark_bn254::Fr)
    ensures
        r == fr_add_of(*a, *b),
        fr_add_post(*a, *b, r),
{
    *a + *b
}

/// What `fr_from_u64` returns: the named embedding, which is injective.
pub open spec fn fr_of_u64_post(n: u64, r: ark_bn254::Fr) -> bool {
    r == fr_of_u64(n) && (forall|x: u64, y: u64|
        #![trigger fr_of_u64(x), fr_of_u64(y)]
        (fr_of_u64(x) == fr_of_u64(y)) <==> x == y)
}

/// Relies on `From<u64>` for `ark_bn254::Fr`: embeds the integer into the
/// field; the embedding is injective because every `u64` value lies below the
/// field's modulus.
#[verifier::external_body]
pub fn fr_from_u64(n: u64) -> (r: ark_bn254::Fr)
    ensures
        r == fr_of_u64(n),
        fr_of_u64_post(n, r),
{
    ark_bn254::Fr::from(n)
}

/// Relies on ark-ff's `ToBytes` for `Fp256`: writes the canonical integer
/// representative as exactly 32 little-endian bytes, a pure function of the
/// element (writing to a `Vec` cannot fail).
#[verifier::external_body]
pub fn fr_to_bytes(e: &ark_bn254::Fr) -> (r: Vec<u8>)
    ensures
        r@ == fr_bytes_of(*e),
        r@.len() == 32,
{
    let mut bytes: Vec<u8> = Vec::new();
    e.write(&mut bytes).unwrap();
    bytes
}

/// Relies on ark-ff's `FromBytes` for `Fp256`: reading back the canonical
/// 32-byte encoding of an element returns that element.
#[verifier::external_body]
pub fn fr_from_bytes(b: &Vec<u8>) -> (r: Option<ark_bn254::Fr>)
    ensures
        forall|x: ark_bn254::Fr| b@ == fr_bytes_of(x) ==> r == Some(x),
{
    match ark_bn254::Fr::read(b.as_slice()) {
        Ok(v) => Some(v),
        Err(_) => None,
    }
}

/// Relies on ark-ff's `ToBytes` for `Fp256`: writes the canonical integer
/// representative of a base-field element as exactly 32 little-endian bytes,
/// a pure function of the element (writing to a `Vec` cannot fail).
#[verifier::external_body]
pub fn fq_to_bytes(e: &ark_bn254::Fq) -> (r: Vec<u8>)
    ensures
        r@ == fq_bytes_of(*e),
        r@.len() == 32,
{
    let mut bytes: Vec<u8> = Vec::new();
    e.write(&mut bytes).unwrap();
    bytes
}

/// Relies on ark-ff's `FromBytes` for `Fp256`: reading back the canonical
/// 32-byte encoding of a base-field element returns that element.
#[verifier::external_body]
pub fn fq_from_bytes(b: &Vec<u8>) -> (r: Option<ark_bn254::Fq>)
    ensures
        forall|x: ark_bn254::Fq| b@ == fq_bytes_of(x) ==> r == Some(x),
{
    match ark_bn254::Fq::read(b.as_slice()) {
        Ok(v) => Some(v),
        Err(_) => None,
    }
}

} // verus!
