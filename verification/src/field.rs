//! The field below an extension tower: what the tower asks of it, as
//! operations on values, a model of each operation and the laws of the model.

use crate::serialize::{encoding_result, Flags, SerializationError};
use vstd::prelude::*;

verus! {

/// The outcome of a three-way comparison.
#[derive(Clone, Copy, Debug, PartialEq, Eq, Structural)]
pub enum Comparison {
    Less,
    Equal,
    Greater,
}

/// A commutative ring with a partial inverse and a family of Frobenius
/// maps, given by its operations on values, a model of each operation and
/// the laws that the model obeys.
pub trait Field: Sized + Copy {
    /// The prime field at the bottom of the tower.
    type BasePrimeField: Copy;

    /// Whether the value is a valid element.
    spec fn wf(&self) -> bool;

    /// Whether the value is a valid element of the prime field.
    spec fn prime_wf(e: Self::BasePrimeField) -> bool;

    spec fn zero_spec() -> Self;

    spec fn one_spec() -> Self;

    spec fn add_spec(self, rhs: Self) -> Self;

    spec fn neg_spec(self) -> Self;

    spec fn mul_spec(self, rhs: Self) -> Self;

    /// The multiplicative inverse where the element has one.
    spec fn inverse_spec(self) -> Option<Self>;

    /// The Frobenius map applied `power` times.
    spec fn frobenius_spec(self, power: nat) -> Self;

    /// The degree of the field over its prime field.
    spec fn degree_spec() -> nat;

    spec fn compare_spec(self, rhs: Self) -> Comparison;

    /// The image of a prime field element.
    spec fn from_prime_spec(e: Self::BasePrimeField) -> Self;

    spec fn mul_by_prime_spec(self, e: Self::BasePrimeField) -> Self;

    /// The coordinates of the element over the prime field.
    spec fn to_elems_spec(self) -> Seq<Self::BasePrimeField>;

    /// The element with the given coordinates, if they are as many as the
    /// degree, valid, and stand for one.
    spec fn from_elems_spec(elems: Seq<Self::BasePrimeField>) -> Option<Self>;

    /// The length of every encoding that carries `flag_bits` bits of flags.
    spec fn encoded_len_spec(flag_bits: u8) -> nat;

    /// The bytes that encode the element together with the flags.
    spec fn encoding_spec(self, flags: Flags) -> Seq<u8>;

    /// The bytes that are written before flags that are not valid are
    /// refused.
    spec fn refused_encoding_spec(self) -> Seq<u8>;

    /// What the front of `bytes` decodes to, read as an encoding that
    /// carries `flag_bits` bits of flags.
    spec fn decoding_spec(bytes: Seq<u8>, flag_bits: u8) -> Result<
        (Self, Flags),
        SerializationError,
    >;

    /// The element and flags that arbitrary bytes are turned into, where
    /// they give an element.
    spec fn from_random_bytes_spec(bytes: Seq<u8>, flag_bits: u8) -> Option<(Self, Flags)>;

    proof fn lemma_constants()
        ensures
            Self::zero_spec().wf(),
            Self::one_spec().wf(),
            Self::degree_spec() >= 1,
    ;

    proof fn lemma_closed(a: Self, b: Self)
        requires
            a.wf(),
            b.wf(),
        ensures
            a.add_spec(b).wf(),
            a.neg_spec().wf(),
            a.mul_spec(b).wf(),
    ;

    proof fn lemma_add_commutes(a: Self, b: Self)
        requires
            a.wf(),
            b.wf(),
        ensures
            a.add_spec(b) == b.add_spec(a),
    ;

    proof fn lemma_add_associates(a: Self, b: Self, c: Self)
        requires
            a.wf(),
            b.wf(),
            c.wf(),
        ensures
            a.add_spec(b).add_spec(c) == a.add_spec(b.add_spec(c)),
    ;

    proof fn lemma_add_zero(a: Self)
        requires
            a.wf(),
        ensures
            a.add_spec(Self::zero_spec()) == a,
    ;

    proof fn lemma_add_neg(a: Self)
        requires
            a.wf(),
        ensures
            a.add_spec(a.neg_spec()) == Self::zero_spec(),
    ;

    proof fn lemma_mul_commutes(a: Self, b: Self)
        requires
            a.wf(),
            b.wf(),
        ensures
            a.mul_spec(b) == b.mul_spec(a),
    ;

    proof fn lemma_mul_associates(a: Self, b: Self, c: Self)
        requires
            a.wf(),
            b.wf(),
            c.wf(),
        ensures
            a.mul_spec(b).mul_spec(c) == a.mul_spec(b.mul_spec(c)),
    ;

    proof fn lemma_mul_one(a: Self)
        requires
            a.wf(),
        ensures
            a.mul_spec(Self::one_spec()) == a,
    ;

    proof fn lemma_mul_distributes(a: Self, b: Self, c: Self)
        requires
            a.wf(),
            b.wf(),
            c.wf(),
        ensures
            a.mul_spec(b.add_spec(c)) == a.mul_spec(b).add_spec(a.mul_spec(c)),
    ;

    /// Zero has no inverse, and what `inverse_spec` gives is an inverse.
    proof fn lemma_inverse(a: Self)
        requires
            a.wf(),
        ensures
            a == Self::zero_spec() ==> a.inverse_spec() is None,
            a.inverse_spec() is Some ==> a.inverse_spec().unwrap().wf() && a.mul_spec(
                a.inverse_spec().unwrap(),
            ) == Self::one_spec(),
    ;

    /// The Frobenius maps keep sums and products, compose by adding their
    /// powers, and come back to the identity at the degree of the field.
    proof fn lemma_frobenius(a: Self, b: Self, i: nat, j: nat)
        requires
            a.wf(),
            b.wf(),
        ensures
            a.frobenius_spec(i).wf(),
            a.frobenius_spec(0) == a,
            a.frobenius_spec(i).frobenius_spec(j) == a.frobenius_spec(i + j),
            a.frobenius_spec(Self::degree_spec()) == a,
            a.add_spec(b).frobenius_spec(i) == a.frobenius_spec(i).add_spec(b.frobenius_spec(i)),
            a.mul_spec(b).frobenius_spec(i) == a.frobenius_spec(i).mul_spec(b.frobenius_spec(i)),
    ;

    /// Only equal elements compare as equal.
    proof fn lemma_compare(a: Self, b: Self)
        requires
            a.wf(),
            b.wf(),
        ensures
            (a.compare_spec(b) == Comparison::Equal) <==> a == b,
    ;

    proof fn lemma_prime(a: Self, e: Self::BasePrimeField)
        requires
            a.wf(),
            Self::prime_wf(e),
        ensures
            Self::from_prime_spec(e).wf(),
            a.mul_by_prime_spec(e) == a.mul_spec(Self::from_prime_spec(e)),
    ;

    /// An element has as many coordinates as the degree says, and they give
    /// the element back.
    proof fn lemma_to_elems(a: Self)
        requires
            a.wf(),
        ensures
            a.to_elems_spec().len() == Self::degree_spec(),
            Self::from_elems_spec(a.to_elems_spec()) == Some(a),
    ;

    /// Only sequences of the right length stand for an element, and the
    /// element they stand for is valid.
    proof fn lemma_from_elems(elems: Seq<Self::BasePrimeField>)
        ensures
            Self::from_elems_spec(elems) is Some ==> elems.len() == Self::degree_spec()
                && Self::from_elems_spec(elems).unwrap().wf(),
    ;

    /// An encoding has the length that its flags call for, and decodes to
    /// what was encoded.
    proof fn lemma_encoding(a: Self, flags: Flags)
        requires
            a.wf(),
            flags.wf(),
        ensures
            a.encoding_spec(flags).len() == Self::encoded_len_spec(flags.bit_size),
            Self::decoding_spec(a.encoding_spec(flags), flags.bit_size) == Ok::<
                (Self, Flags),
                SerializationError,
            >((a, flags)),
    ;

    /// Decoding reads no further than the length of an encoding, gives
    /// valid values, and fails on more than eight bits of flags.
    proof fn lemma_decoding(bytes: Seq<u8>, flag_bits: u8)
        ensures
            flag_bits > 8 ==> Self::decoding_spec(bytes, flag_bits) is Err,
            bytes.len() >= Self::encoded_len_spec(flag_bits) ==> Self::decoding_spec(
                bytes,
                flag_bits,
            ) == Self::decoding_spec(
                bytes.take(Self::encoded_len_spec(flag_bits) as int),
                flag_bits,
            ),
            Self::decoding_spec(bytes, flag_bits) is Ok ==> {
                let (a, flags) = Self::decoding_spec(bytes, flag_bits).unwrap();
                a.wf() && flags.wf() && flags.bit_size == flag_bits && bytes.len()
                    >= Self::encoded_len_spec(flag_bits)
            },
    ;

    /// Tests whether the value is a valid element.
    fn is_valid(&self) -> (r: bool)
        ensures
            r == self.wf(),
    ;

    fn zero() -> (r: Self)
        ensures
            r.wf(),
            r == Self::zero_spec(),
    ;

    fn one() -> (r: Self)
        ensures
            r.wf(),
            r == Self::one_spec(),
    ;

    fn is_zero(&self) -> (r: bool)
        requires
            self.wf(),
        ensures
            r == (*self == Self::zero_spec()),
    ;

    fn is_one(&self) -> (r: bool)
        requires
            self.wf(),
        ensures
            r == (*self == Self::one_spec()),
    ;

    fn equals(&self, rhs: &Self) -> (r: bool)
        requires
            self.wf(),
            rhs.wf(),
        ensures
            r == (*self == *rhs),
    ;

    fn compare(&self, rhs: &Self) -> (r: Comparison)
        requires
            self.wf(),
            rhs.wf(),
        ensures
            r == self.compare_spec(*rhs),
    ;

    fn add(&self, rhs: &Self) -> (r: Self)
        requires
            self.wf(),
            rhs.wf(),
        ensures
            r.wf(),
            r == self.add_spec(*rhs),
    ;

    fn sub(&self, rhs: &Self) -> (r: Self)
        requires
            self.wf(),
            rhs.wf(),
        ensures
            r.wf(),
            r == self.add_spec(rhs.neg_spec()),
    ;

    fn neg(&self) -> (r: Self)
        requires
            self.wf(),
        ensures
            r.wf(),
            r == self.neg_spec(),
    ;

    fn double(&self) -> (r: Self)
        requires
            self.wf(),
        ensures
            r.wf(),
            r == self.add_spec(*self),
    ;

    fn mul(&self, rhs: &Self) -> (r: Self)
        requires
            self.wf(),
            rhs.wf(),
        ensures
            r.wf(),
            r == self.mul_spec(*rhs),
    ;

    fn square(&self) -> (r: Self)
        requires
            self.wf(),
        ensures
            r.wf(),
            r == self.mul_spec(*self),
    ;

    fn inverse(&self) -> (r: Option<Self>)
        requires
            self.wf(),
        ensures
            r == self.inverse_spec(),
            r is Some ==> r.unwrap().wf(),
    ;

    fn frobenius_map_in_place(&mut self, power: usize)
        requires
            old(self).wf(),
        ensures
            final(self).wf(),
            *final(self) == old(self).frobenius_spec(power as nat),
    ;

    fn extension_degree() -> (r: u64)
        ensures
            r == Self::degree_spec(),
            r >= 1,
    ;

    fn from_base_prime_field(e: Self::BasePrimeField) -> (r: Self)
        requires
            Self::prime_wf(e),
        ensures
            r.wf(),
            r == Self::from_prime_spec(e),
    ;

    fn mul_by_base_prime_field(&self, e: &Self::BasePrimeField) -> (r: Self)
        requires
            self.wf(),
            Self::prime_wf(*e),
        ensures
            r.wf(),
            r == self.mul_by_prime_spec(*e),
    ;

    fn to_base_prime_field_elements(&self) -> (r: Vec<Self::BasePrimeField>)
        requires
            self.wf(),
        ensures
            r@ == self.to_elems_spec(),
    ;

    fn from_base_prime_field_elems(elems: &[Self::BasePrimeField]) -> (r: Option<Self>)
        ensures
            r == Self::from_elems_spec(elems@),
            r is Some ==> r.unwrap().wf(),
    ;

    fn serialized_size_with_flags(flag_bits: u8) -> (r: usize)
        ensures
            r == Self::encoded_len_spec(flag_bits),
    ;

    /// Appends the encoding of the element and the flags to `out`. Flags
    /// that are not valid are refused; what was written before they were
    /// looked at stays in `out`.
    fn serialize_with_flags(&self, out: &mut Vec<u8>, flags: Flags) -> (r: Result<
        (),
        SerializationError,
    >)
        requires
            self.wf(),
        ensures
            r == encoding_result(flags),
            final(out)@ == old(out)@ + (if flags.wf() {
                self.encoding_spec(flags)
            } else {
                self.refused_encoding_spec()
            }),
    ;

    /// Decodes an element and `flag_bits` bits of flags from the front of
    /// `bytes`.
    fn deserialize_with_flags(bytes: &[u8], flag_bits: u8) -> (r: Result<
        (Self, Flags),
        SerializationError,
    >)
        ensures
            r == Self::decoding_spec(bytes@, flag_bits),
            r is Ok ==> r.unwrap().0.wf(),
    ;

    /// Turns arbitrary bytes into an element and `flag_bits` bits of flags,
    /// or into nothing: a way to draw elements from random bytes.
    fn from_random_bytes_with_flags(bytes: &[u8], flag_bits: u8) -> (r: Option<(Self, Flags)>)
        ensures
            r == Self::from_random_bytes_spec(bytes@, flag_bits),
            r is Some ==> r.unwrap().0.wf() && r.unwrap().1.wf() && r.unwrap().1.bit_size
                == flag_bits,
    ;

    /// Overwrites the element with zero.
    fn zeroize(&mut self)
        ensures
            *final(self) == Self::zero_spec(),
    ;
}

} // verus!
