//! A cubic extension `B[X] / (X^3 - NONRESIDUE)` of a field `B`: elements
//! `c0 + c1 X + c2 X^2` and their arithmetic.

use crate::algebra::{lemma_expansion_rules, lemma_lin_rules, minus};
use crate::field::{Comparison, Field};
use crate::serialize::{encoding_result, Compress, Flags, SerializationError};
use vstd::prelude::*;
use vstd::slice::slice_subrange;

verus! {

/// The parameters of a cubic extension: the field below it, the constant
/// whose cube root is adjoined, and the coefficients that correct the
/// Frobenius maps of the field below.
pub trait CubicExtConfig: Sized {
    /// The field that this is a cubic extension of.
    type BaseField: Field;

    /// The constant `NONRESIDUE` of the modulus `X^3 - NONRESIDUE`.
    spec fn nonresidue_spec() -> Self::BaseField;

    /// The factor that the Frobenius map of the given power puts on `c1`.
    spec fn frobenius_coeff_c1_spec(power: nat) -> Self::BaseField;

    /// The factor that the Frobenius map of the given power puts on `c2`.
    spec fn frobenius_coeff_c2_spec(power: nat) -> Self::BaseField;

    proof fn lemma_constants_wf(power: nat)
        ensures
            Self::nonresidue_spec().wf(),
            Self::frobenius_coeff_c1_spec(power).wf(),
            Self::frobenius_coeff_c2_spec(power).wf(),
    ;

    fn nonresidue() -> (r: Self::BaseField)
        ensures
            r.wf(),
            r == Self::nonresidue_spec(),
    ;

    /// The degree of the extension over the prime field.
    fn degree_over_base_prime_field() -> (r: usize)
        ensures
            r == 3 * Self::BaseField::degree_spec(),
    ;

    /// Multiplies `fe` by the non-residue. A parameter set may compute this
    /// in a cheaper way than by a multiplication, to the same value.
    fn mul_base_field_by_nonresidue_in_place(fe: &mut Self::BaseField) -> (r: &mut Self::BaseField)
        requires
            old(fe).wf(),
        ensures
            r.wf(),
            *r == old(fe).mul_spec(Self::nonresidue_spec()),
            *final(fe) == *final(r),
    {
        let nr = Self::nonresidue();
        *fe = fe.mul(&nr);
        fe
    }

    /// `fe` multiplied by the non-residue.
    fn mul_base_field_by_nonresidue(fe: Self::BaseField) -> (r: Self::BaseField)
        requires
            fe.wf(),
        ensures
            r.wf(),
            r == fe.mul_spec(Self::nonresidue_spec()),
    {
        let mut fe = fe;
        Self::mul_base_field_by_nonresidue_in_place(&mut fe);
        fe
    }

    /// Multiplies `c1` and `c2` by the Frobenius coefficients of `power`.
    fn mul_base_field_by_frob_coeff(
        c1: &mut Self::BaseField,
        c2: &mut Self::BaseField,
        power: usize,
    )
        requires
            old(c1).wf(),
            old(c2).wf(),
        ensures
            final(c1).wf(),
            final(c2).wf(),
            *final(c1) == old(c1).mul_spec(Self::frobenius_coeff_c1_spec(power as nat)),
            *final(c2) == old(c2).mul_spec(Self::frobenius_coeff_c2_spec(power as nat)),
    ;
}

/// An element `c0 + c1 X + c2 X^2` of the cubic extension that `P`
/// describes.
#[derive(Debug, PartialEq, Eq, Hash)]
pub struct CubicExtField<P: CubicExtConfig> {
    pub c0: P::BaseField,
    pub c1: P::BaseField,
    pub c2: P::BaseField,
}

impl<P: CubicExtConfig> Clone for CubicExtField<P> {
    fn clone(&self) -> (r: Self)
        ensures
            r == *self,
    {
        Self { c0: self.c0, c1: self.c1, c2: self.c2 }
    }
}

impl<P: CubicExtConfig> Copy for CubicExtField<P> {

}

/// `x` times the non-residue of `P`.
pub open spec fn by_nonresidue<P: CubicExtConfig>(x: P::BaseField) -> P::BaseField {
    x.mul_spec(P::nonresidue_spec())
}

impl<P: CubicExtConfig> CubicExtField<P> {
    /// Whether each coordinate is a valid element of the base field.
    pub open spec fn wf(&self) -> bool {
        self.c0.wf() && self.c1.wf() && self.c2.wf()
    }

    /// The element with every coordinate zero.
    pub open spec fn zero_spec() -> Self {
        Self {
            c0: P::BaseField::zero_spec(),
            c1: P::BaseField::zero_spec(),
            c2: P::BaseField::zero_spec(),
        }
    }

    /// The element `1`: `c0` is one, `c1` and `c2` are zero.
    pub open spec fn one_spec() -> Self {
        Self {
            c0: P::BaseField::one_spec(),
            c1: P::BaseField::zero_spec(),
            c2: P::BaseField::zero_spec(),
        }
    }

    /// The sum, coordinate by coordinate.
    pub open spec fn add_spec(self, rhs: Self) -> Self {
        Self {
            c0: self.c0.add_spec(rhs.c0),
            c1: self.c1.add_spec(rhs.c1),
            c2: self.c2.add_spec(rhs.c2),
        }
    }

    /// The negation, coordinate by coordinate.
    pub open spec fn neg_spec(self) -> Self {
        Self { c0: self.c0.neg_spec(), c1: self.c1.neg_spec(), c2: self.c2.neg_spec() }
    }

    /// The difference: the sum with the negation.
    pub open spec fn sub_spec(self, rhs: Self) -> Self {
        self.add_spec(rhs.neg_spec())
    }

    /// Twice the element: its sum with itself.
    pub open spec fn double_spec(self) -> Self {
        self.add_spec(self)
    }

    /// The product of the two polynomials, reduced by `X^3 = NONRESIDUE`.
    pub open spec fn mul_spec(self, rhs: Self) -> Self {
        Self {
            c0: self.c0.mul_spec(rhs.c0).add_spec(
                by_nonresidue::<P>(self.c1.mul_spec(rhs.c2).add_spec(self.c2.mul_spec(rhs.c1))),
            ),
            c1: self.c0.mul_spec(rhs.c1).add_spec(self.c1.mul_spec(rhs.c0)).add_spec(
                by_nonresidue::<P>(self.c2.mul_spec(rhs.c2)),
            ),
            c2: self.c0.mul_spec(rhs.c2).add_spec(self.c1.mul_spec(rhs.c1)).add_spec(
                self.c2.mul_spec(rhs.c0),
            ),
        }
    }

    /// The square: the product of the element with itself.
    pub open spec fn square_spec(self) -> Self {
        self.mul_spec(self)
    }

    /// Each coordinate multiplied by `value`.
    pub open spec fn mul_by_base_spec(self, value: P::BaseField) -> Self {
        Self {
            c0: self.c0.mul_spec(value),
            c1: self.c1.mul_spec(value),
            c2: self.c2.mul_spec(value),
        }
    }

    /// The element that multiplies `self` into the base field: the product
    /// of the two is `(sub_norm_spec(), 0, 0)`.
    pub open spec fn adjugate_spec(self) -> Self {
        Self {
            c0: minus(self.c0.mul_spec(self.c0), by_nonresidue::<P>(self.c1.mul_spec(self.c2))),
            c1: minus(by_nonresidue::<P>(self.c2.mul_spec(self.c2)), self.c0.mul_spec(self.c1)),
            c2: minus(self.c1.mul_spec(self.c1), self.c0.mul_spec(self.c2)),
        }
    }

    /// The element of the base field whose inverse an inversion needs.
    pub open spec fn sub_norm_spec(self) -> P::BaseField {
        let s = self.adjugate_spec();
        self.c0.mul_spec(s.c0).add_spec(
            by_nonresidue::<P>(self.c2.mul_spec(s.c1).add_spec(self.c1.mul_spec(s.c2))),
        )
    }

    /// The inverse: none for zero and where the base field cannot invert
    /// `sub_norm_spec()`, else the adjugate divided by it.
    pub open spec fn inverse_spec(self) -> Option<Self> {
        if self == Self::zero_spec() {
            None
        } else {
            match self.sub_norm_spec().inverse_spec() {
                None => None,
                Some(t) => {
                    let s = self.adjugate_spec();
                    Some(Self { c0: t.mul_spec(s.c0), c1: t.mul_spec(s.c1), c2: t.mul_spec(s.c2) })
                },
            }
        }
    }

    /// The Frobenius map of the given power: that of the base field on each
    /// coordinate, then the coefficients of the power on `c1` and `c2`.
    pub open spec fn frobenius_spec(self, power: nat) -> Self {
        Self {
            c0: self.c0.frobenius_spec(power),
            c1: self.c1.frobenius_spec(power).mul_spec(P::frobenius_coeff_c1_spec(power)),
            c2: self.c2.frobenius_spec(power).mul_spec(P::frobenius_coeff_c2_spec(power)),
        }
    }

    /// The product of the element with its two conjugates over the base
    /// field.
    pub open spec fn norm_product_spec(self) -> Self {
        let d = P::BaseField::degree_spec();
        self.frobenius_spec(d).mul_spec(self.frobenius_spec(2 * d).mul_spec(self))
    }

    /// The norm: the base field element that the product of the conjugates
    /// is.
    pub open spec fn norm_spec(self) -> P::BaseField {
        self.norm_product_spec().c0
    }

    /// The degree over the prime field.
    pub open spec fn degree_spec() -> nat {
        3 * P::BaseField::degree_spec()
    }

    /// The order in which `c2` counts most, then `c1`, then `c0`.
    pub open spec fn compare_spec(self, rhs: Self) -> Comparison {
        match self.c2.compare_spec(rhs.c2) {
            Comparison::Equal => match self.c1.compare_spec(rhs.c1) {
                Comparison::Equal => self.c0.compare_spec(rhs.c0),
                o => o,
            },
            o => o,
        }
    }

    /// The image of a prime field element: its image in the base field as
    /// `c0`.
    pub open spec fn from_prime_spec(e: <P::BaseField as Field>::BasePrimeField) -> Self {
        Self {
            c0: P::BaseField::from_prime_spec(e),
            c1: P::BaseField::zero_spec(),
            c2: P::BaseField::zero_spec(),
        }
    }

    /// Each coordinate multiplied by a prime field element.
    pub open spec fn mul_by_prime_spec(self, e: <P::BaseField as Field>::BasePrimeField) -> Self {
        Self {
            c0: self.c0.mul_by_prime_spec(e),
            c1: self.c1.mul_by_prime_spec(e),
            c2: self.c2.mul_by_prime_spec(e),
        }
    }

    /// The coordinates over the prime field: those of `c0`, then those of
    /// `c1`, then those of `c2`.
    pub open spec fn to_elems_spec(self) -> Seq<<P::BaseField as Field>::BasePrimeField> {
        self.c0.to_elems_spec() + self.c1.to_elems_spec() + self.c2.to_elems_spec()
    }

    /// The element whose coordinates are the three thirds of `elems`, where
    /// `elems` has three times the degree of the base field and each third
    /// stands for an element of it.
    pub open spec fn from_elems_spec(
        elems: Seq<<P::BaseField as Field>::BasePrimeField>,
    ) -> Option<Self> {
        let d = P::BaseField::degree_spec() as int;
        if elems.len() != 3 * d {
            None
        } else {
            match (
                P::BaseField::from_elems_spec(elems.subrange(0, d)),
                P::BaseField::from_elems_spec(elems.subrange(d, 2 * d)),
                P::BaseField::from_elems_spec(elems.subrange(2 * d, 3 * d)),
            ) {
                (Some(c0), Some(c1), Some(c2)) => Some(Self { c0, c1, c2 }),
                _ => None,
            }
        }
    }

    /// The length of an encoding with `flag_bits` bits of flags.
    pub open spec fn encoded_len_spec(flag_bits: u8) -> nat {
        2 * P::BaseField::encoded_len_spec(0) + P::BaseField::encoded_len_spec(flag_bits)
    }

    /// The encoding: `c0` and `c1` without flags, then `c2` with `flags`.
    pub open spec fn encoding_spec(self, flags: Flags) -> Seq<u8> {
        self.c0.encoding_spec(Flags::empty_spec()) + self.c1.encoding_spec(Flags::empty_spec())
            + self.c2.encoding_spec(flags)
    }

    /// What is written before flags that are not valid are refused: `c0` and
    /// `c1`, which go without flags, and what `c2` writes before it refuses
    /// them.
    pub open spec fn refused_encoding_spec(self) -> Seq<u8> {
        self.c0.encoding_spec(Flags::empty_spec()) + self.c1.encoding_spec(Flags::empty_spec())
            + self.c2.refused_encoding_spec()
    }

    /// What `bytes` decode to: the three coordinates one after the other,
    /// the flags with the last, and the error of the first that fails,
    /// whatever the number of flag bits.
    pub open spec fn decoding_spec(bytes: Seq<u8>, flag_bits: u8) -> Result<
        (Self, Flags),
        SerializationError,
    > {
        let n = P::BaseField::encoded_len_spec(0) as int;
        match P::BaseField::decoding_spec(bytes, 0) {
            Err(e) => Err(e),
            Ok((c0, _)) => match P::BaseField::decoding_spec(bytes.skip(n), 0) {
                Err(e) => Err(e),
                Ok((c1, _)) => match P::BaseField::decoding_spec(bytes.skip(2 * n), flag_bits) {
                    Err(e) => Err(e),
                    Ok((c2, flags)) => Ok((Self { c0, c1, c2 }, flags)),
                },
            },
        }
    }

    /// What arbitrary bytes are turned into: their three thirds give the
    /// coordinates, the last third (with what is left over) also the flags.
    pub open spec fn from_random_bytes_spec(bytes: Seq<u8>, flag_bits: u8) -> Option<
        (Self, Flags),
    > {
        let split_at = bytes.len() as int / 3;
        match (
            P::BaseField::from_random_bytes_spec(bytes.subrange(0, split_at), 0),
            P::BaseField::from_random_bytes_spec(bytes.subrange(split_at, 2 * split_at), 0),
            P::BaseField::from_random_bytes_spec(
                bytes.subrange(2 * split_at, bytes.len() as int),
                flag_bits,
            ),
        ) {
            (Some((c0, _)), Some((c1, _)), Some((c2, flags))) => Some((Self { c0, c1, c2 }, flags)),
            _ => None,
        }
    }

    /// The element `c0 + c1 X + c2 X^2`.
    pub fn new(c0: P::BaseField, c1: P::BaseField, c2: P::BaseField) -> (r: Self)
        ensures
            r == (Self { c0, c1, c2 }),
    {
        Self { c0, c1, c2 }
    }

    /// Tests whether each coordinate is a valid element of the base field.
    pub fn is_valid(&self) -> (r: bool)
        ensures
            r == self.wf(),
    {
        self.c0.is_valid() && self.c1.is_valid() && self.c2.is_valid()
    }

    /// Adds `other`, coordinate by coordinate.
    pub fn add_assign(&mut self, other: &Self)
        requires
            old(self).wf(),
            other.wf(),
        ensures
            final(self).wf(),
            *final(self) == old(self).add_spec(*other),
    {
        self.c0 = self.c0.add(&other.c0);
        self.c1 = self.c1.add(&other.c1);
        self.c2 = self.c2.add(&other.c2);
    }

    /// Multiplies each coordinate by `value`.
    pub fn mul_assign_by_base_field(&mut self, value: &P::BaseField)
        requires
            old(self).wf(),
            value.wf(),
        ensures
            final(self).wf(),
            *final(self) == old(self).mul_by_base_spec(*value),
    {
        self.c0 = self.c0.mul(value);
        self.c1 = self.c1.mul(value);
        self.c2 = self.c2.mul(value);
    }

    /// The element zero.
    pub fn zero() -> (r: Self)
        ensures
            r.wf(),
            r == Self::zero_spec(),
    {
        Self::new(P::BaseField::zero(), P::BaseField::zero(), P::BaseField::zero())
    }

    /// Tests whether the element is zero.
    pub fn is_zero(&self) -> (r: bool)
        requires
            self.wf(),
        ensures
            r == (*self == Self::zero_spec()),
    {
        self.c0.is_zero() && self.c1.is_zero() && self.c2.is_zero()
    }

    /// The element one.
    pub fn one() -> (r: Self)
        ensures
            r.wf(),
            r == Self::one_spec(),
    {
        Self::new(P::BaseField::one(), P::BaseField::zero(), P::BaseField::zero())
    }

    /// Tests whether the element is one.
    pub fn is_one(&self) -> (r: bool)
        requires
            self.wf(),
        ensures
            r == (*self == Self::one_spec()),
    {
        self.c0.is_one() && self.c1.is_zero() && self.c2.is_zero()
    }

    /// Twice the element.
    pub fn double(&self) -> (r: Self)
        requires
            self.wf(),
        ensures
            r.wf(),
            r == self.double_spec(),
    {
        let mut result = *self;
        result.double_in_place();
        result
    }

    /// Negates the element, coordinate by coordinate.
    pub fn neg_in_place(&mut self) -> (r: &mut Self)
        requires
            old(self).wf(),
        ensures
            r.wf(),
            *r == old(self).neg_spec(),
            *final(self) == *final(r),
    {
        self.c0 = self.c0.neg();
        self.c1 = self.c1.neg();
        self.c2 = self.c2.neg();
        self
    }

    /// The negation of the element.
    pub fn neg(self) -> (r: Self)
        requires
            self.wf(),
        ensures
            r.wf(),
            r == self.neg_spec(),
    {
        let mut result = self;
        result.c0 = result.c0.neg();
        result.c1 = result.c1.neg();
        result.c2 = result.c2.neg();
        result
    }

    /// The sum with `other`.
    pub fn add(self, other: &Self) -> (r: Self)
        requires
            self.wf(),
            other.wf(),
        ensures
            r.wf(),
            r == self.add_spec(*other),
    {
        let mut result = self;
        result.add_assign(other);
        result
    }

    /// The difference with `other`.
    pub fn sub(self, other: &Self) -> (r: Self)
        requires
            self.wf(),
            other.wf(),
        ensures
            r.wf(),
            r == self.sub_spec(*other),
    {
        let mut result = self;
        result.sub_assign(other);
        result
    }

    /// The product with `other`.
    pub fn mul(self, other: &Self) -> (r: Self)
        requires
            self.wf(),
            other.wf(),
        ensures
            r.wf(),
            r == self.mul_spec(*other),
    {
        let mut result = self;
        result.mul_assign(other);
        result
    }

    /// The quotient by an element that has an inverse.
    pub fn div(self, other: &Self) -> (r: Self)
        requires
            self.wf(),
            other.wf(),
            other.inverse_spec() is Some,
        ensures
            r.wf(),
            r == self.mul_spec(other.inverse_spec().unwrap()),
    {
        let mut result = self;
        result.div_assign(other);
        result
    }

    /// Subtracts `other`, coordinate by coordinate.
    pub fn sub_assign(&mut self, other: &Self)
        requires
            old(self).wf(),
            other.wf(),
        ensures
            final(self).wf(),
            *final(self) == old(self).sub_spec(*other),
    {
        self.c0 = self.c0.sub(&other.c0);
        self.c1 = self.c1.sub(&other.c1);
        self.c2 = self.c2.sub(&other.c2);
    }

    /// Divides by an element that has an inverse.
    pub fn div_assign(&mut self, other: &Self)
        requires
            old(self).wf(),
            other.wf(),
            other.inverse_spec() is Some,
        ensures
            final(self).wf(),
            *final(self) == old(self).mul_spec(other.inverse_spec().unwrap()),
    {
        match other.inverse() {
            Some(inverse) => {
                self.mul_assign(&inverse);
            },
            None => {},
        }
    }

    /// The square of the element.
    pub fn square(&self) -> (r: Self)
        requires
            self.wf(),
        ensures
            r.wf(),
            r == self.square_spec(),
    {
        let mut result = *self;
        result.square_in_place();
        result
    }

    /// Squares the element, with five multiplications in the base field.
    pub fn square_in_place(&mut self) -> (r: &mut Self)
        requires
            old(self).wf(),
        ensures
            r.wf(),
            *r == old(self).square_spec(),
            *final(self) == *final(r),
    {
        let a = self.c0;
        let b = self.c1;
        let c = self.c2;

        let s0 = a.square();
        let ab = a.mul(&b);
        let s1 = ab.double();
        let s2 = a.sub(&b).add(&c).square();
        let bc = b.mul(&c);
        let s3 = bc.double();
        let s4 = c.square();

        // c0 = s0 + s3 * NON_RESIDUE
        self.c0 = s3;
        P::mul_base_field_by_nonresidue_in_place(&mut self.c0);
        self.c0 = self.c0.add(&s0);

        // c1 = s1 + s4 * NON_RESIDUE
        self.c1 = s4;
        P::mul_base_field_by_nonresidue_in_place(&mut self.c1);
        self.c1 = self.c1.add(&s1);

        self.c2 = s1.add(&s2).add(&s3).sub(&s0).sub(&s4);
        proof {
            lemma_square_terms::<P>(a, b, c);
        }
        self
    }

    /// The inverse, if the element has one: none for zero, and none where
    /// the base field has no inverse of `sub_norm_spec()`.
    pub fn inverse(&self) -> (r: Option<Self>)
        requires
            self.wf(),
        ensures
            r == self.inverse_spec(),
            r is Some ==> r.unwrap().wf(),
    {
        if self.is_zero() {
            None
        } else {
            let t0 = self.c0.square();
            let t1 = self.c1.square();
            let t2 = self.c2.square();
            let t3 = self.c0.mul(&self.c1);
            let t4 = self.c0.mul(&self.c2);
            let t5 = self.c1.mul(&self.c2);
            let n5 = P::mul_base_field_by_nonresidue(t5);

            let s0 = t0.sub(&n5);
            let s1 = P::mul_base_field_by_nonresidue(t2).sub(&t3);
            let s2 = t1.sub(&t4);

            let a1 = self.c2.mul(&s1);
            let a2 = self.c1.mul(&s2);
            let mut a3 = a1.add(&a2);
            a3 = P::mul_base_field_by_nonresidue(a3);
            match self.c0.mul(&s0).add(&a3).inverse() {
                None => None,
                Some(t6) => {
                    let c0 = t6.mul(&s0);
                    let c1 = t6.mul(&s1);
                    let c2 = t6.mul(&s2);
                    Some(Self::new(c0, c1, c2))
                },
            }
        }
    }

    /// Replaces the element by its inverse, if it has one.
    pub fn inverse_in_place(&mut self) -> (r: Option<&mut Self>)
        requires
            old(self).wf(),
        ensures
            r is Some <==> old(self).inverse_spec() is Some,
            r is Some ==> *r.unwrap() == old(self).inverse_spec().unwrap() && r.unwrap().wf()
                && *final(self) == *final(r.unwrap()),
            r is None ==> *final(self) == *old(self),
    {
        match self.inverse() {
            Some(inverse) => {
                *self = inverse;
                Some(self)
            },
            None => None,
        }
    }

    /// Turns arbitrary bytes into an element and `flag_bits` bits of flags,
    /// or into nothing: each third of the bytes gives one coordinate.
    pub fn from_random_bytes_with_flags(bytes: &[u8], flag_bits: u8) -> (r: Option<(Self, Flags)>)
        ensures
            r == Self::from_random_bytes_spec(bytes@, flag_bits),
            r is Some ==> r.unwrap().0.wf() && r.unwrap().1.wf() && r.unwrap().1.bit_size
                == flag_bits,
    {
        let split_at = bytes.len() / 3;
        if let Some((c0, _)) = P::BaseField::from_random_bytes_with_flags(
            slice_subrange(bytes, 0, split_at),
            0,
        ) {
            if let Some((c1, _)) = P::BaseField::from_random_bytes_with_flags(
                slice_subrange(bytes, split_at, 2 * split_at),
                0,
            ) {
                if let Some((c2, flags)) = P::BaseField::from_random_bytes_with_flags(
                    slice_subrange(bytes, 2 * split_at, bytes.len()),
                    flag_bits,
                ) {
                    return Some((CubicExtField::new(c0, c1, c2), flags));
                }
            }
        }
        None
    }

    /// Turns arbitrary bytes into an element, or into nothing.
    pub fn from_random_bytes(bytes: &[u8]) -> (r: Option<Self>)
        ensures
            r == match Self::from_random_bytes_spec(bytes@, 0) {
                Some((a, _)) => Some(a),
                None => None,
            },
            r is Some ==> r.unwrap().wf(),
    {
        match Self::from_random_bytes_with_flags(bytes, 0) {
            Some((a, _)) => Some(a),
            None => None,
        }
    }

    /// Applies the Frobenius map of the given power.
    pub fn frobenius_map_in_place(&mut self, power: usize)
        requires
            old(self).wf(),
        ensures
            final(self).wf(),
            *final(self) == old(self).frobenius_spec(power as nat),
    {
        self.c0.frobenius_map_in_place(power);
        self.c1.frobenius_map_in_place(power);
        self.c2.frobenius_map_in_place(power);

        P::mul_base_field_by_frob_coeff(&mut self.c1, &mut self.c2, power);
    }

    /// The degree of the extension over the prime field.
    pub fn extension_degree() -> (r: u64)
        ensures
            r == Self::degree_spec(),
            r >= 3,
    {
        proof {
            P::BaseField::lemma_constants();
        }
        P::degree_over_base_prime_field() as u64
    }

    /// The image of a prime field element.
    pub fn from_base_prime_field(elem: <P::BaseField as Field>::BasePrimeField) -> (r: Self)
        requires
            P::BaseField::prime_wf(elem),
        ensures
            r.wf(),
            r == Self::from_prime_spec(elem),
    {
        let fe = P::BaseField::from_base_prime_field(elem);
        Self::new(fe, P::BaseField::zero(), P::BaseField::zero())
    }

    /// The element with each coordinate multiplied by a prime field element.
    pub fn mul_by_base_prime_field(&self, elem: &<P::BaseField as Field>::BasePrimeField) -> (r:
        Self)
        requires
            self.wf(),
            P::BaseField::prime_wf(*elem),
        ensures
            r.wf(),
            r == self.mul_by_prime_spec(*elem),
    {
        let mut result = *self;
        result.c0 = result.c0.mul_by_base_prime_field(elem);
        result.c1 = result.c1.mul_by_base_prime_field(elem);
        result.c2 = result.c2.mul_by_base_prime_field(elem);
        result
    }

    /// The coordinates over the prime field: those of `c0`, of `c1`, of `c2`.
    pub fn to_base_prime_field_elements(&self) -> (r: Vec<<P::BaseField as Field>::BasePrimeField>)
        requires
            self.wf(),
        ensures
            r@ == self.to_elems_spec(),
    {
        let mut elems = self.c0.to_base_prime_field_elements();
        let mut more = self.c1.to_base_prime_field_elements();
        let mut rest = self.c2.to_base_prime_field_elements();
        elems.append(&mut more);
        elems.append(&mut rest);
        elems
    }

    /// The element with the given coordinates; none unless they are exactly
    /// three times as many as the base field has and each third stands for
    /// an element of the base field.
    pub fn from_base_prime_field_elems(elems: &[<P::BaseField as Field>::BasePrimeField]) -> (r:
        Option<Self>)
        ensures
            r == Self::from_elems_spec(elems@),
            r is Some ==> r.unwrap().wf(),
    {
        let n = elems.len();
        let degree = P::BaseField::extension_degree();
        if n % 3 != 0 {
            return None;
        }
        let d = n / 3;
        if d as u64 != degree {
            return None;
        }
        let first = slice_subrange(elems, 0, d);
        let second = slice_subrange(elems, d, 2 * d);
        let third = slice_subrange(elems, 2 * d, n);
        let a = P::BaseField::from_base_prime_field_elems(first);
        let b = P::BaseField::from_base_prime_field_elems(second);
        let c = P::BaseField::from_base_prime_field_elems(third);
        match (a, b, c) {
            (Some(c0), Some(c1), Some(c2)) => Some(Self::new(c0, c1, c2)),
            _ => None,
        }
    }

    /// The norm over the base field: the product of the element with its
    /// two conjugates, which lies in the base field.
    pub fn norm(&self) -> (r: P::BaseField)
        requires
            self.wf(),
            self.norm_product_spec().c1 == P::BaseField::zero_spec(),
            self.norm_product_spec().c2 == P::BaseField::zero_spec(),
        ensures
            r.wf(),
            r == self.norm_spec(),
    {
        let index_multiplier = P::degree_over_base_prime_field() / 3;
        let mut self_to_p = *self;
        self_to_p.frobenius_map_in_place(index_multiplier);
        let mut self_to_p2 = *self;
        self_to_p2.frobenius_map_in_place(2 * index_multiplier);
        self_to_p.mul_assign(&self_to_p2.mul(self));
        self_to_p.c0
    }

    /// Compares by `c2`, then by `c1`, then by `c0`.
    pub fn compare(&self, other: &Self) -> (r: Comparison)
        requires
            self.wf(),
            other.wf(),
        ensures
            r == self.compare_spec(*other),
    {
        match self.c2.compare(&other.c2) {
            Comparison::Equal => match self.c1.compare(&other.c1) {
                Comparison::Equal => self.c0.compare(&other.c0),
                o => o,
            },
            o => o,
        }
    }

    /// Tests whether the two elements are the same, coordinate by coordinate.
    pub fn equals(&self, other: &Self) -> (r: bool)
        requires
            self.wf(),
            other.wf(),
        ensures
            r == (*self == *other),
    {
        self.c0.equals(&other.c0) && self.c1.equals(&other.c1) && self.c2.equals(&other.c2)
    }

    /// Overwrites the three coordinates with zero.
    pub fn zeroize(&mut self)
        ensures
            *final(self) == Self::zero_spec(),
    {
        self.c0.zeroize();
        self.c1.zeroize();
        self.c2.zeroize();
    }

    /// Appends the encoding to `out`: `c0` and `c1` without flags, then
    /// `c2` with `flags`. Flags that are not valid are refused by `c2`, when
    /// `c0` and `c1` are written already.
    pub fn serialize_with_flags(&self, out: &mut Vec<u8>, flags: Flags) -> (r: Result<
        (),
        SerializationError,
    >)
        requires
            self.wf(),
        ensures
            r == encoding_result(flags),
            final(out)@ == old(out)@ + (if flags.wf() {
                self.encoding_spec(flags)
            } else {
                self.refused_encoding_spec()
            }),
    {
        match self.c0.serialize_with_flags(out, Flags::empty()) {
            Err(e) => {
                return Err(e);
            },
            Ok(()) => {},
        }
        match self.c1.serialize_with_flags(out, Flags::empty()) {
            Err(e) => {
                return Err(e);
            },
            Ok(()) => {},
        }
        let r = self.c2.serialize_with_flags(out, flags);
        proof {
            if flags.wf() {
                assert(out@ =~= old(out)@ + self.encoding_spec(flags));
            } else {
                assert(out@ =~= old(out)@ + self.refused_encoding_spec());
            }
        }
        r
    }

    /// The length of an encoding with `flag_bits` bits of flags, where the
    /// machine can count it.
    pub fn checked_serialized_size_with_flags(flag_bits: u8) -> (r: Option<usize>)
        ensures
            r == if Self::encoded_len_spec(flag_bits) <= usize::MAX {
                Some(Self::encoded_len_spec(flag_bits) as usize)
            } else {
                None::<usize>
            },
    {
        let plain = P::BaseField::serialized_size_with_flags(0);
        let flagged = P::BaseField::serialized_size_with_flags(flag_bits);
        if plain > usize::MAX - plain {
            return None;
        }
        let twice = plain + plain;
        if flagged > usize::MAX - twice {
            return None;
        }
        Some(twice + flagged)
    }

    /// The length of an encoding with `flag_bits` bits of flags.
    pub fn serialized_size_with_flags(&self, flag_bits: u8) -> (r: usize)
        requires
            Self::encoded_len_spec(flag_bits) <= usize::MAX,
        ensures
            r == Self::encoded_len_spec(flag_bits),
    {
        let plain = P::BaseField::serialized_size_with_flags(0);
        let flagged = P::BaseField::serialized_size_with_flags(flag_bits);
        plain + plain + flagged
    }

    /// Appends the encoding without flags to `out`, whatever the mode.
    pub fn serialize_with_mode(&self, out: &mut Vec<u8>, _compress: Compress)
        requires
            self.wf(),
        ensures
            final(out)@ == old(out)@ + self.encoding_spec(Flags::empty_spec()),
    {
        let _ = self.serialize_with_flags(out, Flags::empty());
    }

    /// The length of an encoding without flags, whatever the mode.
    pub fn serialized_size(&self, _compress: Compress) -> (r: usize)
        requires
            Self::encoded_len_spec(0) <= usize::MAX,
        ensures
            r == Self::encoded_len_spec(0),
    {
        self.serialized_size_with_flags(0)
    }

    /// Decodes an element and `flag_bits` bits of flags from the front of
    /// `bytes`, and fails with the error of the first coordinate that does
    /// not decode.
    pub fn deserialize_with_flags(bytes: &[u8], flag_bits: u8) -> (r: Result<
        (Self, Flags),
        SerializationError,
    >)
        ensures
            r == Self::decoding_spec(bytes@, flag_bits),
            r is Ok ==> r.unwrap().0.wf(),
    {
        let size = P::BaseField::serialized_size_with_flags(0);
        proof {
            P::BaseField::lemma_decoding(bytes@, 0);
        }
        let c0 = match P::BaseField::deserialize_with_flags(bytes, 0) {
            Err(e) => {
                return Err(e);
            },
            Ok((c0, _)) => c0,
        };
        let rest = slice_subrange(bytes, size, bytes.len());
        assert(rest@ == bytes@.skip(size as int));
        proof {
            P::BaseField::lemma_decoding(rest@, 0);
        }
        let c1 = match P::BaseField::deserialize_with_flags(rest, 0) {
            Err(e) => {
                return Err(e);
            },
            Ok((c1, _)) => c1,
        };
        let last = slice_subrange(rest, size, rest.len());
        assert(last@ =~= bytes@.skip(2 * size));
        match P::BaseField::deserialize_with_flags(last, flag_bits) {
            Err(e) => Err(e),
            Ok((c2, flags)) => Ok((Self::new(c0, c1, c2), flags)),
        }
    }

    /// Doubles the element, coordinate by coordinate.
    pub fn double_in_place(&mut self) -> (r: &mut Self)
        requires
            old(self).wf(),
        ensures
            r.wf(),
            *r == old(self).double_spec(),
            *final(self) == *final(r),
    {
        self.c0 = self.c0.double();
        self.c1 = self.c1.double();
        self.c2 = self.c2.double();
        self
    }

    /// Multiplies by `other`, with six multiplications in the base field.
    pub fn mul_assign(&mut self, other: &Self)
        requires
            old(self).wf(),
            other.wf(),
        ensures
            final(self).wf(),
            *final(self) == old(self).mul_spec(*other),
    {
        let a = other.c0;
        let b = other.c1;
        let c = other.c2;

        let d = self.c0;
        let e = self.c1;
        let f = self.c2;

        let ad = d.mul(&a);
        let be = e.mul(&b);
        let cf = f.mul(&c);

        let x = e.add(&f).mul(&b.add(&c)).sub(&be).sub(&cf);
        let y = d.add(&e).mul(&a.add(&b)).sub(&ad).sub(&be);
        let z = d.add(&f).mul(&a.add(&c)).sub(&ad).add(&be).sub(&cf);

        proof {
            lemma_cross_terms(e, f, b, c);
            lemma_cross_terms(d, e, a, b);
            lemma_cross_terms_with(d, f, a, c, be);
        }

        self.c0 = ad.add(&P::mul_base_field_by_nonresidue(x));
        self.c1 = y.add(&P::mul_base_field_by_nonresidue(cf));
        self.c2 = z;
    }
}

/// The squaring formulas give the coordinates of the product `x * x`.
pub proof fn lemma_square_terms<P: CubicExtConfig>(
    a: P::BaseField,
    b: P::BaseField,
    c: P::BaseField,
)
    requires
        a.wf(),
        b.wf(),
        c.wf(),
    ensures
        ({
            let x = CubicExtField::<P> { c0: a, c1: b, c2: c };
            let s0 = a.mul_spec(a);
            let ab = a.mul_spec(b);
            let s1 = ab.add_spec(ab);
            let u = minus(a, b).add_spec(c);
            let s2 = u.mul_spec(u);
            let bc = b.mul_spec(c);
            let s3 = bc.add_spec(bc);
            let s4 = c.mul_spec(c);
            &&& by_nonresidue::<P>(s3).add_spec(s0) == x.square_spec().c0
            &&& by_nonresidue::<P>(s4).add_spec(s1) == x.square_spec().c1
            &&& minus(minus(s1.add_spec(s2).add_spec(s3), s0), s4) == x.square_spec().c2
        }),
{
    let nr = P::nonresidue_spec();
    P::lemma_constants_wf(0);
    lemma_expansion_rules::<P::BaseField>();
    P::BaseField::lemma_mul_commutes(b, a);
    P::BaseField::lemma_mul_commutes(c, a);
    P::BaseField::lemma_mul_commutes(c, b);
    let aa = a.mul_spec(a);
    let bb = b.mul_spec(b);
    let cc = c.mul_spec(c);
    let ab = a.mul_spec(b);
    let ac = a.mul_spec(c);
    let bc = b.mul_spec(c);
    P::BaseField::lemma_add_commutes(by_nonresidue::<P>(bc.add_spec(bc)), aa);
    P::BaseField::lemma_add_commutes(by_nonresidue::<P>(cc), ab.add_spec(ab));
    lemma_lin_rules((aa, bb, cc, ab, ac, bc));
}

/// What is left of `(p + q)(r + s)` once `p r` and `q s` are taken away.
pub proof fn lemma_cross_terms<F: Field>(p: F, q: F, r: F, s: F)
    requires
        p.wf(),
        q.wf(),
        r.wf(),
        s.wf(),
    ensures
        minus(minus(p.add_spec(q).mul_spec(r.add_spec(s)), p.mul_spec(r)), q.mul_spec(s))
            == p.mul_spec(s).add_spec(q.mul_spec(r)),
{
    lemma_expansion_rules::<F>();
    let z = F::zero_spec();
    lemma_lin_rules((p.mul_spec(r), p.mul_spec(s), q.mul_spec(r), q.mul_spec(s), z, z));
}

/// The same with a further term `t` added between the two subtractions.
pub proof fn lemma_cross_terms_with<F: Field>(p: F, q: F, r: F, s: F, t: F)
    requires
        p.wf(),
        q.wf(),
        r.wf(),
        s.wf(),
        t.wf(),
    ensures
        minus(
            minus(p.add_spec(q).mul_spec(r.add_spec(s)), p.mul_spec(r)).add_spec(t),
            q.mul_spec(s),
        ) == p.mul_spec(s).add_spec(t).add_spec(q.mul_spec(r)),
{
    lemma_expansion_rules::<F>();
    let z = F::zero_spec();
    lemma_lin_rules((p.mul_spec(r), p.mul_spec(s), q.mul_spec(r), q.mul_spec(s), t, z));
}

} // verus!
