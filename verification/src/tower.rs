//! A cubic extension as the field below a further extension: with coherent
//! tables it obeys every law that a tower asks of its base.

use crate::algebra::{lemma_expansion_rules, lemma_lin_rules};
use crate::cubic_extension::{CubicExtConfig, CubicExtField};
use crate::field::{Comparison, Field};
use crate::serialize::{Flags, SerializationError};
use crate::tower_laws::{
    lemma_add_associates, lemma_add_commutes, lemma_add_neg, lemma_add_zero, lemma_closed,
    lemma_compare, lemma_coordinates_round_trip, lemma_decoding, lemma_encoding_round_trip,
    lemma_frobenius_adds, lemma_frobenius_composes, lemma_frobenius_multiplies,
    lemma_frobenius_order, lemma_frobenius_wf, lemma_frobenius_zero, lemma_from_coordinates,
    lemma_inverse, lemma_mul_associates, lemma_mul_by_prime, lemma_mul_commutes,
    lemma_mul_distributes, lemma_mul_one, lemma_norm_in_base_field, lemma_norm_is_sub_norm,
    TowerConfig,
};
use vstd::prelude::*;

verus! {

/// The norm of `a` over the base field. With coherent tables the product
/// of the conjugates lies in the base field whatever `a` is, and it is what
/// an inversion of `a` divides by.
pub fn norm<P: TowerConfig>(a: &CubicExtField<P>) -> (r: <P as CubicExtConfig>::BaseField)
    requires
        a.wf(),
    ensures
        r.wf(),
        r == a.norm_spec(),
        r == a.sub_norm_spec(),
{
    proof {
        P::lemma_coherent();
        lemma_norm_in_base_field(*a);
        lemma_norm_is_sub_norm(*a);
    }
    a.norm()
}

/// `(a * b) * (c * d) == (a * c) * (b * d)`.
pub proof fn lemma_mul_interchange<P: CubicExtConfig>(
    a: CubicExtField<P>,
    b: CubicExtField<P>,
    c: CubicExtField<P>,
    d: CubicExtField<P>,
)
    requires
        a.wf(),
        b.wf(),
        c.wf(),
        d.wf(),
    ensures
        a.mul_spec(b).mul_spec(c.mul_spec(d)) == a.mul_spec(c).mul_spec(b.mul_spec(d)),
{
    let cd = c.mul_spec(d);
    let bd = b.mul_spec(d);
    lemma_closed(c, d);
    lemma_closed(b, d);
    lemma_closed(b, c);
    lemma_closed(c, b);
    lemma_mul_associates(a, b, cd);
    lemma_mul_associates(b, c, d);
    lemma_mul_commutes(b, c);
    lemma_mul_associates(c, b, d);
    lemma_mul_associates(a, c, bd);
}

/// A product of three products, regrouped by the first and by the second
/// factors.
pub proof fn lemma_mul_regroup<P: CubicExtConfig>(
    a: (CubicExtField<P>, CubicExtField<P>),
    b: (CubicExtField<P>, CubicExtField<P>),
    c: (CubicExtField<P>, CubicExtField<P>),
)
    requires
        a.0.wf() && a.1.wf(),
        b.0.wf() && b.1.wf(),
        c.0.wf() && c.1.wf(),
    ensures
        a.0.mul_spec(a.1).mul_spec(b.0.mul_spec(b.1).mul_spec(c.0.mul_spec(c.1))) == a.0.mul_spec(
            b.0.mul_spec(c.0),
        ).mul_spec(a.1.mul_spec(b.1.mul_spec(c.1))),
{
    lemma_closed(b.0, c.0);
    lemma_closed(b.1, c.1);
    lemma_mul_interchange(b.0, b.1, c.0, c.1);
    lemma_mul_interchange(a.0, a.1, b.0.mul_spec(c.0), b.1.mul_spec(c.1));
}

/// The product of two elements of the base field, seen in the extension,
/// is the product in the base field.
pub proof fn lemma_product_in_base_field<P: CubicExtConfig>(
    x: CubicExtField<P>,
    y: CubicExtField<P>,
)
    requires
        x.wf(),
        y.wf(),
        x.c1 == P::BaseField::zero_spec() && x.c2 == P::BaseField::zero_spec(),
        y.c1 == P::BaseField::zero_spec() && y.c2 == P::BaseField::zero_spec(),
    ensures
        x.mul_spec(y).c0 == x.c0.mul_spec(y.c0),
{
    let zero = P::BaseField::zero_spec();
    P::lemma_constants_wf(0);
    lemma_expansion_rules::<P::BaseField>();
    lemma_lin_rules((x.c0.mul_spec(y.c0), zero, zero, zero, zero, zero));
}

/// The norm of a product is the product of the norms.
pub proof fn lemma_norm_multiplies<P: TowerConfig>(a: CubicExtField<P>, b: CubicExtField<P>)
    requires
        a.wf(),
        b.wf(),
    ensures
        a.mul_spec(b).norm_spec() == a.norm_spec().mul_spec(b.norm_spec()),
{
    let d = P::BaseField::degree_spec();
    let fa = a.frobenius_spec(d);
    let fb = b.frobenius_spec(d);
    let ga = a.frobenius_spec(2 * d);
    let gb = b.frobenius_spec(2 * d);
    let na = a.norm_product_spec();
    let nb = b.norm_product_spec();
    P::lemma_coherent();
    lemma_frobenius_wf(a, d);
    lemma_frobenius_wf(b, d);
    lemma_frobenius_wf(a, 2 * d);
    lemma_frobenius_wf(b, 2 * d);
    lemma_frobenius_multiplies(a, b, d);
    lemma_frobenius_multiplies(a, b, 2 * d);
    lemma_mul_regroup((fa, fb), (ga, gb), (a, b));
    assert(a.mul_spec(b).norm_product_spec() == na.mul_spec(nb));
    lemma_norm_in_base_field(a);
    lemma_norm_in_base_field(b);
    lemma_closed(ga, a);
    lemma_closed(gb, b);
    lemma_closed(fa, ga.mul_spec(a));
    lemma_closed(fb, gb.mul_spec(b));
    lemma_product_in_base_field(na, nb);
}

impl<P: TowerConfig> Field for CubicExtField<P> {
    type BasePrimeField = <P::BaseField as Field>::BasePrimeField;

    open spec fn wf(&self) -> bool {
        CubicExtField::wf(self)
    }

    open spec fn prime_wf(e: Self::BasePrimeField) -> bool {
        P::BaseField::prime_wf(e)
    }

    open spec fn zero_spec() -> Self {
        CubicExtField::<P>::zero_spec()
    }

    open spec fn one_spec() -> Self {
        CubicExtField::<P>::one_spec()
    }

    open spec fn add_spec(self, rhs: Self) -> Self {
        CubicExtField::add_spec(self, rhs)
    }

    open spec fn neg_spec(self) -> Self {
        CubicExtField::neg_spec(self)
    }

    open spec fn mul_spec(self, rhs: Self) -> Self {
        CubicExtField::mul_spec(self, rhs)
    }

    open spec fn inverse_spec(self) -> Option<Self> {
        CubicExtField::inverse_spec(self)
    }

    open spec fn frobenius_spec(self, power: nat) -> Self {
        CubicExtField::frobenius_spec(self, power)
    }

    open spec fn degree_spec() -> nat {
        CubicExtField::<P>::degree_spec()
    }

    open spec fn compare_spec(self, rhs: Self) -> Comparison {
        CubicExtField::compare_spec(self, rhs)
    }

    open spec fn from_prime_spec(e: Self::BasePrimeField) -> Self {
        CubicExtField::<P>::from_prime_spec(e)
    }

    open spec fn mul_by_prime_spec(self, e: Self::BasePrimeField) -> Self {
        CubicExtField::mul_by_prime_spec(self, e)
    }

    open spec fn to_elems_spec(self) -> Seq<Self::BasePrimeField> {
        CubicExtField::to_elems_spec(self)
    }

    open spec fn from_elems_spec(
        elems: Seq<Self::BasePrimeField>,
    ) -> Option<Self> {
        CubicExtField::<P>::from_elems_spec(elems)
    }

    open spec fn encoded_len_spec(flag_bits: u8) -> nat {
        CubicExtField::<P>::encoded_len_spec(flag_bits)
    }

    open spec fn encoding_spec(self, flags: Flags) -> Seq<u8> {
        CubicExtField::encoding_spec(self, flags)
    }

    open spec fn refused_encoding_spec(self) -> Seq<u8> {
        CubicExtField::refused_encoding_spec(self)
    }

    open spec fn decoding_spec(bytes: Seq<u8>, flag_bits: u8) -> Result<
        (Self, Flags),
        SerializationError,
    > {
        CubicExtField::<P>::decoding_spec(bytes, flag_bits)
    }

    open spec fn from_random_bytes_spec(bytes: Seq<u8>, flag_bits: u8) -> Option<(Self, Flags)> {
        CubicExtField::<P>::from_random_bytes_spec(bytes, flag_bits)
    }

    proof fn lemma_constants() {
        P::BaseField::lemma_constants();
    }

    proof fn lemma_closed(a: Self, b: Self) {
        lemma_closed(a, b);
    }

    proof fn lemma_add_commutes(a: Self, b: Self) {
        lemma_add_commutes(a, b);
    }

    proof fn lemma_add_associates(a: Self, b: Self, c: Self) {
        lemma_add_associates(a, b, c);
    }

    proof fn lemma_add_zero(a: Self) {
        lemma_add_zero(a);
    }

    proof fn lemma_add_neg(a: Self) {
        lemma_add_neg(a);
    }

    proof fn lemma_mul_commutes(a: Self, b: Self) {
        lemma_mul_commutes(a, b);
    }

    proof fn lemma_mul_associates(a: Self, b: Self, c: Self) {
        lemma_mul_associates(a, b, c);
    }

    proof fn lemma_mul_one(a: Self) {
        lemma_mul_one(a);
    }

    proof fn lemma_mul_distributes(a: Self, b: Self, c: Self) {
        lemma_mul_distributes(a, b, c);
    }

    proof fn lemma_inverse(a: Self) {
        lemma_inverse(a);
    }

    proof fn lemma_frobenius(a: Self, b: Self, i: nat, j: nat) {
        P::lemma_coherent();
        lemma_frobenius_wf(a, i);
        lemma_frobenius_zero(a);
        lemma_frobenius_composes(a, i, j);
        lemma_frobenius_order(a);
        lemma_frobenius_adds(a, b, i);
        lemma_frobenius_multiplies(a, b, i);
    }

    proof fn lemma_compare(a: Self, b: Self) {
        lemma_compare(a, b);
    }

    proof fn lemma_prime(a: Self, e: Self::BasePrimeField) {
        lemma_mul_by_prime(a, e);
    }

    proof fn lemma_to_elems(a: Self) {
        lemma_coordinates_round_trip(a, a.to_elems_spec());
    }

    proof fn lemma_from_elems(elems: Seq<Self::BasePrimeField>) {
        lemma_from_coordinates::<P>(elems);
    }

    proof fn lemma_encoding(a: Self, flags: Flags) {
        lemma_encoding_round_trip(a, flags);
    }

    proof fn lemma_decoding(bytes: Seq<u8>, flag_bits: u8) {
        lemma_decoding::<P>(bytes, flag_bits);
    }

    fn is_valid(&self) -> (r: bool) {
        CubicExtField::is_valid(self)
    }

    fn zero() -> (r: Self) {
        CubicExtField::<P>::zero()
    }

    fn one() -> (r: Self) {
        CubicExtField::<P>::one()
    }

    fn is_zero(&self) -> (r: bool) {
        CubicExtField::is_zero(self)
    }

    fn is_one(&self) -> (r: bool) {
        CubicExtField::is_one(self)
    }

    fn equals(&self, rhs: &Self) -> (r: bool) {
        CubicExtField::equals(self, rhs)
    }

    fn compare(&self, rhs: &Self) -> (r: Comparison) {
        CubicExtField::compare(self, rhs)
    }

    fn add(&self, rhs: &Self) -> (r: Self) {
        CubicExtField::add(*self, rhs)
    }

    fn sub(&self, rhs: &Self) -> (r: Self) {
        CubicExtField::sub(*self, rhs)
    }

    fn neg(&self) -> (r: Self) {
        CubicExtField::neg(*self)
    }

    fn double(&self) -> (r: Self) {
        CubicExtField::double(self)
    }

    fn mul(&self, rhs: &Self) -> (r: Self) {
        CubicExtField::mul(*self, rhs)
    }

    fn square(&self) -> (r: Self) {
        CubicExtField::square(self)
    }

    fn inverse(&self) -> (r: Option<Self>) {
        CubicExtField::inverse(self)
    }

    fn frobenius_map_in_place(&mut self, power: usize) {
        CubicExtField::frobenius_map_in_place(self, power)
    }

    fn extension_degree() -> (r: u64) {
        CubicExtField::<P>::extension_degree()
    }

    fn from_base_prime_field(e: Self::BasePrimeField) -> (r: Self) {
        CubicExtField::<P>::from_base_prime_field(e)
    }

    fn mul_by_base_prime_field(&self, e: &Self::BasePrimeField) -> (r: Self) {
        CubicExtField::mul_by_base_prime_field(self, e)
    }

    fn to_base_prime_field_elements(&self) -> (r: Vec<Self::BasePrimeField>) {
        CubicExtField::to_base_prime_field_elements(self)
    }

    fn from_base_prime_field_elems(elems: &[Self::BasePrimeField]) -> (r:
        Option<Self>) {
        CubicExtField::<P>::from_base_prime_field_elems(elems)
    }

    fn serialized_size_with_flags(flag_bits: u8) -> (r: usize) {
        proof {
            P::lemma_coherent();
            assert(CubicExtField::<P>::encoded_len_spec(flag_bits) <= usize::MAX);
        }
        let plain = P::BaseField::serialized_size_with_flags(0);
        let flagged = P::BaseField::serialized_size_with_flags(flag_bits);
        plain + plain + flagged
    }

    fn serialize_with_flags(&self, out: &mut Vec<u8>, flags: Flags) -> (r: Result<
        (),
        SerializationError,
    >) {
        CubicExtField::serialize_with_flags(self, out, flags)
    }

    fn deserialize_with_flags(bytes: &[u8], flag_bits: u8) -> (r: Result<
        (Self, Flags),
        SerializationError,
    >) {
        CubicExtField::<P>::deserialize_with_flags(bytes, flag_bits)
    }

    fn from_random_bytes_with_flags(bytes: &[u8], flag_bits: u8) -> (r: Option<(Self, Flags)>) {
        CubicExtField::<P>::from_random_bytes_with_flags(bytes, flag_bits)
    }

    fn zeroize(&mut self) {
        CubicExtField::zeroize(self)
    }
}

} // verus!
