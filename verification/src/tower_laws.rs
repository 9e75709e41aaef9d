//! The laws of the arithmetic of a cubic extension, proved from the laws of
//! the field below it.

use crate::algebra::{
    lemma_expansion_rules, lemma_lin9_rules, lemma_lin_rules, lemma_mono10_rules,
    lemma_mono_rules, lemma_mul_zero, lemma_ring_closure, minus, mono, mono10, Exponents,
    Variables,
};
use crate::cubic_extension::{by_nonresidue, CubicExtConfig, CubicExtField};
use crate::field::{Comparison, Field};
use crate::serialize::{Flags, SerializationError};
use vstd::prelude::*;

verus! {

/// Sums, negations and products of valid elements are valid.
pub proof fn lemma_closed<P: CubicExtConfig>(a: CubicExtField<P>, b: CubicExtField<P>)
    requires
        a.wf(),
        b.wf(),
    ensures
        CubicExtField::<P>::zero_spec().wf(),
        CubicExtField::<P>::one_spec().wf(),
        a.add_spec(b).wf(),
        a.neg_spec().wf(),
        a.sub_spec(b).wf(),
        a.mul_spec(b).wf(),
        a.adjugate_spec().wf(),
        a.sub_norm_spec().wf(),
{
    P::lemma_constants_wf(0);
    lemma_ring_closure::<P::BaseField>();
}

/// `(a + b) + c == a + (b + c)`.
pub proof fn lemma_add_associates<P: CubicExtConfig>(
    a: CubicExtField<P>,
    b: CubicExtField<P>,
    c: CubicExtField<P>,
)
    requires
        a.wf(),
        b.wf(),
        c.wf(),
    ensures
        a.add_spec(b).add_spec(c) == a.add_spec(b.add_spec(c)),
{
    P::BaseField::lemma_add_associates(a.c0, b.c0, c.c0);
    P::BaseField::lemma_add_associates(a.c1, b.c1, c.c1);
    P::BaseField::lemma_add_associates(a.c2, b.c2, c.c2);
}

/// `a + b == b + a`.
pub proof fn lemma_add_commutes<P: CubicExtConfig>(a: CubicExtField<P>, b: CubicExtField<P>)
    requires
        a.wf(),
        b.wf(),
    ensures
        a.add_spec(b) == b.add_spec(a),
{
    P::BaseField::lemma_add_commutes(a.c0, b.c0);
    P::BaseField::lemma_add_commutes(a.c1, b.c1);
    P::BaseField::lemma_add_commutes(a.c2, b.c2);
}

/// `a + 0 == a`.
pub proof fn lemma_add_zero<P: CubicExtConfig>(a: CubicExtField<P>)
    requires
        a.wf(),
    ensures
        a.add_spec(CubicExtField::<P>::zero_spec()) == a,
{
    P::BaseField::lemma_add_zero(a.c0);
    P::BaseField::lemma_add_zero(a.c1);
    P::BaseField::lemma_add_zero(a.c2);
}

/// `a + -a == 0`.
pub proof fn lemma_add_neg<P: CubicExtConfig>(a: CubicExtField<P>)
    requires
        a.wf(),
    ensures
        a.add_spec(a.neg_spec()) == CubicExtField::<P>::zero_spec(),
        a.sub_spec(a) == CubicExtField::<P>::zero_spec(),
{
    P::BaseField::lemma_add_neg(a.c0);
    P::BaseField::lemma_add_neg(a.c1);
    P::BaseField::lemma_add_neg(a.c2);
}

/// `a * b == b * a`.
pub proof fn lemma_mul_commutes<P: CubicExtConfig>(a: CubicExtField<P>, b: CubicExtField<P>)
    requires
        a.wf(),
        b.wf(),
    ensures
        a.mul_spec(b) == b.mul_spec(a),
{
    lemma_ring_closure::<P::BaseField>();
    P::BaseField::lemma_mul_commutes(a.c0, b.c0);
    P::BaseField::lemma_mul_commutes(a.c0, b.c1);
    P::BaseField::lemma_mul_commutes(a.c0, b.c2);
    P::BaseField::lemma_mul_commutes(a.c1, b.c0);
    P::BaseField::lemma_mul_commutes(a.c1, b.c1);
    P::BaseField::lemma_mul_commutes(a.c1, b.c2);
    P::BaseField::lemma_mul_commutes(a.c2, b.c0);
    P::BaseField::lemma_mul_commutes(a.c2, b.c1);
    P::BaseField::lemma_mul_commutes(a.c2, b.c2);
    P::BaseField::lemma_add_commutes(a.c1.mul_spec(b.c2), a.c2.mul_spec(b.c1));
    P::BaseField::lemma_add_commutes(a.c0.mul_spec(b.c1), a.c1.mul_spec(b.c0));
    let z = P::BaseField::zero_spec();
    lemma_lin_rules((a.c0.mul_spec(b.c2), a.c1.mul_spec(b.c1), a.c2.mul_spec(b.c0), z, z, z));
}

/// `(a * b) * c == a * (b * c)`.
pub proof fn lemma_mul_associates<P: CubicExtConfig>(
    a: CubicExtField<P>,
    b: CubicExtField<P>,
    c: CubicExtField<P>,
)
    requires
        a.wf(),
        b.wf(),
        c.wf(),
    ensures
        a.mul_spec(b).mul_spec(c) == a.mul_spec(b.mul_spec(c)),
{
    let l = a.mul_spec(b).mul_spec(c);
    let r = a.mul_spec(b.mul_spec(c));
    let v = (a.c0, a.c1, a.c2, b.c0, b.c1, b.c2, c.c0, c.c1, c.c2, P::nonresidue_spec());
    P::lemma_constants_wf(0);
    assert(l.c0 == r.c0) by {
        lemma_expansion_rules::<P::BaseField>();
        lemma_mono10_rules(v);
        lemma_lin9_rules(
            (
                mono10(v, (1, 0, 0, 1, 0, 0, 1, 0, 0, 0)),
                mono10(v, (1, 0, 0, 0, 1, 0, 0, 0, 1, 1)),
                mono10(v, (1, 0, 0, 0, 0, 1, 0, 1, 0, 1)),
                mono10(v, (0, 1, 0, 1, 0, 0, 0, 0, 1, 1)),
                mono10(v, (0, 1, 0, 0, 1, 0, 0, 1, 0, 1)),
                mono10(v, (0, 1, 0, 0, 0, 1, 1, 0, 0, 1)),
                mono10(v, (0, 0, 1, 1, 0, 0, 0, 1, 0, 1)),
                mono10(v, (0, 0, 1, 0, 1, 0, 1, 0, 0, 1)),
                mono10(v, (0, 0, 1, 0, 0, 1, 0, 0, 1, 2)),
            ),
        );
    }
    assert(l.c1 == r.c1) by {
        lemma_expansion_rules::<P::BaseField>();
        lemma_mono10_rules(v);
        lemma_lin9_rules(
            (
                mono10(v, (1, 0, 0, 1, 0, 0, 0, 1, 0, 0)),
                mono10(v, (1, 0, 0, 0, 1, 0, 1, 0, 0, 0)),
                mono10(v, (0, 1, 0, 1, 0, 0, 1, 0, 0, 0)),
                mono10(v, (1, 0, 0, 0, 0, 1, 0, 0, 1, 1)),
                mono10(v, (0, 1, 0, 0, 1, 0, 0, 0, 1, 1)),
                mono10(v, (0, 1, 0, 0, 0, 1, 0, 1, 0, 1)),
                mono10(v, (0, 0, 1, 1, 0, 0, 0, 0, 1, 1)),
                mono10(v, (0, 0, 1, 0, 1, 0, 0, 1, 0, 1)),
                mono10(v, (0, 0, 1, 0, 0, 1, 1, 0, 0, 1)),
            ),
        );
    }
    assert(l.c2 == r.c2) by {
        lemma_expansion_rules::<P::BaseField>();
        lemma_mono10_rules(v);
        lemma_lin9_rules(
            (
                mono10(v, (1, 0, 0, 1, 0, 0, 0, 0, 1, 0)),
                mono10(v, (1, 0, 0, 0, 1, 0, 0, 1, 0, 0)),
                mono10(v, (1, 0, 0, 0, 0, 1, 1, 0, 0, 0)),
                mono10(v, (0, 1, 0, 1, 0, 0, 0, 1, 0, 0)),
                mono10(v, (0, 1, 0, 0, 1, 0, 1, 0, 0, 0)),
                mono10(v, (0, 0, 1, 1, 0, 0, 1, 0, 0, 0)),
                mono10(v, (0, 1, 0, 0, 0, 1, 0, 0, 1, 1)),
                mono10(v, (0, 0, 1, 0, 1, 0, 0, 0, 1, 1)),
                mono10(v, (0, 0, 1, 0, 0, 1, 0, 1, 0, 1)),
            ),
        );
    }
}

/// `a * 1 == a`.
pub proof fn lemma_mul_one<P: CubicExtConfig>(a: CubicExtField<P>)
    requires
        a.wf(),
    ensures
        a.mul_spec(CubicExtField::<P>::one_spec()) == a,
{
    P::lemma_constants_wf(0);
    lemma_expansion_rules::<P::BaseField>();
    P::BaseField::lemma_mul_one(a.c0);
    P::BaseField::lemma_mul_one(a.c1);
    P::BaseField::lemma_mul_one(a.c2);
    let z = P::BaseField::zero_spec();
    lemma_lin_rules((a.c0, a.c1, a.c2, z, z, z));
}

/// `a * (b + c) == a * b + a * c`.
pub proof fn lemma_mul_distributes<P: CubicExtConfig>(
    a: CubicExtField<P>,
    b: CubicExtField<P>,
    c: CubicExtField<P>,
)
    requires
        a.wf(),
        b.wf(),
        c.wf(),
    ensures
        a.mul_spec(b.add_spec(c)) == a.mul_spec(b).add_spec(a.mul_spec(c)),
{
    let nr = P::nonresidue_spec();
    let l = a.mul_spec(b.add_spec(c));
    let r = a.mul_spec(b).add_spec(a.mul_spec(c));
    P::lemma_constants_wf(0);
    assert(l.c0 == r.c0) by {
        lemma_expansion_rules::<P::BaseField>();
        lemma_lin_rules(
            (
                a.c0.mul_spec(b.c0),
                a.c0.mul_spec(c.c0),
                a.c1.mul_spec(b.c2).mul_spec(nr),
                a.c1.mul_spec(c.c2).mul_spec(nr),
                a.c2.mul_spec(b.c1).mul_spec(nr),
                a.c2.mul_spec(c.c1).mul_spec(nr),
            ),
        );
    }
    assert(l.c1 == r.c1) by {
        lemma_expansion_rules::<P::BaseField>();
        lemma_lin_rules(
            (
                a.c0.mul_spec(b.c1),
                a.c0.mul_spec(c.c1),
                a.c1.mul_spec(b.c0),
                a.c1.mul_spec(c.c0),
                a.c2.mul_spec(b.c2).mul_spec(nr),
                a.c2.mul_spec(c.c2).mul_spec(nr),
            ),
        );
    }
    assert(l.c2 == r.c2) by {
        lemma_expansion_rules::<P::BaseField>();
        lemma_lin_rules(
            (
                a.c0.mul_spec(b.c2),
                a.c0.mul_spec(c.c2),
                a.c1.mul_spec(b.c1),
                a.c1.mul_spec(c.c1),
                a.c2.mul_spec(b.c0),
                a.c2.mul_spec(c.c0),
            ),
        );
    }
}

/// `double(a) == a + a`.
pub proof fn lemma_double_is_sum<P: CubicExtConfig>(a: CubicExtField<P>)
    ensures
        a.double_spec() == a.add_spec(a),
{
}

/// `square(a) == a * a`.
pub proof fn lemma_square_is_product<P: CubicExtConfig>(a: CubicExtField<P>)
    ensures
        a.square_spec() == a.mul_spec(a),
{
}

/// An element times its adjugate lies in the base field: the product is
/// `(sub_norm_spec(), 0, 0)`.
pub proof fn lemma_adjugate_product<P: CubicExtConfig>(a: CubicExtField<P>)
    requires
        a.wf(),
    ensures
        a.mul_spec(a.adjugate_spec()) == (CubicExtField::<P> {
            c0: a.sub_norm_spec(),
            c1: P::BaseField::zero_spec(),
            c2: P::BaseField::zero_spec(),
        }),
{
    let nr = P::nonresidue_spec();
    let s = a.adjugate_spec();
    let p = a.mul_spec(s);
    let z = P::BaseField::zero_spec();
    let u = P::BaseField::one_spec();
    let v = (a.c0, a.c1, a.c2, nr, u);
    P::lemma_constants_wf(0);
    lemma_ring_closure::<P::BaseField>();
    assert(p.c0 == a.sub_norm_spec()) by {
        P::BaseField::lemma_add_commutes(a.c1.mul_spec(s.c2), a.c2.mul_spec(s.c1));
    }
    assert(p.c1 == z) by {
        lemma_expansion_rules::<P::BaseField>();
        lemma_mono_rules(v);
        lemma_lin_rules(
            (mono(v, (1, 0, 2, 1, 0)), mono(v, (2, 1, 0, 0, 0)), mono(v, (0, 2, 1, 1, 0)), z, z, z),
        );
    }
    assert(p.c2 == z) by {
        lemma_expansion_rules::<P::BaseField>();
        lemma_mono_rules(v);
        lemma_lin_rules(
            (mono(v, (1, 2, 0, 0, 0)), mono(v, (2, 0, 1, 0, 0)), mono(v, (0, 1, 2, 1, 0)), z, z, z),
        );
    }
}

/// `x * (t * y) == t * (x * y)`.
pub proof fn lemma_pull_scalar<F: Field>(t: F, x: F, y: F)
    requires
        t.wf(),
        x.wf(),
        y.wf(),
    ensures
        x.mul_spec(t.mul_spec(y)) == t.mul_spec(x.mul_spec(y)),
{
    F::lemma_mul_associates(x, t, y);
    F::lemma_mul_commutes(x, t);
    F::lemma_mul_associates(t, x, y);
}

/// The element with each coordinate of `b` multiplied by `t` from the left.
pub open spec fn scaled<P: CubicExtConfig>(
    t: P::BaseField,
    b: CubicExtField<P>,
) -> CubicExtField<P> {
    CubicExtField { c0: t.mul_spec(b.c0), c1: t.mul_spec(b.c1), c2: t.mul_spec(b.c2) }
}

/// A factor from the base field can be taken out of a product:
/// `a * (t b) == t (a * b)`.
pub proof fn lemma_mul_scaled<P: CubicExtConfig>(
    t: P::BaseField,
    a: CubicExtField<P>,
    b: CubicExtField<P>,
)
    requires
        t.wf(),
        a.wf(),
        b.wf(),
    ensures
        a.mul_spec(scaled(t, b)) == scaled(t, a.mul_spec(b)),
{
    let nr = P::nonresidue_spec();
    let l = a.mul_spec(scaled(t, b));
    let r = scaled(t, a.mul_spec(b));
    let z = P::BaseField::zero_spec();
    P::lemma_constants_wf(0);
    lemma_ring_closure::<P::BaseField>();
    lemma_pull_scalar(t, a.c0, b.c0);
    lemma_pull_scalar(t, a.c0, b.c1);
    lemma_pull_scalar(t, a.c0, b.c2);
    lemma_pull_scalar(t, a.c1, b.c0);
    lemma_pull_scalar(t, a.c1, b.c1);
    lemma_pull_scalar(t, a.c1, b.c2);
    lemma_pull_scalar(t, a.c2, b.c0);
    lemma_pull_scalar(t, a.c2, b.c1);
    lemma_pull_scalar(t, a.c2, b.c2);
    P::BaseField::lemma_mul_associates(t, a.c1.mul_spec(b.c2), nr);
    P::BaseField::lemma_mul_associates(t, a.c2.mul_spec(b.c1), nr);
    P::BaseField::lemma_mul_associates(t, a.c2.mul_spec(b.c2), nr);
    assert(l.c0 == r.c0) by {
        lemma_expansion_rules::<P::BaseField>();
        lemma_lin_rules(
            (
                t.mul_spec(a.c0.mul_spec(b.c0)),
                t.mul_spec(a.c1.mul_spec(b.c2).mul_spec(nr)),
                t.mul_spec(a.c2.mul_spec(b.c1).mul_spec(nr)),
                z,
                z,
                z,
            ),
        );
    }
    assert(l.c1 == r.c1) by {
        lemma_expansion_rules::<P::BaseField>();
        lemma_lin_rules(
            (
                t.mul_spec(a.c0.mul_spec(b.c1)),
                t.mul_spec(a.c1.mul_spec(b.c0)),
                t.mul_spec(a.c2.mul_spec(b.c2).mul_spec(nr)),
                z,
                z,
                z,
            ),
        );
    }
    assert(l.c2 == r.c2) by {
        lemma_expansion_rules::<P::BaseField>();
        lemma_lin_rules(
            (
                t.mul_spec(a.c0.mul_spec(b.c2)),
                t.mul_spec(a.c1.mul_spec(b.c1)),
                t.mul_spec(a.c2.mul_spec(b.c0)),
                z,
                z,
                z,
            ),
        );
    }
}

/// Zero has no inverse, and where `inverse_spec` gives an element, its
/// product with `a` is one.
pub proof fn lemma_inverse<P: CubicExtConfig>(a: CubicExtField<P>)
    requires
        a.wf(),
    ensures
        CubicExtField::<P>::zero_spec().inverse_spec() is None,
        a.inverse_spec() is Some <==> a != CubicExtField::<P>::zero_spec()
            && a.sub_norm_spec().inverse_spec() is Some,
        a.inverse_spec() is Some ==> a.inverse_spec().unwrap().wf() && a.mul_spec(
            a.inverse_spec().unwrap(),
        ) == CubicExtField::<P>::one_spec(),
{
    if a.inverse_spec() is Some {
        let d = a.sub_norm_spec();
        let t = d.inverse_spec().unwrap();
        let s = a.adjugate_spec();
        lemma_closed(a, a);
        P::BaseField::lemma_inverse(d);
        lemma_ring_closure::<P::BaseField>();
        assert(a.inverse_spec().unwrap() == scaled(t, s));
        lemma_mul_scaled(t, a, s);
        lemma_adjugate_product(a);
        P::BaseField::lemma_mul_commutes(t, d);
        lemma_mul_zero(t);
    }
}

/// Whether `F` is a field: every valid element but zero has an inverse.
pub open spec fn is_field<F: Field>() -> bool {
    forall|x: F| x.wf() && x != F::zero_spec() ==> (#[trigger] x.inverse_spec()) is Some
}

/// `b * b * b`.
pub open spec fn cube<F: Field>(b: F) -> F {
    b.mul_spec(b).mul_spec(b)
}

/// Whether the non-residue of `P` is what its name says: the cube of no
/// element of the base field.
pub open spec fn nonresidue_is_no_cube<P: CubicExtConfig>() -> bool {
    forall|b: P::BaseField| b.wf() ==> #[trigger] cube(b) != P::nonresidue_spec()
}

/// If `a - b` is zero then `a` is `b`.
pub proof fn lemma_difference_zero<F: Field>(a: F, b: F)
    requires
        a.wf(),
        b.wf(),
        minus(a, b) == F::zero_spec(),
    ensures
        a == b,
{
    lemma_ring_closure::<F>();
    crate::algebra::lemma_add_neg_cancels(a, b);
    crate::algebra::lemma_zero_add(b);
}

/// In a field only zero has the square zero.
pub proof fn lemma_square_zero<F: Field>(u: F)
    requires
        is_field::<F>(),
        u.wf(),
        u.mul_spec(u) == F::zero_spec(),
    ensures
        u == F::zero_spec(),
{
    if u != F::zero_spec() {
        let v = u.inverse_spec().unwrap();
        F::lemma_inverse(u);
        F::lemma_mul_associates(u, u, v);
        F::lemma_mul_one(u);
        lemma_mul_zero(v);
    }
}

/// The cube of a product is the product of the cubes.
pub proof fn lemma_cube_of_product<F: Field>(n: F, p: F, q: F, r: F)
    requires
        n.wf(),
        p.wf(),
        q.wf(),
        r.wf(),
    ensures
        cube(q.mul_spec(r)) == cube(q).mul_spec(cube(r)),
        n.mul_spec(cube(p)).mul_spec(cube(r)) == n.mul_spec(cube(p.mul_spec(r))),
{
    let v = (n, p, q, r, F::one_spec());
    F::lemma_constants();
    lemma_mono_rules(v);
    assert(cube(q.mul_spec(r)) == mono(v, (0, 0, 3, 3, 0)));
    assert(cube(q).mul_spec(cube(r)) == mono(v, (0, 0, 3, 3, 0)));
    assert(n.mul_spec(cube(p)).mul_spec(cube(r)) == mono(v, (1, 3, 0, 3, 0)));
    assert(n.mul_spec(cube(p.mul_spec(r))) == mono(v, (1, 3, 0, 3, 0)));
}

/// In a field, if `n p^3 == q^3` for a `p` that is not zero, then `n` is
/// the cube of `q / p`.
pub proof fn lemma_cube_of_ratio<F: Field>(n: F, p: F, q: F)
    requires
        is_field::<F>(),
        n.wf(),
        p.wf(),
        q.wf(),
        p != F::zero_spec(),
        n.mul_spec(cube(p)) == cube(q),
    ensures
        p.inverse_spec() is Some,
        q.mul_spec(p.inverse_spec().unwrap()).wf(),
        cube(q.mul_spec(p.inverse_spec().unwrap())) == n,
{
    let r = p.inverse_spec().unwrap();
    let one = F::one_spec();
    F::lemma_inverse(p);
    lemma_ring_closure::<F>();
    lemma_cube_of_product(n, p, q, r);
    F::lemma_mul_one(one);
    F::lemma_mul_one(n);
}

/// The adjugate of the adjugate of an element is the element times its
/// `sub_norm_spec()`.
pub proof fn lemma_adjugate_twice<P: CubicExtConfig>(a: CubicExtField<P>)
    requires
        a.wf(),
    ensures
        a.adjugate_spec().adjugate_spec() == a.mul_by_base_spec(a.sub_norm_spec()),
{
    let nr = P::nonresidue_spec();
    let z = P::BaseField::zero_spec();
    let one = P::BaseField::one_spec();
    let v = (a.c0, a.c1, a.c2, nr, one);
    let l = a.adjugate_spec().adjugate_spec();
    let r = a.mul_by_base_spec(a.sub_norm_spec());
    P::lemma_constants_wf(0);
    lemma_ring_closure::<P::BaseField>();
    assert(l.c0 == r.c0) by {
        lemma_expansion_rules::<P::BaseField>();
        lemma_mono_rules(v);
        lemma_lin_rules(
            (
                mono(v, (4, 0, 0, 0, 0)),
                mono(v, (2, 1, 1, 1, 0)),
                mono(v, (0, 2, 2, 2, 0)),
                mono(v, (1, 0, 3, 2, 0)),
                mono(v, (1, 3, 0, 1, 0)),
                z,
            ),
        );
    }
    assert(l.c1 == r.c1) by {
        lemma_expansion_rules::<P::BaseField>();
        lemma_mono_rules(v);
        lemma_lin_rules(
            (
                mono(v, (0, 4, 0, 1, 0)),
                mono(v, (1, 2, 1, 1, 0)),
                mono(v, (2, 0, 2, 1, 0)),
                mono(v, (3, 1, 0, 0, 0)),
                mono(v, (0, 1, 3, 2, 0)),
                z,
            ),
        );
    }
    assert(l.c2 == r.c2) by {
        lemma_expansion_rules::<P::BaseField>();
        lemma_mono_rules(v);
        lemma_lin_rules(
            (
                mono(v, (0, 0, 4, 2, 0)),
                mono(v, (1, 1, 2, 1, 0)),
                mono(v, (2, 2, 0, 0, 0)),
                mono(v, (3, 0, 1, 0, 0)),
                mono(v, (0, 3, 1, 1, 0)),
                z,
            ),
        );
    }
}

/// Over a field, an element whose adjugate is zero is zero, unless the
/// non-residue is a cube.
pub proof fn lemma_adjugate_zero<P: CubicExtConfig>(a: CubicExtField<P>)
    requires
        a.wf(),
        is_field::<P::BaseField>(),
        nonresidue_is_no_cube::<P>(),
        a.adjugate_spec() == CubicExtField::<P>::zero_spec(),
    ensures
        a == CubicExtField::<P>::zero_spec(),
{
    let nr = P::nonresidue_spec();
    let zero = P::BaseField::zero_spec();
    let x = a.c0;
    let y = a.c1;
    let z = a.c2;
    P::lemma_constants_wf(0);
    lemma_ring_closure::<P::BaseField>();
    // x x == (y z) n, (z z) n == x y, y y == x z
    lemma_difference_zero(x.mul_spec(x), by_nonresidue::<P>(y.mul_spec(z)));
    lemma_difference_zero(by_nonresidue::<P>(z.mul_spec(z)), x.mul_spec(y));
    lemma_difference_zero(y.mul_spec(y), x.mul_spec(z));
    if z != zero {
        // n z^3 == (x y) z == y (x z) == y^3
        assert(nr.mul_spec(cube(z)) == cube(y)) by {
            let v = (x, y, z, nr, P::BaseField::one_spec());
            lemma_mono_rules(v);
            assert(z.mul_spec(z).mul_spec(nr).mul_spec(z) == x.mul_spec(y).mul_spec(z));
            assert(y.mul_spec(x.mul_spec(z)) == y.mul_spec(y.mul_spec(y)));
        }
        lemma_cube_of_ratio(nr, z, y);
        assert(cube(y.mul_spec(z.inverse_spec().unwrap())) == nr);
    } else {
        lemma_mul_zero(x);
        lemma_mul_zero(y);
        lemma_mul_zero(nr);
        lemma_square_zero(y);
        lemma_square_zero(x);
    }
}

/// Over a field in which the non-residue is no cube, the `sub_norm_spec()`
/// of an element that is not zero is not zero.
pub proof fn lemma_sub_norm_not_zero<P: CubicExtConfig>(a: CubicExtField<P>)
    requires
        a.wf(),
        a != CubicExtField::<P>::zero_spec(),
        is_field::<P::BaseField>(),
        nonresidue_is_no_cube::<P>(),
    ensures
        a.sub_norm_spec() != P::BaseField::zero_spec(),
{
    let zero = P::BaseField::zero_spec();
    let nr = P::nonresidue_spec();
    let s = a.adjugate_spec();
    if a.sub_norm_spec() == zero {
        P::lemma_constants_wf(0);
        lemma_ring_closure::<P::BaseField>();
        lemma_closed(a, a);
        lemma_adjugate_twice(a);
        lemma_mul_zero(a.c0);
        lemma_mul_zero(a.c1);
        lemma_mul_zero(a.c2);
        // the adjugate of s is zero:
        // s0 s0 == (s1 s2) n, (s2 s2) n == s0 s1, s1 s1 == s0 s2
        lemma_difference_zero(s.c0.mul_spec(s.c0), by_nonresidue::<P>(s.c1.mul_spec(s.c2)));
        lemma_difference_zero(by_nonresidue::<P>(s.c2.mul_spec(s.c2)), s.c0.mul_spec(s.c1));
        lemma_difference_zero(s.c1.mul_spec(s.c1), s.c0.mul_spec(s.c2));
        if s.c2 != zero {
            // n s2^3 == (s0 s1) s2 == s1 (s0 s2) == s1^3
            assert(nr.mul_spec(cube(s.c2)) == cube(s.c1)) by {
                let v = (s.c0, s.c1, s.c2, nr, P::BaseField::one_spec());
                lemma_mono_rules(v);
                assert(s.c2.mul_spec(s.c2).mul_spec(nr).mul_spec(s.c2) == s.c0.mul_spec(
                    s.c1,
                ).mul_spec(s.c2));
                assert(s.c1.mul_spec(s.c0.mul_spec(s.c2)) == s.c1.mul_spec(
                    s.c1.mul_spec(s.c1),
                ));
            }
            lemma_cube_of_ratio(nr, s.c2, s.c1);
            assert(cube(s.c1.mul_spec(s.c2.inverse_spec().unwrap())) == nr);
        } else {
            lemma_mul_zero(s.c0);
            lemma_mul_zero(s.c1);
            lemma_mul_zero(nr);
            lemma_square_zero(s.c1);
            lemma_square_zero(s.c0);
            lemma_adjugate_zero(a);
        }
    }
}

/// Over a field in which the non-residue is no cube, every element but
/// zero has an inverse: the extension is a field.
pub proof fn lemma_inverse_of_nonzero<P: CubicExtConfig>(a: CubicExtField<P>)
    requires
        a.wf(),
        a != CubicExtField::<P>::zero_spec(),
        is_field::<P::BaseField>(),
        nonresidue_is_no_cube::<P>(),
    ensures
        a.inverse_spec() is Some,
        a.mul_spec(a.inverse_spec().unwrap()) == CubicExtField::<P>::one_spec(),
{
    lemma_closed(a, a);
    lemma_sub_norm_not_zero(a);
    lemma_inverse(a);
}

/// Decoding an encoding gives back the element and the flags, and an
/// encoding has the length that its flags call for.
pub proof fn lemma_encoding_round_trip<P: CubicExtConfig>(a: CubicExtField<P>, flags: Flags)
    requires
        a.wf(),
        flags.wf(),
    ensures
        a.encoding_spec(flags).len() == CubicExtField::<P>::encoded_len_spec(flags.bit_size),
        CubicExtField::<P>::decoding_spec(a.encoding_spec(flags), flags.bit_size) == Ok::<
            (CubicExtField<P>, Flags),
            SerializationError,
        >((a, flags)),
{
    let none = Flags::empty_spec();
    let e0 = a.c0.encoding_spec(none);
    let e1 = a.c1.encoding_spec(none);
    let e2 = a.c2.encoding_spec(flags);
    let all = a.encoding_spec(flags);
    let n = P::BaseField::encoded_len_spec(0) as int;
    P::BaseField::lemma_encoding(a.c0, none);
    P::BaseField::lemma_encoding(a.c1, none);
    P::BaseField::lemma_encoding(a.c2, flags);
    P::BaseField::lemma_decoding(all, 0);
    assert(all.take(n) =~= e0);
    P::BaseField::lemma_decoding(all.skip(n), 0);
    assert(all.skip(n).take(n) =~= e1);
    assert(all.skip(2 * n) =~= e2);
}

/// An element has as many coordinates over the prime field as the degree
/// says, and they give the element back; coordinates of any other number
/// give no element.
pub proof fn lemma_coordinates_round_trip<P: CubicExtConfig>(
    a: CubicExtField<P>,
    elems: Seq<<P::BaseField as Field>::BasePrimeField>,
)
    requires
        a.wf(),
    ensures
        a.to_elems_spec().len() == CubicExtField::<P>::degree_spec(),
        CubicExtField::<P>::from_elems_spec(a.to_elems_spec()) == Some(a),
        elems.len() != CubicExtField::<P>::degree_spec() ==> CubicExtField::<P>::from_elems_spec(
            elems,
        ) is None,
{
    let d = P::BaseField::degree_spec() as int;
    let all = a.to_elems_spec();
    P::BaseField::lemma_to_elems(a.c0);
    P::BaseField::lemma_to_elems(a.c1);
    P::BaseField::lemma_to_elems(a.c2);
    assert(all.subrange(0, d) =~= a.c0.to_elems_spec());
    assert(all.subrange(d, 2 * d) =~= a.c1.to_elems_spec());
    assert(all.subrange(2 * d, 3 * d) =~= a.c2.to_elems_spec());
}

/// The condition `c(i + j) == frobenius(c(i), j) * c(j)` on the coefficients
/// that the Frobenius maps put on `c1`.
pub open spec fn coeff_c1_composes<P: CubicExtConfig>(i: nat, j: nat) -> bool {
    P::frobenius_coeff_c1_spec(i + j) == P::frobenius_coeff_c1_spec(i).frobenius_spec(j).mul_spec(
        P::frobenius_coeff_c1_spec(j),
    )
}

/// The same condition on the coefficients that they put on `c2`.
pub open spec fn coeff_c2_composes<P: CubicExtConfig>(i: nat, j: nat) -> bool {
    P::frobenius_coeff_c2_spec(i + j) == P::frobenius_coeff_c2_spec(i).frobenius_spec(j).mul_spec(
        P::frobenius_coeff_c2_spec(j),
    )
}

/// The conditions on the coefficients of one power under which the
/// Frobenius map keeps products: the coefficient on `c2` is the square of
/// that on `c1`, and the cube of that on `c1` turns the non-residue into its
/// image.
pub open spec fn coeffs_keep_products<P: CubicExtConfig>(i: nat) -> bool {
    let k = P::frobenius_coeff_c1_spec(i);
    &&& P::frobenius_coeff_c2_spec(i) == k.mul_spec(k)
    &&& P::nonresidue_spec().frobenius_spec(i) == P::nonresidue_spec().mul_spec(
        k.mul_spec(k).mul_spec(k),
    )
}

/// Whether the coefficient tables of `P` are those of the Frobenius maps of
/// a cubic extension: the coefficients of power 0 are one, those of a sum
/// of powers compose, they are one again at the degree of the extension,
/// and they keep products; the coefficient `w` that the degree of the base
/// field puts on `c1` is a root of `w^2 + w + 1`.
pub open spec fn frobenius_coherent<P: CubicExtConfig>() -> bool {
    let d = P::BaseField::degree_spec();
    let w = P::frobenius_coeff_c1_spec(d);
    let one = P::BaseField::one_spec();
    &&& P::frobenius_coeff_c1_spec(0) == one
    &&& P::frobenius_coeff_c2_spec(0) == one
    &&& forall|i: nat, j: nat| #[trigger] coeff_c1_composes::<P>(i, j)
    &&& forall|i: nat, j: nat| #[trigger] coeff_c2_composes::<P>(i, j)
    &&& forall|i: nat| #[trigger] coeffs_keep_products::<P>(i)
    &&& P::frobenius_coeff_c1_spec(3 * d) == one
    &&& P::frobenius_coeff_c2_spec(3 * d) == one
    &&& w.mul_spec(w).add_spec(w).add_spec(one) == P::BaseField::zero_spec()
}

/// The Frobenius map of power 0 is the identity.
pub proof fn lemma_frobenius_zero<P: CubicExtConfig>(a: CubicExtField<P>)
    requires
        a.wf(),
        frobenius_coherent::<P>(),
    ensures
        a.frobenius_spec(0) == a,
{
    P::BaseField::lemma_frobenius(a.c0, a.c0, 0, 0);
    P::BaseField::lemma_frobenius(a.c1, a.c1, 0, 0);
    P::BaseField::lemma_frobenius(a.c2, a.c2, 0, 0);
    P::BaseField::lemma_mul_one(a.c1);
    P::BaseField::lemma_mul_one(a.c2);
}

/// A Frobenius map keeps validity.
pub proof fn lemma_frobenius_wf<P: CubicExtConfig>(a: CubicExtField<P>, i: nat)
    requires
        a.wf(),
    ensures
        a.frobenius_spec(i).wf(),
{
    P::lemma_constants_wf(i);
    P::BaseField::lemma_frobenius(a.c0, a.c0, i, 0);
    P::BaseField::lemma_frobenius(a.c1, a.c1, i, 0);
    P::BaseField::lemma_frobenius(a.c2, a.c2, i, 0);
    lemma_ring_closure::<P::BaseField>();
}

/// Frobenius maps compose by adding their powers.
pub proof fn lemma_frobenius_composes<P: CubicExtConfig>(a: CubicExtField<P>, i: nat, j: nat)
    requires
        a.wf(),
        frobenius_coherent::<P>(),
    ensures
        a.frobenius_spec(i).frobenius_spec(j) == a.frobenius_spec(i + j),
{
    let k1 = P::frobenius_coeff_c1_spec(i);
    let k2 = P::frobenius_coeff_c2_spec(i);
    P::lemma_constants_wf(i);
    P::lemma_constants_wf(j);
    P::BaseField::lemma_frobenius(a.c0, a.c0, i, j);
    P::BaseField::lemma_frobenius(a.c1, a.c1, i, j);
    P::BaseField::lemma_frobenius(a.c2, a.c2, i, j);
    P::BaseField::lemma_frobenius(a.c1.frobenius_spec(i), k1, j, 0);
    P::BaseField::lemma_frobenius(a.c2.frobenius_spec(i), k2, j, 0);
    P::BaseField::lemma_frobenius(k1, k2, j, 0);
    P::BaseField::lemma_frobenius(k2, k1, j, 0);
    assert(coeff_c1_composes::<P>(i, j));
    assert(coeff_c2_composes::<P>(i, j));
    P::BaseField::lemma_mul_associates(
        a.c1.frobenius_spec(i + j),
        k1.frobenius_spec(j),
        P::frobenius_coeff_c1_spec(j),
    );
    P::BaseField::lemma_mul_associates(
        a.c2.frobenius_spec(i + j),
        k2.frobenius_spec(j),
        P::frobenius_coeff_c2_spec(j),
    );
}

/// In the base field the Frobenius map of three times its degree is the
/// identity.
pub proof fn lemma_base_frobenius_thrice<F: Field>(x: F)
    requires
        x.wf(),
    ensures
        x.frobenius_spec(2 * F::degree_spec()) == x,
        x.frobenius_spec(3 * F::degree_spec()) == x,
{
    let d = F::degree_spec();
    F::lemma_frobenius(x, x, d, d);
    F::lemma_frobenius(x, x, 2 * d, d);
}

/// The Frobenius map of the degree of the extension is the identity.
pub proof fn lemma_frobenius_order<P: CubicExtConfig>(a: CubicExtField<P>)
    requires
        a.wf(),
        frobenius_coherent::<P>(),
    ensures
        a.frobenius_spec(CubicExtField::<P>::degree_spec()) == a,
{
    lemma_base_frobenius_thrice(a.c0);
    lemma_base_frobenius_thrice(a.c1);
    lemma_base_frobenius_thrice(a.c2);
    P::BaseField::lemma_mul_one(a.c1);
    P::BaseField::lemma_mul_one(a.c2);
}

/// The Frobenius map of power 1, applied `times` times in a row.
pub open spec fn frobenius_iterated<P: CubicExtConfig>(
    a: CubicExtField<P>,
    times: nat,
) -> CubicExtField<P>
    decreases times,
{
    if times == 0 {
        a
    } else {
        frobenius_iterated(a, (times - 1) as nat).frobenius_spec(1)
    }
}

/// Applying the Frobenius map of power 1 `times` times is the Frobenius map
/// of power `times`.
pub proof fn lemma_frobenius_iterated<P: CubicExtConfig>(a: CubicExtField<P>, times: nat)
    requires
        a.wf(),
        frobenius_coherent::<P>(),
    ensures
        frobenius_iterated(a, times) == a.frobenius_spec(times),
    decreases times,
{
    if times == 0 {
        lemma_frobenius_zero(a);
    } else {
        let before = (times - 1) as nat;
        lemma_frobenius_iterated(a, before);
        lemma_frobenius_composes(a, before, 1);
    }
}

/// Applying the Frobenius map of power 1 as many times as the degree of the
/// extension says gives the element back.
pub proof fn lemma_frobenius_closes<P: CubicExtConfig>(a: CubicExtField<P>)
    requires
        a.wf(),
        frobenius_coherent::<P>(),
    ensures
        frobenius_iterated(a, CubicExtField::<P>::degree_spec()) == a,
{
    lemma_frobenius_iterated(a, CubicExtField::<P>::degree_spec());
    lemma_frobenius_order(a);
}

/// A root `w` of `w^2 + w + 1` has `w^3 == 1`.
pub proof fn lemma_cube_of_root<F: Field>(w: F)
    requires
        w.wf(),
        w.mul_spec(w).add_spec(w).add_spec(F::one_spec()) == F::zero_spec(),
    ensures
        w.mul_spec(w) == minus(w.neg_spec(), F::one_spec()),
        w.mul_spec(w).mul_spec(w) == F::one_spec(),
{
    let one = F::one_spec();
    let z = F::zero_spec();
    let ww = w.mul_spec(w);
    lemma_ring_closure::<F>();
    assert(ww == minus(w.neg_spec(), one)) by {
        let s = w.add_spec(one);
        F::lemma_add_associates(ww, w, one);
        crate::algebra::lemma_add_neg_cancels(ww, s);
        lemma_lin_rules((ww, w, one, z, z, z));
    }
    assert(ww.mul_spec(w) == one) by {
        lemma_expansion_rules::<F>();
        crate::algebra::lemma_one_mul(w);
        lemma_lin_rules((ww, w, one, z, z, z));
    }
}

/// Powers of a root `w` of `w^2 + w + 1` inside a product: with `w` the
/// fourth variable and a product `e` free of it, `e w^2 == -(e w) - e`,
/// `e w^3 == e`, and so on up to `e w^6`.
pub proof fn lemma_root_powers<F: Field>(v: Variables<F>, e: Exponents)
    requires
        crate::algebra::vars_wf(v),
        crate::algebra::exps_ok(e),
        e.3 == 0,
        v.3.mul_spec(v.3).add_spec(v.3).add_spec(F::one_spec()) == F::zero_spec(),
    ensures
        mono(v, (e.0, e.1, e.2, 2, e.4)) == minus(
            mono(v, (e.0, e.1, e.2, 1, e.4)).neg_spec(),
            mono(v, e),
        ),
        mono(v, (e.0, e.1, e.2, 3, e.4)) == mono(v, e),
        mono(v, (e.0, e.1, e.2, 4, e.4)) == mono(v, (e.0, e.1, e.2, 1, e.4)),
        mono(v, (e.0, e.1, e.2, 5, e.4)) == mono(v, (e.0, e.1, e.2, 2, e.4)),
        mono(v, (e.0, e.1, e.2, 6, e.4)) == mono(v, e),
{
    let w = v.3;
    let one = F::one_spec();
    lemma_cube_of_root(w);
    lemma_ring_closure::<F>();
    lemma_mono_rules(v);
    let w1 = mono(v, (0, 0, 0, 1, 0));
    let w2 = mono(v, (0, 0, 0, 2, 0));
    let w3 = mono(v, (0, 0, 0, 3, 0));
    assert(w1.mul_spec(w1) == w2);
    assert(w2.mul_spec(w1) == w3);
    assert(w3 == one);
    let m0 = mono(v, e);
    let m1 = mono(v, (e.0, e.1, e.2, 1, e.4));
    let m2 = mono(v, (e.0, e.1, e.2, 2, e.4));
    let m3 = mono(v, (e.0, e.1, e.2, 3, e.4));
    assert(m0.mul_spec(w1) == m1);
    assert(m0.mul_spec(w2) == m2);
    assert(m0.mul_spec(w3) == m3);
    assert(m1.mul_spec(w3) == mono(v, (e.0, e.1, e.2, 4, e.4)));
    assert(m2.mul_spec(w3) == mono(v, (e.0, e.1, e.2, 5, e.4)));
    assert(m3.mul_spec(w3) == mono(v, (e.0, e.1, e.2, 6, e.4)));
    F::lemma_mul_one(m0);
    F::lemma_mul_one(m1);
    F::lemma_mul_one(m2);
    F::lemma_mul_one(m3);
    assert(m2 == minus(m1.neg_spec(), m0)) by {
        lemma_expansion_rules::<F>();
    }
}

/// The two conjugates of an element over the base field, written with the
/// coefficient `w` that the degree of the base field puts on `c1`.
pub proof fn lemma_conjugates<P: CubicExtConfig>(a: CubicExtField<P>)
    requires
        a.wf(),
        frobenius_coherent::<P>(),
    ensures
        ({
            let d = P::BaseField::degree_spec();
            let w = P::frobenius_coeff_c1_spec(d);
            let ww = w.mul_spec(w);
            &&& w.wf()
            &&& a.frobenius_spec(d) == (CubicExtField::<P> {
                c0: a.c0,
                c1: a.c1.mul_spec(w),
                c2: a.c2.mul_spec(ww),
            })
            &&& a.frobenius_spec(2 * d) == (CubicExtField::<P> {
                c0: a.c0,
                c1: a.c1.mul_spec(ww),
                c2: a.c2.mul_spec(ww.mul_spec(ww)),
            })
        }),
{
    let d = P::BaseField::degree_spec();
    let w = P::frobenius_coeff_c1_spec(d);
    P::lemma_constants_wf(d);
    lemma_ring_closure::<P::BaseField>();
    P::BaseField::lemma_frobenius(a.c0, a.c0, d, d);
    P::BaseField::lemma_frobenius(a.c1, a.c1, d, d);
    P::BaseField::lemma_frobenius(a.c2, a.c2, d, d);
    P::BaseField::lemma_frobenius(w, w.mul_spec(w), d, d);
    P::BaseField::lemma_frobenius(w.mul_spec(w), w, d, d);
    assert(coeff_c1_composes::<P>(d, d));
    assert(coeff_c2_composes::<P>(d, d));
    assert(coeffs_keep_products::<P>(d));
    assert(d + d == 2 * d);
}

/// The product of an element with its two conjugates lies in the base
/// field: its `c1` and `c2` are zero.
pub proof fn lemma_norm_in_base_field<P: CubicExtConfig>(a: CubicExtField<P>)
    requires
        a.wf(),
        frobenius_coherent::<P>(),
    ensures
        a.norm_product_spec().c1 == P::BaseField::zero_spec(),
        a.norm_product_spec().c2 == P::BaseField::zero_spec(),
{
    let d = P::BaseField::degree_spec();
    let w = P::frobenius_coeff_c1_spec(d);
    let nr = P::nonresidue_spec();
    let z = P::BaseField::zero_spec();
    let v = (a.c0, a.c1, a.c2, w, nr);
    let p = a.norm_product_spec();
    P::lemma_constants_wf(d);
    lemma_conjugates(a);
    assert(p.c1 == z) by {
        lemma_root_powers(v, (2, 1, 0, 0, 0));
        lemma_root_powers(v, (0, 2, 1, 0, 1));
        lemma_root_powers(v, (1, 0, 2, 0, 1));
        lemma_expansion_rules::<P::BaseField>();
        lemma_mono_rules(v);
        lemma_lin_rules(
            (
                mono(v, (2, 1, 0, 0, 0)),
                mono(v, (2, 1, 0, 1, 0)),
                mono(v, (0, 2, 1, 0, 1)),
                mono(v, (0, 2, 1, 1, 1)),
                mono(v, (1, 0, 2, 0, 1)),
                mono(v, (1, 0, 2, 1, 1)),
            ),
        );
    }
    assert(p.c2 == z) by {
        lemma_root_powers(v, (0, 1, 2, 0, 1));
        lemma_root_powers(v, (2, 0, 1, 0, 0));
        lemma_root_powers(v, (1, 2, 0, 0, 0));
        lemma_expansion_rules::<P::BaseField>();
        lemma_mono_rules(v);
        lemma_lin_rules(
            (
                mono(v, (0, 1, 2, 0, 1)),
                mono(v, (0, 1, 2, 1, 1)),
                mono(v, (2, 0, 1, 0, 0)),
                mono(v, (2, 0, 1, 1, 0)),
                mono(v, (1, 2, 0, 0, 0)),
                mono(v, (1, 2, 0, 1, 0)),
            ),
        );
    }
}

/// The norm is what an inversion divides by: the `c0` of the product of the
/// conjugates is `sub_norm_spec()`.
pub proof fn lemma_norm_is_sub_norm<P: CubicExtConfig>(a: CubicExtField<P>)
    requires
        a.wf(),
        frobenius_coherent::<P>(),
    ensures
        a.norm_spec() == a.sub_norm_spec(),
{
    let d = P::BaseField::degree_spec();
    let w = P::frobenius_coeff_c1_spec(d);
    let nr = P::nonresidue_spec();
    let z = P::BaseField::zero_spec();
    let v = (a.c0, a.c1, a.c2, w, nr);
    P::lemma_constants_wf(d);
    lemma_conjugates(a);
    lemma_root_powers(v, (3, 0, 0, 0, 0));
    lemma_root_powers(v, (0, 3, 0, 0, 1));
    lemma_root_powers(v, (0, 0, 3, 0, 2));
    lemma_root_powers(v, (1, 1, 1, 0, 1));
    lemma_expansion_rules::<P::BaseField>();
    lemma_mono_rules(v);
    lemma_lin9_rules(
        (
            mono(v, (3, 0, 0, 0, 0)),
            mono(v, (3, 0, 0, 1, 0)),
            mono(v, (0, 3, 0, 0, 1)),
            mono(v, (0, 3, 0, 1, 1)),
            mono(v, (0, 0, 3, 0, 2)),
            mono(v, (0, 0, 3, 1, 2)),
            mono(v, (1, 1, 1, 0, 1)),
            mono(v, (1, 1, 1, 1, 1)),
            z,
        ),
    );
}

/// A Frobenius map keeps sums.
pub proof fn lemma_frobenius_adds<P: CubicExtConfig>(
    a: CubicExtField<P>,
    b: CubicExtField<P>,
    i: nat,
)
    requires
        a.wf(),
        b.wf(),
    ensures
        a.add_spec(b).frobenius_spec(i) == a.frobenius_spec(i).add_spec(b.frobenius_spec(i)),
{
    let k1 = P::frobenius_coeff_c1_spec(i);
    let k2 = P::frobenius_coeff_c2_spec(i);
    P::lemma_constants_wf(i);
    P::BaseField::lemma_frobenius(a.c0, b.c0, i, 0);
    P::BaseField::lemma_frobenius(a.c1, b.c1, i, 0);
    P::BaseField::lemma_frobenius(a.c2, b.c2, i, 0);
    P::BaseField::lemma_frobenius(b.c0, b.c0, i, 0);
    P::BaseField::lemma_frobenius(b.c1, b.c1, i, 0);
    P::BaseField::lemma_frobenius(b.c2, b.c2, i, 0);
    crate::algebra::lemma_mul_distributes_right(
        a.c1.frobenius_spec(i),
        b.c1.frobenius_spec(i),
        k1,
    );
    crate::algebra::lemma_mul_distributes_right(
        a.c2.frobenius_spec(i),
        b.c2.frobenius_spec(i),
        k2,
    );
}

/// A Frobenius map keeps products.
pub proof fn lemma_frobenius_multiplies<P: CubicExtConfig>(
    a: CubicExtField<P>,
    b: CubicExtField<P>,
    i: nat,
)
    requires
        a.wf(),
        b.wf(),
        frobenius_coherent::<P>(),
    ensures
        a.mul_spec(b).frobenius_spec(i) == a.frobenius_spec(i).mul_spec(b.frobenius_spec(i)),
{
    let nr = P::nonresidue_spec();
    let k = P::frobenius_coeff_c1_spec(i);
    let z = P::BaseField::zero_spec();
    let one = P::BaseField::one_spec();
    let x0 = a.c0.frobenius_spec(i);
    let x1 = a.c1.frobenius_spec(i);
    let x2 = a.c2.frobenius_spec(i);
    let y0 = b.c0.frobenius_spec(i);
    let y1 = b.c1.frobenius_spec(i);
    let y2 = b.c2.frobenius_spec(i);
    let l = a.mul_spec(b).frobenius_spec(i);
    let r = a.frobenius_spec(i).mul_spec(b.frobenius_spec(i));
    let v = (x0, x1, x2, y0, y1, y2, k, nr, one, one);
    P::lemma_constants_wf(i);
    lemma_ring_closure::<P::BaseField>();
    assert(coeffs_keep_products::<P>(i));
    lemma_frobenius_of_product(a, b, i);
    assert(l.c0 == r.c0) by {
        lemma_expansion_rules::<P::BaseField>();
        lemma_mono10_rules(v);
        lemma_lin9_rules(
            (
                mono10(v, (1, 0, 0, 1, 0, 0, 0, 0, 0, 0)),
                mono10(v, (0, 1, 0, 0, 0, 1, 3, 1, 0, 0)),
                mono10(v, (0, 0, 1, 0, 1, 0, 3, 1, 0, 0)),
                z,
                z,
                z,
                z,
                z,
                z,
            ),
        );
    }
    assert(l.c1 == r.c1) by {
        lemma_expansion_rules::<P::BaseField>();
        lemma_mono10_rules(v);
        lemma_lin9_rules(
            (
                mono10(v, (1, 0, 0, 0, 1, 0, 1, 0, 0, 0)),
                mono10(v, (0, 1, 0, 1, 0, 0, 1, 0, 0, 0)),
                mono10(v, (0, 0, 1, 0, 0, 1, 4, 1, 0, 0)),
                z,
                z,
                z,
                z,
                z,
                z,
            ),
        );
    }
    assert(l.c2 == r.c2) by {
        lemma_expansion_rules::<P::BaseField>();
        lemma_mono10_rules(v);
        lemma_lin9_rules(
            (
                mono10(v, (1, 0, 0, 0, 0, 1, 2, 0, 0, 0)),
                mono10(v, (0, 1, 0, 0, 1, 0, 2, 0, 0, 0)),
                mono10(v, (0, 0, 1, 1, 0, 0, 2, 0, 0, 0)),
                z,
                z,
                z,
                z,
                z,
                z,
            ),
        );
    }
}

/// The image of each coordinate of a product under the Frobenius map of
/// the base field, written out in the images of the coordinates of the
/// factors.
pub proof fn lemma_frobenius_of_product<P: CubicExtConfig>(
    a: CubicExtField<P>,
    b: CubicExtField<P>,
    i: nat,
)
    requires
        a.wf(),
        b.wf(),
    ensures
        ({
            let n = P::nonresidue_spec().frobenius_spec(i);
            let x0 = a.c0.frobenius_spec(i);
            let x1 = a.c1.frobenius_spec(i);
            let x2 = a.c2.frobenius_spec(i);
            let y0 = b.c0.frobenius_spec(i);
            let y1 = b.c1.frobenius_spec(i);
            let y2 = b.c2.frobenius_spec(i);
            let p = a.mul_spec(b);
            &&& x0.wf() && x1.wf() && x2.wf() && y0.wf() && y1.wf() && y2.wf() && n.wf()
            &&& p.c0.frobenius_spec(i) == x0.mul_spec(y0).add_spec(
                x1.mul_spec(y2).add_spec(x2.mul_spec(y1)).mul_spec(n),
            )
            &&& p.c1.frobenius_spec(i) == x0.mul_spec(y1).add_spec(x1.mul_spec(y0)).add_spec(
                x2.mul_spec(y2).mul_spec(n),
            )
            &&& p.c2.frobenius_spec(i) == x0.mul_spec(y2).add_spec(x1.mul_spec(y1)).add_spec(
                x2.mul_spec(y0),
            )
        }),
{
    let nr = P::nonresidue_spec();
    P::lemma_constants_wf(i);
    lemma_ring_closure::<P::BaseField>();
    P::BaseField::lemma_frobenius(a.c0, b.c0, i, 0);
    P::BaseField::lemma_frobenius(a.c0, b.c1, i, 0);
    P::BaseField::lemma_frobenius(a.c0, b.c2, i, 0);
    P::BaseField::lemma_frobenius(a.c1, b.c0, i, 0);
    P::BaseField::lemma_frobenius(a.c1, b.c1, i, 0);
    P::BaseField::lemma_frobenius(a.c1, b.c2, i, 0);
    P::BaseField::lemma_frobenius(a.c2, b.c0, i, 0);
    P::BaseField::lemma_frobenius(a.c2, b.c1, i, 0);
    P::BaseField::lemma_frobenius(a.c2, b.c2, i, 0);
    P::BaseField::lemma_frobenius(nr, nr, i, 0);
    P::BaseField::lemma_frobenius(b.c0, b.c0, i, 0);
    P::BaseField::lemma_frobenius(b.c1, b.c1, i, 0);
    P::BaseField::lemma_frobenius(b.c2, b.c2, i, 0);
    // sums of products
    P::BaseField::lemma_frobenius(a.c1.mul_spec(b.c2), a.c2.mul_spec(b.c1), i, 0);
    P::BaseField::lemma_frobenius(a.c0.mul_spec(b.c1), a.c1.mul_spec(b.c0), i, 0);
    P::BaseField::lemma_frobenius(a.c0.mul_spec(b.c2), a.c1.mul_spec(b.c1), i, 0);
    // times the non-residue
    P::BaseField::lemma_frobenius(a.c1.mul_spec(b.c2).add_spec(a.c2.mul_spec(b.c1)), nr, i, 0);
    P::BaseField::lemma_frobenius(a.c2.mul_spec(b.c2), nr, i, 0);
    // the outer sums
    P::BaseField::lemma_frobenius(
        a.c0.mul_spec(b.c0),
        a.c1.mul_spec(b.c2).add_spec(a.c2.mul_spec(b.c1)).mul_spec(nr),
        i,
        0,
    );
    P::BaseField::lemma_frobenius(
        a.c0.mul_spec(b.c1).add_spec(a.c1.mul_spec(b.c0)),
        a.c2.mul_spec(b.c2).mul_spec(nr),
        i,
        0,
    );
    P::BaseField::lemma_frobenius(
        a.c0.mul_spec(b.c2).add_spec(a.c1.mul_spec(b.c1)),
        a.c2.mul_spec(b.c0),
        i,
        0,
    );
}

/// Multiplying each coordinate by a prime field element is multiplying by
/// its image.
pub proof fn lemma_mul_by_prime<P: CubicExtConfig>(
    a: CubicExtField<P>,
    e: <P::BaseField as Field>::BasePrimeField,
)
    requires
        a.wf(),
        P::BaseField::prime_wf(e),
    ensures
        CubicExtField::<P>::from_prime_spec(e).wf(),
        a.mul_by_prime_spec(e) == a.mul_spec(CubicExtField::<P>::from_prime_spec(e)),
{
    let f = P::BaseField::from_prime_spec(e);
    let z = P::BaseField::zero_spec();
    P::lemma_constants_wf(0);
    P::BaseField::lemma_prime(a.c0, e);
    P::BaseField::lemma_prime(a.c1, e);
    P::BaseField::lemma_prime(a.c2, e);
    lemma_expansion_rules::<P::BaseField>();
    lemma_lin_rules((a.c0.mul_spec(f), a.c1.mul_spec(f), a.c2.mul_spec(f), z, z, z));
}

/// Only equal elements compare as equal.
pub proof fn lemma_compare<P: CubicExtConfig>(a: CubicExtField<P>, b: CubicExtField<P>)
    requires
        a.wf(),
        b.wf(),
    ensures
        (a.compare_spec(b) == Comparison::Equal) <==> a == b,
{
    P::BaseField::lemma_compare(a.c0, b.c0);
    P::BaseField::lemma_compare(a.c1, b.c1);
    P::BaseField::lemma_compare(a.c2, b.c2);
}

/// Decoding reads no further than the length of an encoding, gives valid
/// values, and fails on more than eight bits of flags.
pub proof fn lemma_decoding<P: CubicExtConfig>(bytes: Seq<u8>, flag_bits: u8)
    ensures
        flag_bits > 8 ==> CubicExtField::<P>::decoding_spec(bytes, flag_bits) is Err,
        bytes.len() >= CubicExtField::<P>::encoded_len_spec(flag_bits)
            ==> CubicExtField::<P>::decoding_spec(bytes, flag_bits)
            == CubicExtField::<P>::decoding_spec(
            bytes.take(CubicExtField::<P>::encoded_len_spec(flag_bits) as int),
            flag_bits,
        ),
        CubicExtField::<P>::decoding_spec(bytes, flag_bits) is Ok ==> {
            let (a, flags) = CubicExtField::<P>::decoding_spec(bytes, flag_bits).unwrap();
            a.wf() && flags.wf() && flags.bit_size == flag_bits && bytes.len()
                >= CubicExtField::<P>::encoded_len_spec(flag_bits)
        },
{
    let n = P::BaseField::encoded_len_spec(0) as int;
    let total = CubicExtField::<P>::encoded_len_spec(flag_bits) as int;
    P::BaseField::lemma_decoding(bytes, 0);
    P::BaseField::lemma_decoding(bytes.skip(n), 0);
    P::BaseField::lemma_decoding(bytes.skip(2 * n), flag_bits);
    if bytes.len() >= total {
        let front = bytes.take(total);
        P::BaseField::lemma_decoding(front, 0);
        P::BaseField::lemma_decoding(front.skip(n), 0);
        P::BaseField::lemma_decoding(front.skip(2 * n), flag_bits);
        assert(front.take(n) =~= bytes.take(n));
        assert(front.skip(n).take(n) =~= bytes.skip(n).take(n));
        assert(front.skip(2 * n) =~= bytes.skip(2 * n).take(
            P::BaseField::encoded_len_spec(flag_bits) as int,
        ));
    }
}

/// Decoding fails with the error of the first of `c0`, `c1`, `c2` that does
/// not decode, whatever the number of flag bits, and succeeds where all
/// three do.
pub proof fn lemma_decoding_fails_in_order<P: CubicExtConfig>(bytes: Seq<u8>, flag_bits: u8)
    ensures
        ({
            let n = P::BaseField::encoded_len_spec(0) as int;
            let first = P::BaseField::decoding_spec(bytes, 0);
            let second = P::BaseField::decoding_spec(bytes.skip(n), 0);
            let third = P::BaseField::decoding_spec(bytes.skip(2 * n), flag_bits);
            let all = CubicExtField::<P>::decoding_spec(bytes, flag_bits);
            &&& first matches Err(e) ==> all == Err::<(CubicExtField<P>, Flags), _>(e)
            &&& first is Ok ==> (second matches Err(e) ==> all == Err::<
                (CubicExtField<P>, Flags),
                _,
            >(e))
            &&& first is Ok && second is Ok ==> (third matches Err(e) ==> all == Err::<
                (CubicExtField<P>, Flags),
                _,
            >(e))
            &&& all is Ok <==> first is Ok && second is Ok && third is Ok
        }),
{
}

/// Coordinates that stand for an element are as many as the degree says,
/// and the element is valid where they are.
pub proof fn lemma_from_coordinates<P: CubicExtConfig>(
    elems: Seq<<P::BaseField as Field>::BasePrimeField>,
)
    ensures
        CubicExtField::<P>::from_elems_spec(elems) is Some ==> elems.len()
            == CubicExtField::<P>::degree_spec() && CubicExtField::<P>::from_elems_spec(
            elems,
        ).unwrap().wf(),
{
    let d = P::BaseField::degree_spec() as int;
    if elems.len() == 3 * d {
        P::BaseField::lemma_from_elems(elems.subrange(0, d));
        P::BaseField::lemma_from_elems(elems.subrange(d, 2 * d));
        P::BaseField::lemma_from_elems(elems.subrange(2 * d, 3 * d));
    }
}

/// A parameter set whose coefficient tables are proved coherent, and whose
/// encodings are proved to have a length that the machine can count.
pub trait TowerConfig: CubicExtConfig {
    proof fn lemma_coherent()
        ensures
            frobenius_coherent::<Self>(),
            forall|flag_bits: u8| #[trigger]
                CubicExtField::<Self>::encoded_len_spec(flag_bits) <= usize::MAX,
    ;
}

} // verus!
