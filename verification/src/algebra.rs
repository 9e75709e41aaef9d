//! Identities that hold in every commutative ring, and normal forms of sums
//! and products by which longer identities are proved.

use crate::field::Field;
use vstd::prelude::*;

verus! {

/// `a - b`, written out as a sum.
pub open spec fn minus<F: Field>(a: F, b: F) -> F {
    a.add_spec(b.neg_spec())
}

/// Sums, products and negations of valid elements are valid.
pub proof fn lemma_ring_closure<F: Field>()
    ensures
        F::zero_spec().wf(),
        F::one_spec().wf(),
        forall|a: F, b: F| a.wf() && b.wf() ==> (#[trigger] a.add_spec(b)).wf(),
        forall|a: F, b: F| a.wf() && b.wf() ==> (#[trigger] a.mul_spec(b)).wf(),
        forall|a: F| a.wf() ==> (#[trigger] a.neg_spec()).wf(),
{
    F::lemma_constants();
    assert forall|a: F, b: F| a.wf() && b.wf() implies (#[trigger] a.add_spec(b)).wf() by {
        F::lemma_closed(a, b);
    }
    assert forall|a: F, b: F| a.wf() && b.wf() implies (#[trigger] a.mul_spec(b)).wf() by {
        F::lemma_closed(a, b);
    }
    assert forall|a: F| a.wf() implies (#[trigger] a.neg_spec()).wf() by {
        F::lemma_closed(a, a);
    }
}

/// `(a + -x) + x == a` and `(a + x) + -x == a`.
pub proof fn lemma_add_neg_cancels<F: Field>(a: F, x: F)
    requires
        a.wf(),
        x.wf(),
    ensures
        a.add_spec(x.neg_spec()).add_spec(x) == a,
        a.add_spec(x).add_spec(x.neg_spec()) == a,
{
    lemma_ring_closure::<F>();
    F::lemma_add_associates(a, x.neg_spec(), x);
    F::lemma_add_commutes(x.neg_spec(), x);
    F::lemma_add_associates(a, x, x.neg_spec());
    F::lemma_add_neg(x);
    F::lemma_add_zero(a);
}

/// `0 + a == a`.
pub proof fn lemma_zero_add<F: Field>(a: F)
    requires
        a.wf(),
    ensures
        F::zero_spec().add_spec(a) == a,
{
    F::lemma_constants();
    F::lemma_add_commutes(F::zero_spec(), a);
    F::lemma_add_zero(a);
}

/// `1 * a == a`.
pub proof fn lemma_one_mul<F: Field>(a: F)
    requires
        a.wf(),
    ensures
        F::one_spec().mul_spec(a) == a,
{
    F::lemma_constants();
    F::lemma_mul_commutes(F::one_spec(), a);
    F::lemma_mul_one(a);
}

/// `(a + b) + (c + d) == (a + c) + (b + d)`.
pub proof fn lemma_add_interchange<F: Field>(a: F, b: F, c: F, d: F)
    requires
        a.wf(),
        b.wf(),
        c.wf(),
        d.wf(),
    ensures
        a.add_spec(b).add_spec(c.add_spec(d)) == a.add_spec(c).add_spec(b.add_spec(d)),
{
    lemma_ring_closure::<F>();
    F::lemma_add_associates(a, b, c.add_spec(d));
    F::lemma_add_associates(b, c, d);
    F::lemma_add_commutes(b, c);
    F::lemma_add_associates(c, b, d);
    F::lemma_add_associates(a, c, b.add_spec(d));
}

/// `(a * b) * (c * d) == (a * c) * (b * d)`.
pub proof fn lemma_mul_interchange<F: Field>(a: F, b: F, c: F, d: F)
    requires
        a.wf(),
        b.wf(),
        c.wf(),
        d.wf(),
    ensures
        a.mul_spec(b).mul_spec(c.mul_spec(d)) == a.mul_spec(c).mul_spec(b.mul_spec(d)),
{
    lemma_ring_closure::<F>();
    F::lemma_mul_associates(a, b, c.mul_spec(d));
    F::lemma_mul_associates(b, c, d);
    F::lemma_mul_commutes(b, c);
    F::lemma_mul_associates(c, b, d);
    F::lemma_mul_associates(a, c, b.mul_spec(d));
}

/// If `a + b` is zero then `b` is the negation of `a`.
pub proof fn lemma_neg_unique<F: Field>(a: F, b: F)
    requires
        a.wf(),
        b.wf(),
        a.add_spec(b) == F::zero_spec(),
    ensures
        b == a.neg_spec(),
{
    lemma_ring_closure::<F>();
    lemma_zero_add(b);
    F::lemma_add_neg(a);
    F::lemma_add_commutes(a, a.neg_spec());
    F::lemma_add_associates(a.neg_spec(), a, b);
    F::lemma_add_zero(a.neg_spec());
}

/// `(a + b) * c == a * c + b * c`.
pub proof fn lemma_mul_distributes_right<F: Field>(a: F, b: F, c: F)
    requires
        a.wf(),
        b.wf(),
        c.wf(),
    ensures
        a.add_spec(b).mul_spec(c) == a.mul_spec(c).add_spec(b.mul_spec(c)),
{
    lemma_ring_closure::<F>();
    F::lemma_mul_commutes(a.add_spec(b), c);
    F::lemma_mul_distributes(c, a, b);
    F::lemma_mul_commutes(c, a);
    F::lemma_mul_commutes(c, b);
}

/// `a * 0 == 0` and `0 * a == 0`.
pub proof fn lemma_mul_zero<F: Field>(a: F)
    requires
        a.wf(),
    ensures
        a.mul_spec(F::zero_spec()) == F::zero_spec(),
        F::zero_spec().mul_spec(a) == F::zero_spec(),
{
    lemma_ring_closure::<F>();
    let z = F::zero_spec();
    let p = a.mul_spec(z);
    F::lemma_add_zero(z);
    F::lemma_mul_distributes(a, z, z);
    // p + p == p, so p == (p + p) + -p == p + -p == 0
    lemma_add_neg_cancels(p, p);
    F::lemma_add_neg(p);
    F::lemma_mul_commutes(a, z);
}

/// `a * -b == -(a * b)` and `-a * b == -(a * b)`.
pub proof fn lemma_mul_neg<F: Field>(a: F, b: F)
    requires
        a.wf(),
        b.wf(),
    ensures
        a.mul_spec(b.neg_spec()) == a.mul_spec(b).neg_spec(),
        a.neg_spec().mul_spec(b) == a.mul_spec(b).neg_spec(),
{
    lemma_ring_closure::<F>();
    F::lemma_mul_distributes(a, b, b.neg_spec());
    F::lemma_add_neg(b);
    lemma_mul_zero(a);
    lemma_neg_unique(a.mul_spec(b), a.mul_spec(b.neg_spec()));
    F::lemma_mul_distributes(b, a, a.neg_spec());
    F::lemma_add_neg(a);
    lemma_mul_zero(b);
    F::lemma_mul_commutes(b, a);
    F::lemma_mul_commutes(b, a.neg_spec());
    lemma_neg_unique(a.mul_spec(b), a.neg_spec().mul_spec(b));
}

/// The rules that multiply out a product of sums: products spread over
/// sums and negations from either side, and vanish against zero.
pub proof fn lemma_expansion_rules<F: Field>()
    ensures
        F::zero_spec().wf(),
        F::one_spec().wf(),
        forall|a: F, b: F| a.wf() && b.wf() ==> (#[trigger] a.add_spec(b)).wf(),
        forall|a: F, b: F| a.wf() && b.wf() ==> (#[trigger] a.mul_spec(b)).wf(),
        forall|a: F| a.wf() ==> (#[trigger] a.neg_spec()).wf(),
        forall|a: F, b: F, c: F|
            a.wf() && b.wf() && c.wf() ==> #[trigger] a.mul_spec(b.add_spec(c)) == a.mul_spec(
                b,
            ).add_spec(a.mul_spec(c)),
        forall|a: F, b: F, c: F|
            a.wf() && b.wf() && c.wf() ==> #[trigger] a.add_spec(b).mul_spec(c) == a.mul_spec(
                c,
            ).add_spec(b.mul_spec(c)),
        forall|a: F, b: F|
            a.wf() && b.wf() ==> #[trigger] a.mul_spec(b.neg_spec()) == a.mul_spec(b).neg_spec(),
        forall|a: F, b: F|
            a.wf() && b.wf() ==> #[trigger] a.neg_spec().mul_spec(b) == a.mul_spec(b).neg_spec(),
        forall|a: F| a.wf() ==> #[trigger] a.mul_spec(F::zero_spec()) == F::zero_spec(),
        forall|a: F| a.wf() ==> #[trigger] F::zero_spec().mul_spec(a) == F::zero_spec(),
{
    lemma_ring_closure::<F>();
    assert forall|a: F, b: F, c: F| a.wf() && b.wf() && c.wf() implies #[trigger] a.mul_spec(
        b.add_spec(c),
    ) == a.mul_spec(b).add_spec(a.mul_spec(c)) by {
        F::lemma_mul_distributes(a, b, c);
    }
    assert forall|a: F, b: F, c: F| a.wf() && b.wf() && c.wf() implies #[trigger] a.add_spec(
        b,
    ).mul_spec(c) == a.mul_spec(c).add_spec(b.mul_spec(c)) by {
        lemma_mul_distributes_right(a, b, c);
    }
    assert forall|a: F, b: F| a.wf() && b.wf() implies #[trigger] a.mul_spec(b.neg_spec())
        == a.mul_spec(b).neg_spec() by {
        lemma_mul_neg(a, b);
    }
    assert forall|a: F, b: F| a.wf() && b.wf() implies #[trigger] a.neg_spec().mul_spec(b)
        == a.mul_spec(b).neg_spec() by {
        lemma_mul_neg(a, b);
    }
    assert forall|a: F| a.wf() implies #[trigger] a.mul_spec(F::zero_spec()) == F::zero_spec() by {
        lemma_mul_zero(a);
    }
    assert forall|a: F| a.wf() implies #[trigger] F::zero_spec().mul_spec(a) == F::zero_spec() by {
        lemma_mul_zero(a);
    }
}

/// `n` copies of `x` added up; a negative `n` counts copies of `-x`.
pub open spec fn scale<F: Field>(n: int, x: F) -> F
    decreases
            (if n >= 0 {
                n
            } else {
                -n
            }),
{
    if n == 0 {
        F::zero_spec()
    } else if n > 0 {
        scale(n - 1, x).add_spec(x)
    } else {
        scale(n + 1, x).add_spec(x.neg_spec())
    }
}

/// A multiple of a valid element is valid.
pub proof fn lemma_scale_wf<F: Field>(n: int, x: F)
    requires
        x.wf(),
    ensures
        scale(n, x).wf(),
    decreases
            (if n >= 0 {
                n
            } else {
                -n
            }),
{
    lemma_ring_closure::<F>();
    if n > 0 {
        lemma_scale_wf(n - 1, x);
    } else if n < 0 {
        lemma_scale_wf(n + 1, x);
    }
}

/// One more copy adds `x`, one fewer adds `-x`, whatever the sign of `n`.
pub proof fn lemma_scale_step<F: Field>(n: int, x: F)
    requires
        x.wf(),
    ensures
        scale(n + 1, x) == scale(n, x).add_spec(x),
        scale(n - 1, x) == scale(n, x).add_spec(x.neg_spec()),
{
    lemma_ring_closure::<F>();
    lemma_scale_wf(n, x);
    lemma_scale_wf(n + 1, x);
    lemma_scale_wf(n - 1, x);
    if n < 0 {
        lemma_add_neg_cancels(scale(n + 1, x), x);
    }
    if n > 0 {
        lemma_add_neg_cancels(scale(n - 1, x), x);
    }
}

/// `(n + m) x == n x + m x`.
pub proof fn lemma_scale_add<F: Field>(n: int, m: int, x: F)
    requires
        x.wf(),
    ensures
        scale(n + m, x) == scale(n, x).add_spec(scale(m, x)),
    decreases
            (if m >= 0 {
                m
            } else {
                -m
            }),
{
    lemma_ring_closure::<F>();
    lemma_scale_wf(n, x);
    if m == 0 {
        F::lemma_add_zero(scale(n, x));
    } else if m > 0 {
        lemma_scale_add(n, m - 1, x);
        lemma_scale_step(n + m - 1, x);
        lemma_scale_wf(m - 1, x);
        F::lemma_add_associates(scale(n, x), scale(m - 1, x), x);
    } else {
        lemma_scale_add(n, m + 1, x);
        lemma_scale_step(n + m + 1, x);
        lemma_scale_wf(m + 1, x);
        F::lemma_add_associates(scale(n, x), scale(m + 1, x), x.neg_spec());
    }
}

/// The atoms of a sum of up to six kinds of terms.
pub type Atoms<F> = (F, F, F, F, F, F);

/// The coefficients of six atoms.
pub type Coefficients = (int, int, int, int, int, int);

/// An integer combination of six atoms: the normal form of a sum.
#[verifier::opaque]
pub open spec fn lin<F: Field>(x: Atoms<F>, n: Coefficients) -> F {
    scale(n.0, x.0)
        .add_spec(scale(n.1, x.1))
        .add_spec(scale(n.2, x.2))
        .add_spec(scale(n.3, x.3))
        .add_spec(scale(n.4, x.4))
        .add_spec(scale(n.5, x.5))
}

/// Whether the six atoms are valid elements.
pub open spec fn atoms_wf<F: Field>(x: Atoms<F>) -> bool {
    &&& x.0.wf()
    &&& x.1.wf()
    &&& x.2.wf()
    &&& x.3.wf()
    &&& x.4.wf()
    &&& x.5.wf()
}

/// A combination of valid atoms is valid.
pub proof fn lemma_lin_wf<F: Field>(x: Atoms<F>, n: Coefficients)
    requires
        atoms_wf(x),
    ensures
        lin(x, n).wf(),
{
    reveal(lin);
    lemma_ring_closure::<F>();
    lemma_scale_wf(n.0, x.0);
    lemma_scale_wf(n.1, x.1);
    lemma_scale_wf(n.2, x.2);
    lemma_scale_wf(n.3, x.3);
    lemma_scale_wf(n.4, x.4);
    lemma_scale_wf(n.5, x.5);
}

/// Combinations over the same atoms add up coefficient by coefficient.
pub proof fn lemma_lin_add<F: Field>(x: Atoms<F>, n: Coefficients, m: Coefficients)
    requires
        atoms_wf(x),
    ensures
        lin(x, n).add_spec(lin(x, m)) == lin(
            x,
            (n.0 + m.0, n.1 + m.1, n.2 + m.2, n.3 + m.3, n.4 + m.4, n.5 + m.5),
        ),
{
    reveal(lin);
    lemma_ring_closure::<F>();
    let s0 = scale(n.0, x.0);
    let s1 = scale(n.1, x.1);
    let s2 = scale(n.2, x.2);
    let s3 = scale(n.3, x.3);
    let s4 = scale(n.4, x.4);
    let s5 = scale(n.5, x.5);
    let t0 = scale(m.0, x.0);
    let t1 = scale(m.1, x.1);
    let t2 = scale(m.2, x.2);
    let t3 = scale(m.3, x.3);
    let t4 = scale(m.4, x.4);
    let t5 = scale(m.5, x.5);
    lemma_scale_wf(n.0, x.0);
    lemma_scale_wf(n.1, x.1);
    lemma_scale_wf(n.2, x.2);
    lemma_scale_wf(n.3, x.3);
    lemma_scale_wf(n.4, x.4);
    lemma_scale_wf(n.5, x.5);
    lemma_scale_wf(m.0, x.0);
    lemma_scale_wf(m.1, x.1);
    lemma_scale_wf(m.2, x.2);
    lemma_scale_wf(m.3, x.3);
    lemma_scale_wf(m.4, x.4);
    lemma_scale_wf(m.5, x.5);
    lemma_scale_add(n.0, m.0, x.0);
    lemma_scale_add(n.1, m.1, x.1);
    lemma_scale_add(n.2, m.2, x.2);
    lemma_scale_add(n.3, m.3, x.3);
    lemma_scale_add(n.4, m.4, x.4);
    lemma_scale_add(n.5, m.5, x.5);
    let a1 = s0.add_spec(s1);
    let b1 = t0.add_spec(t1);
    lemma_add_interchange(s0, s1, t0, t1);
    lemma_add_interchange(a1, s2, b1, t2);
    let a2 = a1.add_spec(s2);
    let b2 = b1.add_spec(t2);
    lemma_add_interchange(a2, s3, b2, t3);
    let a3 = a2.add_spec(s3);
    let b3 = b2.add_spec(t3);
    lemma_add_interchange(a3, s4, b3, t4);
    let a4 = a3.add_spec(s4);
    let b4 = b3.add_spec(t4);
    lemma_add_interchange(a4, s5, b4, t5);
}

/// The combination with all coefficients zero is zero.
pub proof fn lemma_lin_zero<F: Field>(x: Atoms<F>)
    requires
        atoms_wf(x),
    ensures
        lin(x, (0, 0, 0, 0, 0, 0)) == F::zero_spec(),
{
    reveal(lin);
    F::lemma_constants();
    F::lemma_add_zero(F::zero_spec());
}

/// The negation of a combination has the negated coefficients.
pub proof fn lemma_lin_neg<F: Field>(x: Atoms<F>, n: Coefficients)
    requires
        atoms_wf(x),
    ensures
        lin(x, n).neg_spec() == lin(
            x,
            (-n.0, -n.1, -n.2, -n.3, -n.4, -n.5),
        ),
{
    let m = (-n.0, -n.1, -n.2, -n.3, -n.4, -n.5);
    lemma_lin_wf(x, n);
    lemma_lin_wf(x, m);
    lemma_lin_add(x, n, m);
    lemma_lin_zero(x);
    lemma_neg_unique(lin(x, n), lin(x, m));
}

/// Each atom is the combination with the coefficient one at its place.
pub proof fn lemma_lin_atoms<F: Field>(x: Atoms<F>)
    requires
        atoms_wf(x),
    ensures
        x.0 == lin(x, (1, 0, 0, 0, 0, 0)),
        x.1 == lin(x, (0, 1, 0, 0, 0, 0)),
        x.2 == lin(x, (0, 0, 1, 0, 0, 0)),
        x.3 == lin(x, (0, 0, 0, 1, 0, 0)),
        x.4 == lin(x, (0, 0, 0, 0, 1, 0)),
        x.5 == lin(x, (0, 0, 0, 0, 0, 1)),
{
    reveal(lin);
    let z = F::zero_spec();
    F::lemma_constants();
    F::lemma_add_zero(z);
    lemma_scale_step(0, x.0);
    lemma_scale_step(0, x.1);
    lemma_scale_step(0, x.2);
    lemma_scale_step(0, x.3);
    lemma_scale_step(0, x.4);
    lemma_scale_step(0, x.5);
    lemma_zero_add(x.0);
    lemma_zero_add(x.1);
    lemma_zero_add(x.2);
    lemma_zero_add(x.3);
    lemma_zero_add(x.4);
    lemma_zero_add(x.5);
    F::lemma_add_zero(x.0);
    F::lemma_add_zero(x.1);
    F::lemma_add_zero(x.2);
    F::lemma_add_zero(x.3);
    F::lemma_add_zero(x.4);
    F::lemma_add_zero(x.5);
}

/// A combination of one atom is a multiple of it.
pub proof fn lemma_lin_single<F: Field>(x: F, n: int)
    requires
        x.wf(),
    ensures
        lin(
            (x, F::zero_spec(), F::zero_spec(), F::zero_spec(), F::zero_spec(), F::zero_spec()),
            (n, 0, 0, 0, 0, 0),
        ) == scale(n, x),
{
    reveal(lin);
    lemma_scale_wf(n, x);
    F::lemma_add_zero(scale(n, x));
}

/// The rules that bring a sum of the atoms `x` to its normal form: each
/// atom and zero is a combination, and so are sums and negations of
/// combinations.
pub proof fn lemma_lin_rules<F: Field>(x: Atoms<F>)
    requires
        atoms_wf(x),
    ensures
        x.0 == lin(x, (1, 0, 0, 0, 0, 0)),
        x.1 == lin(x, (0, 1, 0, 0, 0, 0)),
        x.2 == lin(x, (0, 0, 1, 0, 0, 0)),
        x.3 == lin(x, (0, 0, 0, 1, 0, 0)),
        x.4 == lin(x, (0, 0, 0, 0, 1, 0)),
        x.5 == lin(x, (0, 0, 0, 0, 0, 1)),
        F::zero_spec() == lin(x, (0, 0, 0, 0, 0, 0)),
        forall|n: Coefficients, m: Coefficients| #[trigger]
            lin(x, n).add_spec(lin(x, m)) == lin(
                x,
                (n.0 + m.0, n.1 + m.1, n.2 + m.2, n.3 + m.3, n.4 + m.4, n.5 + m.5),
            ),
        forall|n: Coefficients| #[trigger]
            lin(x, n).neg_spec() == lin(
                x,
                (-n.0, -n.1, -n.2, -n.3, -n.4, -n.5),
            ),
{
    lemma_lin_atoms(x);
    lemma_lin_zero(x);
    assert forall|n: Coefficients, m: Coefficients| #[trigger]
        lin(x, n).add_spec(lin(x, m)) == lin(
            x,
            (n.0 + m.0, n.1 + m.1, n.2 + m.2, n.3 + m.3, n.4 + m.4, n.5 + m.5),
        ) by {
        lemma_lin_add(x, n, m);
    }
    assert forall|n: Coefficients| #[trigger]
        lin(x, n).neg_spec() == lin(
            x,
            (-n.0, -n.1, -n.2, -n.3, -n.4, -n.5),
        ) by {
        lemma_lin_neg(x, n);
    }
}

/// `x` multiplied by itself `e` times; one where `e` is not positive.
pub open spec fn pow<F: Field>(x: F, e: int) -> F
    decreases e,
{
    if e <= 0 {
        F::one_spec()
    } else {
        pow(x, e - 1).mul_spec(x)
    }
}

/// A power of a valid element is valid.
pub proof fn lemma_pow_wf<F: Field>(x: F, e: int)
    requires
        x.wf(),
    ensures
        pow(x, e).wf(),
    decreases e,
{
    lemma_ring_closure::<F>();
    if e > 0 {
        lemma_pow_wf(x, e - 1);
    }
}

/// `x^(e + f) == x^e * x^f`.
pub proof fn lemma_pow_add<F: Field>(x: F, e: int, f: int)
    requires
        x.wf(),
        e >= 0,
        f >= 0,
    ensures
        pow(x, e + f) == pow(x, e).mul_spec(pow(x, f)),
    decreases f,
{
    lemma_ring_closure::<F>();
    lemma_pow_wf(x, e);
    if f == 0 {
        F::lemma_mul_one(pow(x, e));
    } else {
        lemma_pow_add(x, e, f - 1);
        lemma_pow_wf(x, f - 1);
        F::lemma_mul_associates(pow(x, e), pow(x, f - 1), x);
    }
}

/// The variables of a product of powers of up to five of them.
pub type Variables<F> = (F, F, F, F, F);

/// The exponents of five variables.
pub type Exponents = (int, int, int, int, int);

/// A product of powers of five variables: the normal form of a product.
#[verifier::opaque]
pub open spec fn mono<F: Field>(v: Variables<F>, e: Exponents) -> F {
    pow(v.0, e.0)
        .mul_spec(pow(v.1, e.1))
        .mul_spec(pow(v.2, e.2))
        .mul_spec(pow(v.3, e.3))
        .mul_spec(pow(v.4, e.4))
}

/// Whether the five variables are valid elements.
pub open spec fn vars_wf<F: Field>(v: Variables<F>) -> bool {
    &&& v.0.wf()
    &&& v.1.wf()
    &&& v.2.wf()
    &&& v.3.wf()
    &&& v.4.wf()
}

/// Whether no exponent is negative.
pub open spec fn exps_ok(e: Exponents) -> bool {
    &&& e.0 >= 0
    &&& e.1 >= 0
    &&& e.2 >= 0
    &&& e.3 >= 0
    &&& e.4 >= 0
}

/// A product of powers of valid variables is valid.
pub proof fn lemma_mono_wf<F: Field>(v: Variables<F>, e: Exponents)
    requires
        vars_wf(v),
    ensures
        mono(v, e).wf(),
{
    reveal(mono);
    lemma_ring_closure::<F>();
    lemma_pow_wf(v.0, e.0);
    lemma_pow_wf(v.1, e.1);
    lemma_pow_wf(v.2, e.2);
    lemma_pow_wf(v.3, e.3);
    lemma_pow_wf(v.4, e.4);
}

/// Products over the same variables multiply exponent by exponent.
pub proof fn lemma_mono_mul<F: Field>(v: Variables<F>, e: Exponents, f: Exponents)
    requires
        vars_wf(v),
        exps_ok(e),
        exps_ok(f),
    ensures
        mono(v, e).mul_spec(mono(v, f)) == mono(
            v,
            (e.0 + f.0, e.1 + f.1, e.2 + f.2, e.3 + f.3, e.4 + f.4),
        ),
{
    reveal(mono);
    lemma_ring_closure::<F>();
    let s0 = pow(v.0, e.0);
    let s1 = pow(v.1, e.1);
    let s2 = pow(v.2, e.2);
    let s3 = pow(v.3, e.3);
    let s4 = pow(v.4, e.4);
    let t0 = pow(v.0, f.0);
    let t1 = pow(v.1, f.1);
    let t2 = pow(v.2, f.2);
    let t3 = pow(v.3, f.3);
    let t4 = pow(v.4, f.4);
    lemma_pow_wf(v.0, e.0);
    lemma_pow_wf(v.1, e.1);
    lemma_pow_wf(v.2, e.2);
    lemma_pow_wf(v.3, e.3);
    lemma_pow_wf(v.4, e.4);
    lemma_pow_wf(v.0, f.0);
    lemma_pow_wf(v.1, f.1);
    lemma_pow_wf(v.2, f.2);
    lemma_pow_wf(v.3, f.3);
    lemma_pow_wf(v.4, f.4);
    lemma_pow_add(v.0, e.0, f.0);
    lemma_pow_add(v.1, e.1, f.1);
    lemma_pow_add(v.2, e.2, f.2);
    lemma_pow_add(v.3, e.3, f.3);
    lemma_pow_add(v.4, e.4, f.4);
    let a1 = s0.mul_spec(s1);
    let b1 = t0.mul_spec(t1);
    lemma_mul_interchange(s0, s1, t0, t1);
    lemma_mul_interchange(a1, s2, b1, t2);
    let a2 = a1.mul_spec(s2);
    let b2 = b1.mul_spec(t2);
    lemma_mul_interchange(a2, s3, b2, t3);
    let a3 = a2.mul_spec(s3);
    let b3 = b2.mul_spec(t3);
    lemma_mul_interchange(a3, s4, b3, t4);
}

/// Each variable is the product with the exponent one at its place, and one
/// is the product with all exponents zero.
pub proof fn lemma_mono_vars<F: Field>(v: Variables<F>)
    requires
        vars_wf(v),
    ensures
        v.0 == mono(v, (1, 0, 0, 0, 0)),
        v.1 == mono(v, (0, 1, 0, 0, 0)),
        v.2 == mono(v, (0, 0, 1, 0, 0)),
        v.3 == mono(v, (0, 0, 0, 1, 0)),
        v.4 == mono(v, (0, 0, 0, 0, 1)),
        F::one_spec() == mono(v, (0, 0, 0, 0, 0)),
{
    reveal(mono);
    let u = F::one_spec();
    F::lemma_constants();
    F::lemma_mul_one(u);
    assert(pow(v.0, 1) == pow(v.0, 0).mul_spec(v.0));
    assert(pow(v.1, 1) == pow(v.1, 0).mul_spec(v.1));
    assert(pow(v.2, 1) == pow(v.2, 0).mul_spec(v.2));
    assert(pow(v.3, 1) == pow(v.3, 0).mul_spec(v.3));
    assert(pow(v.4, 1) == pow(v.4, 0).mul_spec(v.4));
    lemma_one_mul(v.0);
    lemma_one_mul(v.1);
    lemma_one_mul(v.2);
    lemma_one_mul(v.3);
    lemma_one_mul(v.4);
    F::lemma_mul_one(v.0);
    F::lemma_mul_one(v.1);
    F::lemma_mul_one(v.2);
    F::lemma_mul_one(v.3);
    F::lemma_mul_one(v.4);
}

/// The rules that bring a product of the variables `v` to its normal form:
/// each variable and one is a product of powers, and so are products of
/// such products.
pub proof fn lemma_mono_rules<F: Field>(v: Variables<F>)
    requires
        vars_wf(v),
    ensures
        v.0 == mono(v, (1, 0, 0, 0, 0)),
        v.1 == mono(v, (0, 1, 0, 0, 0)),
        v.2 == mono(v, (0, 0, 1, 0, 0)),
        v.3 == mono(v, (0, 0, 0, 1, 0)),
        v.4 == mono(v, (0, 0, 0, 0, 1)),
        F::one_spec() == mono(v, (0, 0, 0, 0, 0)),
        forall|e: Exponents| (#[trigger] mono(v, e)).wf(),
        forall|e: Exponents, f: Exponents|
            exps_ok(e) && exps_ok(f) ==> #[trigger] mono(v, e).mul_spec(mono(v, f))
                == mono(
                    v,
                    (e.0 + f.0, e.1 + f.1, e.2 + f.2, e.3 + f.3, e.4 + f.4),
                ),
{
    lemma_mono_vars(v);
    assert forall|e: Exponents| (#[trigger] mono(v, e)).wf() by {
        lemma_mono_wf(v, e);
    }
    assert forall|e: Exponents, f: Exponents| exps_ok(e) && exps_ok(f) implies #[trigger] mono(
        v,
        e,
    ).mul_spec(mono(v, f)) == mono(
        v,
        (e.0 + f.0, e.1 + f.1, e.2 + f.2, e.3 + f.3, e.4 + f.4),
    ) by {
        lemma_mono_mul(v, e, f);
    }
}

/// The atoms of a sum of up to nine kinds of terms.
pub type Atoms9<F> = (F, F, F, F, F, F, F, F, F);

/// The coefficients of nine atoms.
pub type Coefficients9 = (int, int, int, int, int, int, int, int, int);

/// An integer combination of nine atoms: the normal form of a sum.
#[verifier::opaque]
pub open spec fn lin9<F: Field>(x: Atoms9<F>, n: Coefficients9) -> F {
    scale(n.0, x.0)
        .add_spec(scale(n.1, x.1))
        .add_spec(scale(n.2, x.2))
        .add_spec(scale(n.3, x.3))
        .add_spec(scale(n.4, x.4))
        .add_spec(scale(n.5, x.5))
        .add_spec(scale(n.6, x.6))
        .add_spec(scale(n.7, x.7))
        .add_spec(scale(n.8, x.8))
}

/// Whether the nine atoms are valid elements.
pub open spec fn lin9_atoms_wf<F: Field>(x: Atoms9<F>) -> bool {
    &&& x.0.wf()
    &&& x.1.wf()
    &&& x.2.wf()
    &&& x.3.wf()
    &&& x.4.wf()
    &&& x.5.wf()
    &&& x.6.wf()
    &&& x.7.wf()
    &&& x.8.wf()
}

/// A combination of valid atoms is valid.
pub proof fn lemma_lin9_wf<F: Field>(x: Atoms9<F>, n: Coefficients9)
    requires
        lin9_atoms_wf(x),
    ensures
        lin9(x, n).wf(),
{
    reveal(lin9);
    lemma_ring_closure::<F>();
    lemma_scale_wf(n.0, x.0);
    lemma_scale_wf(n.1, x.1);
    lemma_scale_wf(n.2, x.2);
    lemma_scale_wf(n.3, x.3);
    lemma_scale_wf(n.4, x.4);
    lemma_scale_wf(n.5, x.5);
    lemma_scale_wf(n.6, x.6);
    lemma_scale_wf(n.7, x.7);
    lemma_scale_wf(n.8, x.8);
}

/// Combinations over the same atoms add up coefficient by coefficient.
pub proof fn lemma_lin9_add<F: Field>(x: Atoms9<F>, n: Coefficients9, m: Coefficients9)
    requires
        lin9_atoms_wf(x),
    ensures
        lin9(x, n).add_spec(lin9(x, m)) == lin9(
            x,
            (
                n.0 + m.0, n.1 + m.1, n.2 + m.2, n.3 + m.3, n.4 + m.4, n.5 + m.5, n.6 + m.6,
                n.7 + m.7, n.8 + m.8,
            ),
        ),
{
    reveal(lin9);
    lemma_ring_closure::<F>();
    let s0 = scale(n.0, x.0);
    let s1 = scale(n.1, x.1);
    let s2 = scale(n.2, x.2);
    let s3 = scale(n.3, x.3);
    let s4 = scale(n.4, x.4);
    let s5 = scale(n.5, x.5);
    let s6 = scale(n.6, x.6);
    let s7 = scale(n.7, x.7);
    let s8 = scale(n.8, x.8);
    let t0 = scale(m.0, x.0);
    let t1 = scale(m.1, x.1);
    let t2 = scale(m.2, x.2);
    let t3 = scale(m.3, x.3);
    let t4 = scale(m.4, x.4);
    let t5 = scale(m.5, x.5);
    let t6 = scale(m.6, x.6);
    let t7 = scale(m.7, x.7);
    let t8 = scale(m.8, x.8);
    lemma_scale_wf(n.0, x.0);
    lemma_scale_wf(n.1, x.1);
    lemma_scale_wf(n.2, x.2);
    lemma_scale_wf(n.3, x.3);
    lemma_scale_wf(n.4, x.4);
    lemma_scale_wf(n.5, x.5);
    lemma_scale_wf(n.6, x.6);
    lemma_scale_wf(n.7, x.7);
    lemma_scale_wf(n.8, x.8);
    lemma_scale_wf(m.0, x.0);
    lemma_scale_wf(m.1, x.1);
    lemma_scale_wf(m.2, x.2);
    lemma_scale_wf(m.3, x.3);
    lemma_scale_wf(m.4, x.4);
    lemma_scale_wf(m.5, x.5);
    lemma_scale_wf(m.6, x.6);
    lemma_scale_wf(m.7, x.7);
    lemma_scale_wf(m.8, x.8);
    lemma_scale_add(n.0, m.0, x.0);
    lemma_scale_add(n.1, m.1, x.1);
    lemma_scale_add(n.2, m.2, x.2);
    lemma_scale_add(n.3, m.3, x.3);
    lemma_scale_add(n.4, m.4, x.4);
    lemma_scale_add(n.5, m.5, x.5);
    lemma_scale_add(n.6, m.6, x.6);
    lemma_scale_add(n.7, m.7, x.7);
    lemma_scale_add(n.8, m.8, x.8);
    let a1 = s0.add_spec(s1);
    let b1 = t0.add_spec(t1);
    lemma_add_interchange(s0, s1, t0, t1);
    lemma_add_interchange(a1, s2, b1, t2);
    let a2 = a1.add_spec(s2);
    let b2 = b1.add_spec(t2);
    lemma_add_interchange(a2, s3, b2, t3);
    let a3 = a2.add_spec(s3);
    let b3 = b2.add_spec(t3);
    lemma_add_interchange(a3, s4, b3, t4);
    let a4 = a3.add_spec(s4);
    let b4 = b3.add_spec(t4);
    lemma_add_interchange(a4, s5, b4, t5);
    let a5 = a4.add_spec(s5);
    let b5 = b4.add_spec(t5);
    lemma_add_interchange(a5, s6, b5, t6);
    let a6 = a5.add_spec(s6);
    let b6 = b5.add_spec(t6);
    lemma_add_interchange(a6, s7, b6, t7);
    let a7 = a6.add_spec(s7);
    let b7 = b6.add_spec(t7);
    lemma_add_interchange(a7, s8, b7, t8);
}

/// The combination with all coefficients zero is zero.
pub proof fn lemma_lin9_zero<F: Field>(x: Atoms9<F>)
    requires
        lin9_atoms_wf(x),
    ensures
        lin9(x, (0, 0, 0, 0, 0, 0, 0, 0, 0)) == F::zero_spec(),
{
    reveal(lin9);
    F::lemma_constants();
    F::lemma_add_zero(F::zero_spec());
}

/// The negation of a combination has the negated coefficients.
pub proof fn lemma_lin9_neg<F: Field>(x: Atoms9<F>, n: Coefficients9)
    requires
        lin9_atoms_wf(x),
    ensures
        lin9(x, n).neg_spec() == lin9(
            x,
            (-n.0, -n.1, -n.2, -n.3, -n.4, -n.5, -n.6, -n.7, -n.8),
        ),
{
    let m = (-n.0, -n.1, -n.2, -n.3, -n.4, -n.5, -n.6, -n.7, -n.8);
    lemma_lin9_wf(x, n);
    lemma_lin9_wf(x, m);
    lemma_lin9_add(x, n, m);
    lemma_lin9_zero(x);
    lemma_neg_unique(lin9(x, n), lin9(x, m));
}

/// Each atom is the combination with the coefficient one at its place.
pub proof fn lemma_lin9_atoms<F: Field>(x: Atoms9<F>)
    requires
        lin9_atoms_wf(x),
    ensures
        x.0 == lin9(x, (1, 0, 0, 0, 0, 0, 0, 0, 0)),
        x.1 == lin9(x, (0, 1, 0, 0, 0, 0, 0, 0, 0)),
        x.2 == lin9(x, (0, 0, 1, 0, 0, 0, 0, 0, 0)),
        x.3 == lin9(x, (0, 0, 0, 1, 0, 0, 0, 0, 0)),
        x.4 == lin9(x, (0, 0, 0, 0, 1, 0, 0, 0, 0)),
        x.5 == lin9(x, (0, 0, 0, 0, 0, 1, 0, 0, 0)),
        x.6 == lin9(x, (0, 0, 0, 0, 0, 0, 1, 0, 0)),
        x.7 == lin9(x, (0, 0, 0, 0, 0, 0, 0, 1, 0)),
        x.8 == lin9(x, (0, 0, 0, 0, 0, 0, 0, 0, 1)),
{
    reveal(lin9);
    let z = F::zero_spec();
    F::lemma_constants();
    F::lemma_add_zero(z);
    lemma_scale_step(0, x.0);
    lemma_scale_step(0, x.1);
    lemma_scale_step(0, x.2);
    lemma_scale_step(0, x.3);
    lemma_scale_step(0, x.4);
    lemma_scale_step(0, x.5);
    lemma_scale_step(0, x.6);
    lemma_scale_step(0, x.7);
    lemma_scale_step(0, x.8);
    lemma_zero_add(x.0);
    lemma_zero_add(x.1);
    lemma_zero_add(x.2);
    lemma_zero_add(x.3);
    lemma_zero_add(x.4);
    lemma_zero_add(x.5);
    lemma_zero_add(x.6);
    lemma_zero_add(x.7);
    lemma_zero_add(x.8);
    F::lemma_add_zero(x.0);
    F::lemma_add_zero(x.1);
    F::lemma_add_zero(x.2);
    F::lemma_add_zero(x.3);
    F::lemma_add_zero(x.4);
    F::lemma_add_zero(x.5);
    F::lemma_add_zero(x.6);
    F::lemma_add_zero(x.7);
    F::lemma_add_zero(x.8);
}

/// The rules that bring a sum of the atoms `x` to its normal form: each
/// atom and zero is a combination, and so are sums and negations of
/// combinations.
pub proof fn lemma_lin9_rules<F: Field>(x: Atoms9<F>)
    requires
        lin9_atoms_wf(x),
    ensures
        x.0 == lin9(x, (1, 0, 0, 0, 0, 0, 0, 0, 0)),
        x.1 == lin9(x, (0, 1, 0, 0, 0, 0, 0, 0, 0)),
        x.2 == lin9(x, (0, 0, 1, 0, 0, 0, 0, 0, 0)),
        x.3 == lin9(x, (0, 0, 0, 1, 0, 0, 0, 0, 0)),
        x.4 == lin9(x, (0, 0, 0, 0, 1, 0, 0, 0, 0)),
        x.5 == lin9(x, (0, 0, 0, 0, 0, 1, 0, 0, 0)),
        x.6 == lin9(x, (0, 0, 0, 0, 0, 0, 1, 0, 0)),
        x.7 == lin9(x, (0, 0, 0, 0, 0, 0, 0, 1, 0)),
        x.8 == lin9(x, (0, 0, 0, 0, 0, 0, 0, 0, 1)),
        F::zero_spec() == lin9(x, (0, 0, 0, 0, 0, 0, 0, 0, 0)),
        forall|n: Coefficients9, m: Coefficients9| #[trigger]
            lin9(x, n).add_spec(lin9(x, m)) == lin9(
                x,
                (
                    n.0 + m.0, n.1 + m.1, n.2 + m.2, n.3 + m.3, n.4 + m.4, n.5 + m.5, n.6 + m.6,
                    n.7 + m.7, n.8 + m.8,
                ),
            ),
        forall|n: Coefficients9| #[trigger]
            lin9(x, n).neg_spec() == lin9(
                x,
                (-n.0, -n.1, -n.2, -n.3, -n.4, -n.5, -n.6, -n.7, -n.8),
            ),
{
    lemma_lin9_atoms(x);
    lemma_lin9_zero(x);
    assert forall|n: Coefficients9, m: Coefficients9| #[trigger]
        lin9(x, n).add_spec(lin9(x, m)) == lin9(
            x,
            (
                n.0 + m.0, n.1 + m.1, n.2 + m.2, n.3 + m.3, n.4 + m.4, n.5 + m.5, n.6 + m.6,
                n.7 + m.7, n.8 + m.8,
            ),
        ) by {
        lemma_lin9_add(x, n, m);
    }
    assert forall|n: Coefficients9| #[trigger]
        lin9(x, n).neg_spec() == lin9(
            x,
            (-n.0, -n.1, -n.2, -n.3, -n.4, -n.5, -n.6, -n.7, -n.8),
        ) by {
        lemma_lin9_neg(x, n);
    }
}

/// The variables of a product of powers of up to ten of them.
pub type Variables10<F> = (F, F, F, F, F, F, F, F, F, F);

/// The exponents of ten variables.
pub type Exponents10 = (int, int, int, int, int, int, int, int, int, int);

/// A product of powers of ten variables: the normal form of a product.
#[verifier::opaque]
pub open spec fn mono10<F: Field>(v: Variables10<F>, e: Exponents10) -> F {
    pow(v.0, e.0)
        .mul_spec(pow(v.1, e.1))
        .mul_spec(pow(v.2, e.2))
        .mul_spec(pow(v.3, e.3))
        .mul_spec(pow(v.4, e.4))
        .mul_spec(pow(v.5, e.5))
        .mul_spec(pow(v.6, e.6))
        .mul_spec(pow(v.7, e.7))
        .mul_spec(pow(v.8, e.8))
        .mul_spec(pow(v.9, e.9))
}

/// Whether the ten variables are valid elements.
pub open spec fn mono10_vars_wf<F: Field>(v: Variables10<F>) -> bool {
    &&& v.0.wf()
    &&& v.1.wf()
    &&& v.2.wf()
    &&& v.3.wf()
    &&& v.4.wf()
    &&& v.5.wf()
    &&& v.6.wf()
    &&& v.7.wf()
    &&& v.8.wf()
    &&& v.9.wf()
}

/// Whether no exponent is negative.
pub open spec fn mono10_exps_ok(e: Exponents10) -> bool {
    &&& e.0 >= 0
    &&& e.1 >= 0
    &&& e.2 >= 0
    &&& e.3 >= 0
    &&& e.4 >= 0
    &&& e.5 >= 0
    &&& e.6 >= 0
    &&& e.7 >= 0
    &&& e.8 >= 0
    &&& e.9 >= 0
}

/// A product of powers of valid variables is valid.
pub proof fn lemma_mono10_wf<F: Field>(v: Variables10<F>, e: Exponents10)
    requires
        mono10_vars_wf(v),
    ensures
        mono10(v, e).wf(),
{
    reveal(mono10);
    lemma_ring_closure::<F>();
    lemma_pow_wf(v.0, e.0);
    lemma_pow_wf(v.1, e.1);
    lemma_pow_wf(v.2, e.2);
    lemma_pow_wf(v.3, e.3);
    lemma_pow_wf(v.4, e.4);
    lemma_pow_wf(v.5, e.5);
    lemma_pow_wf(v.6, e.6);
    lemma_pow_wf(v.7, e.7);
    lemma_pow_wf(v.8, e.8);
    lemma_pow_wf(v.9, e.9);
}

/// Products over the same variables multiply exponent by exponent.
pub proof fn lemma_mono10_mul<F: Field>(v: Variables10<F>, e: Exponents10, f: Exponents10)
    requires
        mono10_vars_wf(v),
        mono10_exps_ok(e),
        mono10_exps_ok(f),
    ensures
        mono10(v, e).mul_spec(mono10(v, f)) == mono10(
            v,
            (
                e.0 + f.0, e.1 + f.1, e.2 + f.2, e.3 + f.3, e.4 + f.4, e.5 + f.5, e.6 + f.6,
                e.7 + f.7, e.8 + f.8, e.9 + f.9,
            ),
        ),
{
    reveal(mono10);
    lemma_ring_closure::<F>();
    let s0 = pow(v.0, e.0);
    let s1 = pow(v.1, e.1);
    let s2 = pow(v.2, e.2);
    let s3 = pow(v.3, e.3);
    let s4 = pow(v.4, e.4);
    let s5 = pow(v.5, e.5);
    let s6 = pow(v.6, e.6);
    let s7 = pow(v.7, e.7);
    let s8 = pow(v.8, e.8);
    let s9 = pow(v.9, e.9);
    let t0 = pow(v.0, f.0);
    let t1 = pow(v.1, f.1);
    let t2 = pow(v.2, f.2);
    let t3 = pow(v.3, f.3);
    let t4 = pow(v.4, f.4);
    let t5 = pow(v.5, f.5);
    let t6 = pow(v.6, f.6);
    let t7 = pow(v.7, f.7);
    let t8 = pow(v.8, f.8);
    let t9 = pow(v.9, f.9);
    lemma_pow_wf(v.0, e.0);
    lemma_pow_wf(v.1, e.1);
    lemma_pow_wf(v.2, e.2);
    lemma_pow_wf(v.3, e.3);
    lemma_pow_wf(v.4, e.4);
    lemma_pow_wf(v.5, e.5);
    lemma_pow_wf(v.6, e.6);
    lemma_pow_wf(v.7, e.7);
    lemma_pow_wf(v.8, e.8);
    lemma_pow_wf(v.9, e.9);
    lemma_pow_wf(v.0, f.0);
    lemma_pow_wf(v.1, f.1);
    lemma_pow_wf(v.2, f.2);
    lemma_pow_wf(v.3, f.3);
    lemma_pow_wf(v.4, f.4);
    lemma_pow_wf(v.5, f.5);
    lemma_pow_wf(v.6, f.6);
    lemma_pow_wf(v.7, f.7);
    lemma_pow_wf(v.8, f.8);
    lemma_pow_wf(v.9, f.9);
    lemma_pow_add(v.0, e.0, f.0);
    lemma_pow_add(v.1, e.1, f.1);
    lemma_pow_add(v.2, e.2, f.2);
    lemma_pow_add(v.3, e.3, f.3);
    lemma_pow_add(v.4, e.4, f.4);
    lemma_pow_add(v.5, e.5, f.5);
    lemma_pow_add(v.6, e.6, f.6);
    lemma_pow_add(v.7, e.7, f.7);
    lemma_pow_add(v.8, e.8, f.8);
    lemma_pow_add(v.9, e.9, f.9);
    let a1 = s0.mul_spec(s1);
    let b1 = t0.mul_spec(t1);
    lemma_mul_interchange(s0, s1, t0, t1);
    lemma_mul_interchange(a1, s2, b1, t2);
    let a2 = a1.mul_spec(s2);
    let b2 = b1.mul_spec(t2);
    lemma_mul_interchange(a2, s3, b2, t3);
    let a3 = a2.mul_spec(s3);
    let b3 = b2.mul_spec(t3);
    lemma_mul_interchange(a3, s4, b3, t4);
    let a4 = a3.mul_spec(s4);
    let b4 = b3.mul_spec(t4);
    lemma_mul_interchange(a4, s5, b4, t5);
    let a5 = a4.mul_spec(s5);
    let b5 = b4.mul_spec(t5);
    lemma_mul_interchange(a5, s6, b5, t6);
    let a6 = a5.mul_spec(s6);
    let b6 = b5.mul_spec(t6);
    lemma_mul_interchange(a6, s7, b6, t7);
    let a7 = a6.mul_spec(s7);
    let b7 = b6.mul_spec(t7);
    lemma_mul_interchange(a7, s8, b7, t8);
    let a8 = a7.mul_spec(s8);
    let b8 = b7.mul_spec(t8);
    lemma_mul_interchange(a8, s9, b8, t9);
}

/// Each variable is the product with the exponent one at its place, and one
/// is the product with all exponents zero.
pub proof fn lemma_mono10_vars<F: Field>(v: Variables10<F>)
    requires
        mono10_vars_wf(v),
    ensures
        v.0 == mono10(v, (1, 0, 0, 0, 0, 0, 0, 0, 0, 0)),
        v.1 == mono10(v, (0, 1, 0, 0, 0, 0, 0, 0, 0, 0)),
        v.2 == mono10(v, (0, 0, 1, 0, 0, 0, 0, 0, 0, 0)),
        v.3 == mono10(v, (0, 0, 0, 1, 0, 0, 0, 0, 0, 0)),
        v.4 == mono10(v, (0, 0, 0, 0, 1, 0, 0, 0, 0, 0)),
        v.5 == mono10(v, (0, 0, 0, 0, 0, 1, 0, 0, 0, 0)),
        v.6 == mono10(v, (0, 0, 0, 0, 0, 0, 1, 0, 0, 0)),
        v.7 == mono10(v, (0, 0, 0, 0, 0, 0, 0, 1, 0, 0)),
        v.8 == mono10(v, (0, 0, 0, 0, 0, 0, 0, 0, 1, 0)),
        v.9 == mono10(v, (0, 0, 0, 0, 0, 0, 0, 0, 0, 1)),
        F::one_spec() == mono10(v, (0, 0, 0, 0, 0, 0, 0, 0, 0, 0)),
{
    reveal(mono10);
    let u = F::one_spec();
    F::lemma_constants();
    F::lemma_mul_one(u);
    assert(pow(v.0, 1) == pow(v.0, 0).mul_spec(v.0));
    assert(pow(v.1, 1) == pow(v.1, 0).mul_spec(v.1));
    assert(pow(v.2, 1) == pow(v.2, 0).mul_spec(v.2));
    assert(pow(v.3, 1) == pow(v.3, 0).mul_spec(v.3));
    assert(pow(v.4, 1) == pow(v.4, 0).mul_spec(v.4));
    assert(pow(v.5, 1) == pow(v.5, 0).mul_spec(v.5));
    assert(pow(v.6, 1) == pow(v.6, 0).mul_spec(v.6));
    assert(pow(v.7, 1) == pow(v.7, 0).mul_spec(v.7));
    assert(pow(v.8, 1) == pow(v.8, 0).mul_spec(v.8));
    assert(pow(v.9, 1) == pow(v.9, 0).mul_spec(v.9));
    lemma_one_mul(v.0);
    lemma_one_mul(v.1);
    lemma_one_mul(v.2);
    lemma_one_mul(v.3);
    lemma_one_mul(v.4);
    lemma_one_mul(v.5);
    lemma_one_mul(v.6);
    lemma_one_mul(v.7);
    lemma_one_mul(v.8);
    lemma_one_mul(v.9);
    F::lemma_mul_one(v.0);
    F::lemma_mul_one(v.1);
    F::lemma_mul_one(v.2);
    F::lemma_mul_one(v.3);
    F::lemma_mul_one(v.4);
    F::lemma_mul_one(v.5);
    F::lemma_mul_one(v.6);
    F::lemma_mul_one(v.7);
    F::lemma_mul_one(v.8);
    F::lemma_mul_one(v.9);
}

/// The rules that bring a product of the variables `v` to its normal form:
/// each variable and one is a product of powers, and so are products of
/// such products.
pub proof fn lemma_mono10_rules<F: Field>(v: Variables10<F>)
    requires
        mono10_vars_wf(v),
    ensures
        v.0 == mono10(v, (1, 0, 0, 0, 0, 0, 0, 0, 0, 0)),
        v.1 == mono10(v, (0, 1, 0, 0, 0, 0, 0, 0, 0, 0)),
        v.2 == mono10(v, (0, 0, 1, 0, 0, 0, 0, 0, 0, 0)),
        v.3 == mono10(v, (0, 0, 0, 1, 0, 0, 0, 0, 0, 0)),
        v.4 == mono10(v, (0, 0, 0, 0, 1, 0, 0, 0, 0, 0)),
        v.5 == mono10(v, (0, 0, 0, 0, 0, 1, 0, 0, 0, 0)),
        v.6 == mono10(v, (0, 0, 0, 0, 0, 0, 1, 0, 0, 0)),
        v.7 == mono10(v, (0, 0, 0, 0, 0, 0, 0, 1, 0, 0)),
        v.8 == mono10(v, (0, 0, 0, 0, 0, 0, 0, 0, 1, 0)),
        v.9 == mono10(v, (0, 0, 0, 0, 0, 0, 0, 0, 0, 1)),
        F::one_spec() == mono10(v, (0, 0, 0, 0, 0, 0, 0, 0, 0, 0)),
        forall|e: Exponents10| (#[trigger] mono10(v, e)).wf(),
        forall|e: Exponents10, f: Exponents10|
            mono10_exps_ok(e) && mono10_exps_ok(f) ==> #[trigger] mono10(v, e).mul_spec(mono10(v, f))
                == mono10(
                    v,
                    (
                        e.0 + f.0, e.1 + f.1, e.2 + f.2, e.3 + f.3, e.4 + f.4, e.5 + f.5,
                        e.6 + f.6, e.7 + f.7, e.8 + f.8, e.9 + f.9,
                    ),
                ),
{
    lemma_mono10_vars(v);
    assert forall|e: Exponents10| (#[trigger] mono10(v, e)).wf() by {
        lemma_mono10_wf(v, e);
    }
    assert forall|e: Exponents10, f: Exponents10| mono10_exps_ok(e) && mono10_exps_ok(f) implies #[trigger] mono10(
        v,
        e,
    ).mul_spec(mono10(v, f)) == mono10(
        v,
        (
            e.0 + f.0, e.1 + f.1, e.2 + f.2, e.3 + f.3, e.4 + f.4, e.5 + f.5, e.6 + f.6,
            e.7 + f.7, e.8 + f.8, e.9 + f.9,
        ),
    ) by {
        lemma_mono10_mul(v, e, f);
    }
}

} // verus!
