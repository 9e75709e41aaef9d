//! The tower over the integers modulo 7: the field of 343 elements, and
//! above it the field of `7^9` elements.

use crate::cubic_extension::{CubicExtConfig, CubicExtField};
use crate::field::Field;
use crate::fp3::Fp3Config;
use crate::fp64::{euclid_inverse, mul_mod, Fp64};
use crate::tower::lemma_norm_multiplies;
use crate::tower_laws::{
    coeff_c1_composes, coeff_c2_composes, coeffs_keep_products, cube, frobenius_coherent,
    is_field, lemma_closed, lemma_inverse_of_nonzero, lemma_norm_is_sub_norm,
    nonresidue_is_no_cube, TowerConfig,
};
use vstd::prelude::*;

verus! {

/// The integers modulo 7.
pub type F7 = Fp64<7>;

/// The parameters of `F7[X] / (X^3 - 2)`. Modulo 7 the cubes are 0, 1 and
/// 6, so 2 is no cube; the Frobenius map sends `X` to `X^7 = 4 X`.
pub type F343Config = Fp3Config<7, 2, 4, 2>;

/// The field of 343 elements.
pub type F343 = CubicExtField<F343Config>;

/// The parameters of `F343[Y] / (Y^3 - X)`. In the field of 343 elements
/// `X` is no cube, as `X^114 = 4` is not 1.
#[derive(Clone, Copy, Debug, PartialEq, Eq, Hash)]
pub struct F7Pow9Config;

/// The field of `7^9` elements.
pub type F7Pow9 = CubicExtField<F7Pow9Config>;

/// The element `c0 + c1 X + c2 X^2` of the field of 343 elements.
pub open spec fn f343_spec(c0: u64, c1: u64, c2: u64) -> F343 {
    CubicExtField { c0: Fp64 { value: c0 }, c1: Fp64 { value: c1 }, c2: Fp64 { value: c2 } }
}

/// The element `c0 + c1 X + c2 X^2` of the field of 343 elements, for
/// residues below 7.
pub fn f343(c0: u64, c1: u64, c2: u64) -> (r: F343)
    requires
        c0 < 7,
        c1 < 7,
        c2 < 7,
    ensures
        r == f343_spec(c0, c1, c2),
        r.wf(),
{
    assert(Fp64::<7>::modulus_spec() == 7);
    CubicExtField::new(Fp64 { value: c0 }, Fp64 { value: c1 }, Fp64 { value: c2 })
}

/// The element `c X^e` of the field of 343 elements, for `e` up to 2.
#[verifier::opaque]
pub open spec fn monomial(c: u64, e: nat) -> F343 {
    if e == 0 {
        f343_spec(c, 0, 0)
    } else if e == 1 {
        f343_spec(0, c, 0)
    } else {
        f343_spec(0, 0, c)
    }
}

/// `2^u` modulo 7, which depends on `u` modulo 3 only.
pub open spec fn power_of_two(u: nat) -> u64 {
    if u % 3 == 0 {
        1
    } else if u % 3 == 1 {
        2
    } else {
        4
    }
}

/// `X^t`. As `X^3` is 2 and `2^3` is 1 modulo 7, the powers of `X` repeat
/// after 9 steps, and `X^(3 u + e)` is `2^u X^e`.
#[verifier::opaque]
pub open spec fn x_power(t: nat) -> F343 {
    monomial(power_of_two((t % 9) / 3), t % 3)
}

/// `X^t`, for `t` below 9.
pub fn x_power_of(t: usize) -> (r: F343)
    requires
        t < 9,
    ensures
        r == x_power(t as nat),
        r.wf(),
{
    reveal(monomial);
    reveal(x_power);
    let u = t / 3;
    let c: u64 = if u == 0 {
        1
    } else if u == 1 {
        2
    } else {
        4
    };
    let e = t % 3;
    if e == 0 {
        f343(c, 0, 0)
    } else if e == 1 {
        f343(0, c, 0)
    } else {
        f343(0, 0, c)
    }
}

/// `(7^k - 1) / 3` modulo 9, for `k` below 9: the exponent of the power of
/// `X` that the Frobenius map of power `k` puts on `Y`.
pub open spec fn c1_exponent(k: nat) -> nat {
    if k == 0 {
        0
    } else if k == 1 {
        2
    } else if k == 2 {
        7
    } else if k == 3 {
        6
    } else if k == 4 {
        8
    } else if k == 5 {
        4
    } else if k == 6 {
        3
    } else if k == 7 {
        5
    } else {
        1
    }
}

/// Twice `c1_exponent` modulo 9: the exponent of the factor on `Y^2`.
pub open spec fn c2_exponent(k: nat) -> nat {
    if k == 0 {
        0
    } else if k == 1 {
        4
    } else if k == 2 {
        5
    } else if k == 3 {
        3
    } else if k == 4 {
        7
    } else if k == 5 {
        8
    } else if k == 6 {
        6
    } else if k == 7 {
        1
    } else {
        2
    }
}

/// The exponent of the power of `X` that the Frobenius map of power `k`
/// puts on `Y`.
pub fn c1_exponent_of(k: usize) -> (r: usize)
    requires
        k < 9,
    ensures
        r == c1_exponent(k as nat),
        r < 9,
{
    if k == 0 {
        0
    } else if k == 1 {
        2
    } else if k == 2 {
        7
    } else if k == 3 {
        6
    } else if k == 4 {
        8
    } else if k == 5 {
        4
    } else if k == 6 {
        3
    } else if k == 7 {
        5
    } else {
        1
    }
}

/// The exponent of the power of `X` that the Frobenius map of power `k`
/// puts on `Y^2`.
pub fn c2_exponent_of(k: usize) -> (r: usize)
    requires
        k < 9,
    ensures
        r == c2_exponent(k as nat),
        r < 9,
{
    if k == 0 {
        0
    } else if k == 1 {
        4
    } else if k == 2 {
        5
    } else if k == 3 {
        3
    } else if k == 4 {
        7
    } else if k == 5 {
        8
    } else if k == 6 {
        6
    } else if k == 7 {
        1
    } else {
        2
    }
}

impl TowerConfig for Fp3Config<7, 2, 4, 2> {
    proof fn lemma_coherent() {
        reveal(mul_mod);
        assert(Fp64::<7>::modulus_spec() == 7);
        let w = Fp64::<7>::new_spec(4);
        assert(w.value == 4);
        assert(w.mul_spec(w).value == 2);
        assert(Fp64::<7>::new_spec(2).value == 2);
        Fp3Config::<7, 2, 4, 2>::lemma_fit_is_coherent();
        vstd::std_specs::bits::axiom_u64_leading_zeros(7);
    }
}

impl CubicExtConfig for F7Pow9Config {
    type BaseField = F343;

    open spec fn nonresidue_spec() -> F343 {
        x_power(1)
    }

    open spec fn frobenius_coeff_c1_spec(power: nat) -> F343 {
        x_power(c1_exponent(power % 9))
    }

    open spec fn frobenius_coeff_c2_spec(power: nat) -> F343 {
        x_power(c2_exponent(power % 9))
    }

    proof fn lemma_constants_wf(power: nat) {
        lemma_x_power_is_monomial(1);
        lemma_x_power_is_monomial(c1_exponent(power % 9));
        lemma_x_power_is_monomial(c2_exponent(power % 9));
    }

    fn nonresidue() -> (r: F343) {
        let r = x_power_of(1);
        assert(CubicExtField::wf(&r));
        assert(<F343 as Field>::wf(&r));
        r
    }

    fn degree_over_base_prime_field() -> (r: usize) {
        9
    }

    /// `fe` times `X`, by moving the coordinates up and doubling the one
    /// that comes round: `X^3` is 2.
    fn mul_base_field_by_nonresidue_in_place(fe: &mut F343) -> (r: &mut F343) {
        let moved = CubicExtField::new(fe.c2.double(), fe.c0, fe.c1);
        proof {
            lemma_times_x(*fe);
        }
        *fe = moved;
        fe
    }

    fn mul_base_field_by_frob_coeff(c1: &mut F343, c2: &mut F343, power: usize) {
        let k = power % 9;
        let f1 = x_power_of(c1_exponent_of(k));
        let f2 = x_power_of(c2_exponent_of(k));
        *c1 = c1.mul(&f1);
        *c2 = c2.mul(&f2);
    }
}

/// The product of an element with `X`: the coordinates move up, and the
/// one that comes round is doubled.
pub proof fn lemma_times_x(fe: F343)
    requires
        fe.wf(),
    ensures
        fe.mul_spec(x_power(1)) == (F343 {
            c0: fe.c2.add_spec(fe.c2),
            c1: fe.c0,
            c2: fe.c1,
        }),
{
    let zero = Fp64::<7> { value: 0 };
    let one = Fp64::<7> { value: 1 };
    let two = Fp64::<7> { value: 2 };
    lemma_x_power_is_monomial(1);
    assert(x_power(1) == f343_spec(0, 1, 0)) by {
        reveal(monomial);
    }
    assert(F343Config::nonresidue_spec() == two) by {
        lemma_f7_arithmetic(2, 0);
    }
    <F7 as Field>::lemma_mul_one(fe.c0);
    <F7 as Field>::lemma_mul_one(fe.c1);
    <F7 as Field>::lemma_mul_one(fe.c2);
    crate::algebra::lemma_mul_zero(fe.c0);
    crate::algebra::lemma_mul_zero(fe.c1);
    crate::algebra::lemma_mul_zero(fe.c2);
    crate::algebra::lemma_mul_zero(two);
    crate::algebra::lemma_zero_add(fe.c2);
    crate::algebra::lemma_zero_add(fe.c1);
    <F7 as Field>::lemma_add_zero(fe.c0);
    <F7 as Field>::lemma_add_zero(fe.c1);
    <F7 as Field>::lemma_add_zero(zero);
    <F7 as Field>::lemma_closed(fe.c2, two);
    crate::algebra::lemma_zero_add(fe.c2.mul_spec(two));
    assert(fe.c2.mul_spec(two) == fe.c2.add_spec(fe.c2)) by {
        reveal(mul_mod);
        assert(Fp64::<7>::modulus_spec() == 7);
        assert(fe.c2.value * 2 == fe.c2.value + fe.c2.value);
    }
}

/// Sums and products of residues modulo 7.
pub proof fn lemma_f7_arithmetic(a: u64, b: u64)
    requires
        a < 7,
        b < 7,
    ensures
        Fp64::<7>::modulus_spec() == 7,
        (Fp64::<7> { value: a }).mul_spec(Fp64::<7> { value: b }) == (Fp64::<7> {
            value: ((a * b) % 7) as u64,
        }),
        (Fp64::<7> { value: a }).add_spec(Fp64::<7> { value: b }) == (Fp64::<7> {
            value: ((a + b) % 7) as u64,
        }),
        Fp64::<7>::new_spec(a) == (Fp64::<7> { value: a }),
{
    reveal(mul_mod);
    assert(Fp64::<7>::modulus_spec() == 7);
}

/// The coefficient of the product of the monomials `c X^e` and `d X^f`.
#[verifier::opaque]
pub open spec fn product_coefficient(c: u64, e: nat, d: u64, f: nat) -> u64 {
    (if e + f >= 3 {
        (2 * ((c * d) % 7)) % 7
    } else {
        (c * d) % 7
    }) as u64
}

/// A power of `X` is a power of two times `X^e`, and a valid element.
pub proof fn lemma_x_power_is_monomial(t: nat)
    ensures
        x_power(t) == monomial(power_of_two((t % 9) / 3), t % 3),
        CubicExtField::wf(&x_power(t)),
        <F343 as Field>::wf(&x_power(t)),
{
    reveal(monomial);
    reveal(x_power);
    assert(Fp64::<7>::modulus_spec() == 7);
}

/// The product of two monomials: the exponents add up, and `X^3` is 2.
pub proof fn lemma_monomial_product(c: u64, e: nat, d: u64, f: nat)
    requires
        c < 7,
        d < 7,
        e < 3,
        f < 3,
    ensures
        monomial(c, e).mul_spec(monomial(d, f)) == monomial(
            product_coefficient(c, e, d, f),
            (e + f) % 3,
        ),
{
    reveal(monomial);
    reveal(product_coefficient);
    let x = monomial(c, e);
    let y = monomial(d, f);
    let p = ((c * d) % 7) as u64;
    lemma_f7_arithmetic(c, d);
    lemma_f7_arithmetic(0, d);
    lemma_f7_arithmetic(c, 0);
    lemma_f7_arithmetic(0, 0);
    lemma_f7_arithmetic(0, p);
    lemma_f7_arithmetic(p, 0);
    lemma_f7_arithmetic(p, 2);
    lemma_f7_arithmetic(0, 2);
    lemma_f7_arithmetic(2, 0);
    let q = ((p * 2) % 7) as u64;
    lemma_f7_arithmetic(0, q);
    lemma_f7_arithmetic(q, 0);
    assert(F343Config::nonresidue_spec() == Fp64::<7> { value: 2 });
    assert(0 * d == 0 && c * 0 == 0);
    let z = Fp64::<7> { value: 0 };
    assert(x.c0.mul_spec(y.c0) == if e == 0 && f == 0 { Fp64::<7> { value: p } } else { z });
    assert(x.c0.mul_spec(y.c1) == if e == 0 && f == 1 { Fp64::<7> { value: p } } else { z });
    assert(x.c0.mul_spec(y.c2) == if e == 0 && f == 2 { Fp64::<7> { value: p } } else { z });
    assert(x.c1.mul_spec(y.c0) == if e == 1 && f == 0 { Fp64::<7> { value: p } } else { z });
    assert(x.c1.mul_spec(y.c1) == if e == 1 && f == 1 { Fp64::<7> { value: p } } else { z });
    assert(x.c1.mul_spec(y.c2) == if e == 1 && f == 2 { Fp64::<7> { value: p } } else { z });
    assert(x.c2.mul_spec(y.c0) == if e == 2 && f == 0 { Fp64::<7> { value: p } } else { z });
    assert(x.c2.mul_spec(y.c1) == if e == 2 && f == 1 { Fp64::<7> { value: p } } else { z });
    assert(x.c2.mul_spec(y.c2) == if e == 2 && f == 2 { Fp64::<7> { value: p } } else { z });
}

/// Powers of two multiply by adding their exponents, with one more for the
/// `X^3` that a product of monomials may hold.
pub proof fn lemma_power_of_two_product(u: nat, e: nat, v: nat, f: nat)
    requires
        u < 3,
        e < 3,
        v < 3,
        f < 3,
    ensures
        product_coefficient(power_of_two(u), e, power_of_two(v), f) == power_of_two(
            u + v + (e + f) / 3,
        ),
{
    reveal(product_coefficient);
    assert(u % 3 == u && v % 3 == v);
    if u == 0 {
        assert(power_of_two(u) == 1);
    } else if u == 1 {
        assert(power_of_two(u) == 2);
    } else {
        assert(power_of_two(u) == 4);
    }
}

/// An exponent modulo 9 splits into thirds and a rest, and the thirds of a
/// sum are those of its terms with the carry of their rests.
pub proof fn lemma_exponent_split(s: nat, t: nat)
    ensures
        ({
            let a = s % 9;
            let b = t % 9;
            let total = (s + t) % 9;
            &&& (s + t) % 3 == (a % 3 + b % 3) % 3
            &&& (total / 3) % 3 == (a / 3 + b / 3 + (a % 3 + b % 3) / 3) % 3
        }),
{
    let a = s % 9;
    let b = t % 9;
    assert((s + t) % 9 == (a + b) % 9);
    assert((a + b) / 3 == a / 3 + b / 3 + (a % 3 + b % 3) / 3);
}

/// Powers of `X` multiply by adding their exponents.
pub proof fn lemma_x_power_product(s: nat, t: nat)
    ensures
        x_power(s).mul_spec(x_power(t)) == x_power(s + t),
{
    let a = s % 9;
    let b = t % 9;
    let u = a / 3;
    let v = b / 3;
    let e = a % 3;
    let f = b % 3;
    lemma_x_power_is_monomial(s);
    lemma_x_power_is_monomial(t);
    lemma_x_power_is_monomial(s + t);
    lemma_monomial_product(power_of_two(u), e, power_of_two(v), f);
    lemma_power_of_two_product(u, e, v, f);
    lemma_exponent_split(s, t);
    assert(s % 3 == e && t % 3 == f);
}

/// The image of a power of `X` under the Frobenius map of power `j`, which
/// sends `X` to `X^7`, `X^4` or `X` as `j` is 1, 2 or 0 modulo 3.
pub open spec fn frobenius_exponent(t: nat, j: nat) -> nat {
    if j % 3 == 0 {
        t
    } else if j % 3 == 1 {
        7 * t
    } else {
        4 * t
    }
}

/// The coefficient of the image of `c X^e` under the Frobenius map of power
/// `j`, which multiplies `X` by `4^j`.
#[verifier::opaque]
pub open spec fn image_coefficient(c: u64, e: nat, j: nat) -> u64 {
    let twist = (e * (j % 3)) % 3;
    ((c * (if twist == 0 {
        1int
    } else if twist == 1 {
        4
    } else {
        2
    })) % 7) as u64
}

/// The Frobenius maps send monomials to monomials: `X` goes to `4 X` or
/// `2 X`.
pub proof fn lemma_monomial_frobenius(c: u64, e: nat, j: nat)
    requires
        c < 7,
        e < 3,
    ensures
        monomial(c, e).frobenius_spec(j) == monomial(image_coefficient(c, e, j), e),
{
    reveal(monomial);
    reveal(image_coefficient);
    assert((e * (j % 3)) % 3 == if e == 0 || j % 3 == 0 {
        0int
    } else if e == j % 3 {
        if e == 1 { 1int } else { 1int }
    } else {
        2int
    }) by {
        if e == 0 {
        } else if e == 1 {
        } else {
            assert(e == 2);
        }
    }
    let x = monomial(c, e);
    lemma_f7_arithmetic(c, 1);
    lemma_f7_arithmetic(c, 2);
    lemma_f7_arithmetic(c, 4);
    lemma_f7_arithmetic(0, 1);
    lemma_f7_arithmetic(0, 2);
    lemma_f7_arithmetic(0, 4);
    lemma_f7_arithmetic(4, 4);
    lemma_f7_arithmetic(2, 2);
    let four = Fp64::<7> { value: 4 };
    let two = Fp64::<7> { value: 2 };
    let one = Fp64::<7> { value: 1 };
    assert(F343Config::frobenius_coeff_c1_spec(j) == if j % 3 == 0 {
        one
    } else if j % 3 == 1 {
        four
    } else {
        two
    });
    assert(F343Config::frobenius_coeff_c2_spec(j) == if j % 3 == 0 {
        one
    } else if j % 3 == 1 {
        two
    } else {
        four
    });
    assert(x.frobenius_spec(j).c0 == x.c0);
    assert(x.frobenius_spec(j).c1 == x.c1.mul_spec(F343Config::frobenius_coeff_c1_spec(j)));
    assert(x.frobenius_spec(j).c2 == x.c2.mul_spec(F343Config::frobenius_coeff_c2_spec(j)));
    assert(c * 1 == c);
}

/// The image of a power of two times `X^e` is the power of two that the
/// image of the exponent calls for.
pub proof fn lemma_image_of_power_of_two(a: nat, j: nat)
    requires
        a < 9,
    ensures
        image_coefficient(power_of_two(a / 3), a % 3, j) == power_of_two(
            (frobenius_exponent(a, j) % 9) / 3,
        ),
        frobenius_exponent(a, j) % 3 == a % 3,
{
    reveal(image_coefficient);
    let r = j % 3;
    if a == 0 {
        assert(a == 0);
        assert(r == 0 || r == 1 || r == 2);
    } else if a == 1 {
        assert(a == 1);
        assert(r == 0 || r == 1 || r == 2);
    } else if a == 2 {
        assert(a == 2);
        assert(r == 0 || r == 1 || r == 2);
    } else if a == 3 {
        assert(a == 3);
        assert(r == 0 || r == 1 || r == 2);
    } else if a == 4 {
        assert(a == 4);
        assert(r == 0 || r == 1 || r == 2);
    } else if a == 5 {
        assert(a == 5);
        assert(r == 0 || r == 1 || r == 2);
    } else if a == 6 {
        assert(a == 6);
        assert(r == 0 || r == 1 || r == 2);
    } else if a == 7 {
        assert(a == 7);
        assert(r == 0 || r == 1 || r == 2);
    } else {
        assert(a == 8);
        assert(r == 0 || r == 1 || r == 2);
    }
}

/// The Frobenius maps send powers of `X` to powers of `X`.
pub proof fn lemma_x_power_frobenius(t: nat, j: nat)
    ensures
        x_power(t).frobenius_spec(j) == x_power(frobenius_exponent(t, j)),
{
    let a = t % 9;
    let image = frobenius_exponent(t, j);
    lemma_x_power_is_monomial(t);
    lemma_x_power_is_monomial(image);
    lemma_monomial_frobenius(power_of_two(a / 3), a % 3, j);
    lemma_image_of_power_of_two(a, j);
    vstd::arithmetic::div_mod::lemma_mul_mod_noop_right(7, t as int, 9);
    vstd::arithmetic::div_mod::lemma_mul_mod_noop_right(4, t as int, 9);
    assert(image % 9 == frobenius_exponent(a, j) % 9);
    assert(image % 3 == frobenius_exponent(a, j) % 3);
    assert(t % 3 == a % 3);
}

/// The integers modulo 7 are a field.
pub proof fn lemma_f7_is_field()
    ensures
        is_field::<F7>(),
{
    assert(Fp64::<7>::modulus_spec() == 7);
    assert forall|x: F7| x.wf() && x != F7::zero_spec() implies (#[trigger] x.inverse_spec())
        is Some by {
        reveal_with_fuel(euclid_inverse, 6);
        let v = x.value;
        assert(1 <= v <= 6);
        if v == 1 {
            assert(euclid_inverse(7, 7, 1, 0, 1) is Some);
        } else if v == 2 {
            assert(euclid_inverse(7, 7, 2, 0, 1) is Some);
        } else if v == 3 {
            assert(euclid_inverse(7, 7, 3, 0, 1) is Some);
        } else if v == 4 {
            assert(euclid_inverse(7, 7, 4, 0, 1) is Some);
        } else if v == 5 {
            assert(euclid_inverse(7, 7, 5, 0, 1) is Some);
        } else {
            assert(euclid_inverse(7, 7, 6, 0, 1) is Some);
        }
    }
}

/// Modulo 7 the constant 2 is no cube.
pub proof fn lemma_two_is_no_cube()
    ensures
        nonresidue_is_no_cube::<F343Config>(),
{
    assert forall|b: F7| b.wf() implies #[trigger] cube(b) != F343Config::nonresidue_spec() by {
        let v = b.value;
        lemma_f7_arithmetic(2, 0);
        assert(b == Fp64::<7> { value: v });
        if v == 0 {
            lemma_f7_arithmetic(0, 0);
            lemma_f7_arithmetic(0, 0);
            assert(cube(b) == Fp64::<7> { value: 0 });
        } else if v == 1 {
            lemma_f7_arithmetic(1, 1);
            lemma_f7_arithmetic(1, 1);
            assert(cube(b) == Fp64::<7> { value: 1 });
        } else if v == 2 {
            lemma_f7_arithmetic(2, 2);
            lemma_f7_arithmetic(4, 2);
            assert(cube(b) == Fp64::<7> { value: 1 });
        } else if v == 3 {
            lemma_f7_arithmetic(3, 3);
            lemma_f7_arithmetic(2, 3);
            assert(cube(b) == Fp64::<7> { value: 6 });
        } else if v == 4 {
            lemma_f7_arithmetic(4, 4);
            lemma_f7_arithmetic(2, 4);
            assert(cube(b) == Fp64::<7> { value: 1 });
        } else if v == 5 {
            lemma_f7_arithmetic(5, 5);
            lemma_f7_arithmetic(4, 5);
            assert(cube(b) == Fp64::<7> { value: 6 });
        } else {
            lemma_f7_arithmetic(6, 6);
            lemma_f7_arithmetic(1, 6);
            assert(cube(b) == Fp64::<7> { value: 6 });
        }
    }
}

/// The cubic extension of the integers modulo 7 by a cube root of 2 is a
/// field: each of its elements but zero has an inverse.
pub proof fn lemma_f343_is_field()
    ensures
        is_field::<F343>(),
{
    lemma_f7_is_field();
    lemma_two_is_no_cube();
    assert forall|x: F343| x.wf() && x != <F343 as Field>::zero_spec() implies (
    #[trigger] <F343 as Field>::inverse_spec(x)) is Some by {
        lemma_inverse_of_nonzero(x);
    }
}

/// Powers of `X` whose exponents agree modulo 9 are the same.
pub proof fn lemma_x_power_periodic(s: nat, t: nat)
    requires
        s % 9 == t % 9,
    ensures
        x_power(s) == x_power(t),
{
    lemma_x_power_is_monomial(s);
    lemma_x_power_is_monomial(t);
    assert(s % 3 == (s % 9) % 3 && t % 3 == (t % 9) % 3);
}

/// The exponents of the two tables compose, and three times an exponent of
/// the first is what the Frobenius map adds to the exponent of `X`.
pub proof fn lemma_table_exponents(a: nat, b: nat, j: nat)
    requires
        a < 9,
        b == j % 9,
    ensures
        (frobenius_exponent(c1_exponent(a), j) + c1_exponent(b)) % 9 == c1_exponent((a + b) % 9),
        (frobenius_exponent(c2_exponent(a), j) + c2_exponent(b)) % 9 == c2_exponent((a + b) % 9),
        c2_exponent(a) == (2 * c1_exponent(a)) % 9,
        a == j % 9 ==> frobenius_exponent(1, j) % 9 == (1 + 3 * c1_exponent(a)) % 9,
{
    assert(j % 3 == b % 3);
    if a == 0 {
        assert(a == 0);
    } else if a == 1 {
        assert(a == 1);
    } else if a == 2 {
        assert(a == 2);
    } else if a == 3 {
        assert(a == 3);
    } else if a == 4 {
        assert(a == 4);
    } else if a == 5 {
        assert(a == 5);
    } else if a == 6 {
        assert(a == 6);
    } else if a == 7 {
        assert(a == 7);
    } else {
        assert(a == 8);
    }
}

/// The coefficients that the upper field puts on `Y` compose.
pub proof fn lemma_upper_c1_composes(i: nat, j: nat)
    ensures
        coeff_c1_composes::<F7Pow9Config>(i, j),
{
    let a = i % 9;
    let b = j % 9;
    let t = c1_exponent(a);
    let image = frobenius_exponent(t, j);
    lemma_table_exponents(a, b, j);
    lemma_x_power_frobenius(t, j);
    lemma_x_power_product(image, c1_exponent(b));
    assert((i + j) % 9 == (a + b) % 9);
    lemma_x_power_periodic(image + c1_exponent(b), c1_exponent((a + b) % 9));
}

/// The coefficients that the upper field puts on `Y^2` compose.
pub proof fn lemma_upper_c2_composes(i: nat, j: nat)
    ensures
        coeff_c2_composes::<F7Pow9Config>(i, j),
{
    let a = i % 9;
    let b = j % 9;
    let t = c2_exponent(a);
    let image = frobenius_exponent(t, j);
    lemma_table_exponents(a, b, j);
    lemma_x_power_frobenius(t, j);
    lemma_x_power_product(image, c2_exponent(b));
    assert((i + j) % 9 == (a + b) % 9);
    lemma_x_power_periodic(image + c2_exponent(b), c2_exponent((a + b) % 9));
}

/// The coefficients of the upper field keep products.
pub proof fn lemma_upper_keeps_products(i: nat)
    ensures
        coeffs_keep_products::<F7Pow9Config>(i),
{
    let a = i % 9;
    let t = c1_exponent(a);
    lemma_table_exponents(a, a, i);
    lemma_x_power_product(t, t);
    lemma_x_power_periodic(t + t, c2_exponent(a));
    lemma_x_power_product(t + t, t);
    lemma_x_power_product(1, t + t + t);
    lemma_x_power_frobenius(1, i);
    lemma_x_power_periodic(frobenius_exponent(1, i), 1 + (t + t + t));
}

/// `X^6`, which is 4, is a root of `w^2 + w + 1`.
pub proof fn lemma_upper_root()
    ensures
        x_power(0) == <F343 as Field>::one_spec(),
        x_power(6).mul_spec(x_power(6)).add_spec(x_power(6)).add_spec(x_power(0))
            == <F343 as Field>::zero_spec(),
{
    lemma_x_power_product(6, 6);
    lemma_x_power_periodic(12, 3);
    lemma_x_power_is_monomial(0);
    lemma_x_power_is_monomial(3);
    lemma_x_power_is_monomial(6);
    reveal(monomial);
    lemma_f7_arithmetic(2, 4);
    lemma_f7_arithmetic(6, 1);
    lemma_f7_arithmetic(0, 0);
}

/// The tables of the upper field are coherent.
pub proof fn lemma_upper_tables_coherent()
    ensures
        frobenius_coherent::<F7Pow9Config>(),
{
    lemma_upper_root();
    assert forall|i: nat, j: nat| #[trigger] coeff_c1_composes::<F7Pow9Config>(i, j) by {
        lemma_upper_c1_composes(i, j);
    }
    assert forall|i: nat, j: nat| #[trigger] coeff_c2_composes::<F7Pow9Config>(i, j) by {
        lemma_upper_c2_composes(i, j);
    }
    assert forall|i: nat| #[trigger] coeffs_keep_products::<F7Pow9Config>(i) by {
        lemma_upper_keeps_products(i);
    }
    assert(<F343 as Field>::degree_spec() == 3);
}

/// The norm of `X` over the integers modulo 7 is 2.
pub proof fn lemma_norm_of_x()
    ensures
        x_power(1).wf(),
        x_power(1).norm_spec() == (Fp64::<7> { value: 2 }),
{
    let x = x_power(1);
    let zero = Fp64::<7> { value: 0 };
    let one = Fp64::<7> { value: 1 };
    let two = Fp64::<7> { value: 2 };
    lemma_x_power_is_monomial(1);
    <F343Config as TowerConfig>::lemma_coherent();
    lemma_norm_is_sub_norm(x);
    assert(x == f343_spec(0, 1, 0)) by {
        reveal(monomial);
    }
    lemma_f7_arithmetic(0, 0);
    lemma_f7_arithmetic(0, 1);
    lemma_f7_arithmetic(1, 0);
    lemma_f7_arithmetic(1, 1);
    lemma_f7_arithmetic(0, 2);
    lemma_f7_arithmetic(1, 2);
    lemma_f7_arithmetic(2, 0);
    assert(F343Config::nonresidue_spec() == two);
    assert(zero.neg_spec() == zero);
    let s = x.adjugate_spec();
    assert(s.c0 == zero);
    assert(s.c1 == zero);
    assert(s.c2 == one);
    assert(x.c2.mul_spec(s.c1).add_spec(x.c1.mul_spec(s.c2)) == one);
}

/// In the field of 343 elements `X` is no cube: the norm of a cube is a
/// cube, and the norm of `X` is 2, which is none.
pub proof fn lemma_x_is_no_cube()
    ensures
        nonresidue_is_no_cube::<F7Pow9Config>(),
{
    lemma_norm_of_x();
    lemma_two_is_no_cube();
    assert forall|b: F343| <F343 as Field>::wf(&b) implies #[trigger] cube(b)
        != F7Pow9Config::nonresidue_spec() by {
        let square = b.mul_spec(b);
        let n = b.norm_spec();
        lemma_closed(b, b);
        lemma_norm_multiplies::<F343Config>(b, b);
        lemma_norm_multiplies::<F343Config>(square, b);
        <F343Config as TowerConfig>::lemma_coherent();
        crate::tower_laws::lemma_norm_in_base_field(b);
        lemma_norm_wf(b);
        assert(cube(b) == square.mul_spec(b));
        assert(cube(b).norm_spec() == cube(n));
        assert(cube(n) != F343Config::nonresidue_spec());
    }
}

/// The norm of a valid element is a valid residue.
pub proof fn lemma_norm_wf(b: F343)
    requires
        b.wf(),
    ensures
        b.norm_spec().wf(),
{
    let d = <F7 as Field>::degree_spec();
    crate::tower_laws::lemma_frobenius_wf(b, d);
    crate::tower_laws::lemma_frobenius_wf(b, 2 * d);
    lemma_closed(b.frobenius_spec(2 * d), b);
    lemma_closed(b.frobenius_spec(d), b.frobenius_spec(2 * d).mul_spec(b));
}

/// The field of `7^9` elements is a field: each of its elements but zero
/// has an inverse.
pub proof fn lemma_f7pow9_is_field()
    ensures
        is_field::<F7Pow9>(),
{
    lemma_f343_is_field();
    lemma_x_is_no_cube();
    assert forall|x: F7Pow9| x.wf() && x != <F7Pow9 as Field>::zero_spec() implies (
    #[trigger] <F7Pow9 as Field>::inverse_spec(x)) is Some by {
        lemma_inverse_of_nonzero(x);
    }
}

impl TowerConfig for F7Pow9Config {
    proof fn lemma_coherent() {
        lemma_upper_tables_coherent();
        vstd::std_specs::bits::axiom_u64_leading_zeros(7);
    }
}

} // verus!
