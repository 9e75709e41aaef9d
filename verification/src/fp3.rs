//! Cubic extensions of the integers modulo a one-limb number.

use crate::algebra::lemma_one_mul;
use crate::cubic_extension::{CubicExtConfig, CubicExtField};
use crate::field::Field;
use crate::fp64::Fp64;
use crate::tower_laws::{
    coeff_c1_composes, coeff_c2_composes, coeffs_keep_products, frobenius_coherent,
    lemma_cube_of_root,
};
use vstd::prelude::*;

verus! {

/// The parameters of `Fp64<P>[X] / (X^3 - NONRESIDUE)`. `C1` and `C2` are
/// the factors that the Frobenius map puts on `X` and on `X^2`, that is
/// `NONRESIDUE^((P - 1) / 3)` and its square; the tables of coefficients are
/// their powers 0, 1 and 2, looked up by the power modulo 3.
#[derive(Clone, Copy, Debug, PartialEq, Eq, Hash)]
pub struct Fp3Config<const P: u64, const NONRESIDUE: u64, const C1: u64, const C2: u64>;

/// A cubic extension of `Fp64<P>`.
pub type Fp3<const P: u64, const NONRESIDUE: u64, const C1: u64, const C2: u64> = CubicExtField<
    Fp3Config<P, NONRESIDUE, C1, C2>,
>;

/// The entry of the table `[1, c, c^2]` that belongs to `power`.
pub open spec fn table_entry<const P: u64>(c: u64, power: nat) -> Fp64<P> {
    let c = Fp64::<P>::new_spec(c);
    if power % 3 == 0 {
        Fp64::<P>::one_spec()
    } else if power % 3 == 1 {
        c
    } else {
        c.mul_spec(c)
    }
}

impl<const P: u64, const NONRESIDUE: u64, const C1: u64, const C2: u64> CubicExtConfig
    for Fp3Config<P, NONRESIDUE, C1, C2> {
    type BaseField = Fp64<P>;

    open spec fn nonresidue_spec() -> Fp64<P> {
        Fp64::<P>::new_spec(NONRESIDUE)
    }

    open spec fn frobenius_coeff_c1_spec(power: nat) -> Fp64<P> {
        table_entry::<P>(C1, power)
    }

    open spec fn frobenius_coeff_c2_spec(power: nat) -> Fp64<P> {
        table_entry::<P>(C2, power)
    }

    proof fn lemma_constants_wf(power: nat) {
        let m = Fp64::<P>::modulus_spec();
        vstd::arithmetic::div_mod::lemma_mod_bound(NONRESIDUE as int, m);
        vstd::arithmetic::div_mod::lemma_mod_bound(C1 as int, m);
        vstd::arithmetic::div_mod::lemma_mod_bound(C2 as int, m);
        let c1 = Fp64::<P>::new_spec(C1);
        let c2 = Fp64::<P>::new_spec(C2);
        Fp64::<P>::lemma_closed(c1, c1);
        Fp64::<P>::lemma_closed(c2, c2);
    }

    fn nonresidue() -> (r: Fp64<P>) {
        Fp64::new(NONRESIDUE)
    }

    fn degree_over_base_prime_field() -> (r: usize) {
        3
    }

    fn mul_base_field_by_frob_coeff(c1: &mut Fp64<P>, c2: &mut Fp64<P>, power: usize) {
        let k = power % 3;
        if k != 0 {
            let f1 = Fp64::<P>::new(C1);
            let f2 = Fp64::<P>::new(C2);
            if k == 1 {
                *c1 = c1.mul(&f1);
                *c2 = c2.mul(&f2);
            } else {
                *c1 = c1.mul(&f1.mul(&f1));
                *c2 = c2.mul(&f2.mul(&f2));
            }
        } else {
            proof {
                Fp64::<P>::lemma_mul_one(*c1);
                Fp64::<P>::lemma_mul_one(*c2);
            }
        }
    }
}

impl<const P: u64, const NONRESIDUE: u64, const C1: u64, const C2: u64> Fp3Config<
    P,
    NONRESIDUE,
    C1,
    C2,
> {
    /// Whether `C1` is a root of `w^2 + w + 1` modulo `P` and `C2` is its
    /// square: the condition under which the tables are coherent.
    pub open spec fn coefficients_fit() -> bool {
        let w = Fp64::<P>::new_spec(C1);
        &&& w.mul_spec(w).add_spec(w).add_spec(Fp64::<P>::one_spec()) == Fp64::<P>::zero_spec()
        &&& Fp64::<P>::new_spec(C2) == w.mul_spec(w)
    }

    /// Tests whether the coefficients fit.
    pub fn check_coefficients() -> (r: bool)
        ensures
            r == Self::coefficients_fit(),
    {
        let w = Fp64::<P>::new(C1);
        let ww = w.mul(&w);
        let sum = ww.add(&w).add(&Fp64::<P>::one());
        sum.is_zero() && Fp64::<P>::new(C2).equals(&ww)
    }

    /// Coefficients that fit make coherent tables.
    pub proof fn lemma_fit_is_coherent()
        requires
            Self::coefficients_fit(),
        ensures
            frobenius_coherent::<Self>(),
    {
        let w = Fp64::<P>::new_spec(C1);
        let ww = w.mul_spec(w);
        let one = Fp64::<P>::one_spec();
        Self::lemma_constants_wf(0);
        Fp64::<P>::lemma_closed(w, w);
        Fp64::<P>::lemma_closed(ww, ww);
        lemma_cube_of_root(w);
        // w^3 == 1 in the three shapes that the tables meet
        Fp64::<P>::lemma_mul_associates(w, w, w);
        Fp64::<P>::lemma_mul_associates(ww, w, w);
        Fp64::<P>::lemma_mul_associates(ww, ww, ww);
        Fp64::<P>::lemma_mul_commutes(ww, ww.mul_spec(ww));
        Fp64::<P>::lemma_mul_one(w);
        Fp64::<P>::lemma_mul_one(ww);
        Fp64::<P>::lemma_mul_one(one);
        Fp64::<P>::lemma_mul_one(ww.mul_spec(ww));
        lemma_one_mul(w);
        lemma_one_mul(ww);
        lemma_one_mul(ww.mul_spec(ww));
        assert(ww.mul_spec(ww) == w);
        assert forall|i: nat, j: nat| #[trigger] coeff_c1_composes::<Self>(i, j) by {
            assert((i + j) % 3 == (i % 3 + j % 3) % 3) by (nonlinear_arith);
        }
        assert forall|i: nat, j: nat| #[trigger] coeff_c2_composes::<Self>(i, j) by {
            assert((i + j) % 3 == (i % 3 + j % 3) % 3) by (nonlinear_arith);
        }
        let n = Self::nonresidue_spec();
        Fp64::<P>::lemma_mul_one(n);
        assert forall|i: nat| #[trigger] coeffs_keep_products::<Self>(i) by {
        }
    }
}

} // verus!
