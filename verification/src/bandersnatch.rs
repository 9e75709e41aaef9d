//! The parameters of Bandersnatch, a twisted Edwards curve
//! `a x^2 + y^2 = 1 + d x^2 y^2` with `a = -5`.

use crate::algebra::{lemma_lin_rules, lemma_lin_single, lin, scale};
use crate::field::Field;
use vstd::prelude::*;

verus! {

/// The parameter set of the curve.
#[derive(Clone, Copy, Debug, Default, PartialEq, Eq)]
pub struct BandersnatchConfig;

impl BandersnatchConfig {
    /// The cofactor of the curve, 4, as limbs.
    pub fn cofactor() -> (r: [u64; 1])
        ensures
            r@ == seq![4u64],
    {
        let r: [u64; 1] = [4];
        assert(r@ =~= seq![4u64]);
        r
    }

    /// `elem` multiplied by the coefficient `a = -5`, by two doublings, an
    /// addition and a negation.
    pub fn mul_by_a<F: Field>(elem: F) -> (r: F)
        requires
            elem.wf(),
        ensures
            r.wf(),
            r == scale(-5, elem),
    {
        let r = elem.double().double().add(&elem).neg();
        proof {
            let z = F::zero_spec();
            let atoms = (elem, z, z, z, z, z);
            F::lemma_constants();
            assert(r == lin(atoms, (-5, 0, 0, 0, 0, 0))) by {
                lemma_lin_rules(atoms);
            }
            lemma_lin_single(elem, -5);
        }
        r
    }
}

} // verus!
