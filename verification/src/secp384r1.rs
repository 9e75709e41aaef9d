//! The parameters of secp384r1, a short Weierstrass curve
//! `y^2 = x^3 + a x + b` with `a = -3`.

use vstd::prelude::*;

verus! {

/// The parameter set of the curve.
#[derive(Clone, Copy, Debug, Default, PartialEq, Eq)]
pub struct Config;

impl Config {
    /// The cofactor of the curve, 1, as limbs.
    pub fn cofactor() -> (r: [u64; 1])
        ensures
            r@ == seq![1u64],
    {
        let r: [u64; 1] = [1];
        assert(r@ =~= seq![1u64]);
        r
    }
}

} // verus!
