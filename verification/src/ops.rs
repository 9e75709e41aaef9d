//! The operators `+`, `-`, `*`, `/` and unary `-` on the elements of a cubic
//! extension.

use crate::cubic_extension::{CubicExtConfig, CubicExtField};
use vstd::prelude::*;
use vstd::std_specs::ops::{AddSpecImpl, DivSpecImpl, MulSpecImpl, NegSpecImpl, SubSpecImpl};

verus! {

impl<'a, P: CubicExtConfig> AddSpecImpl<&'a CubicExtField<P>> for CubicExtField<P> {
    open spec fn obeys_add_spec() -> bool {
        true
    }

    open spec fn add_req(self, rhs: &'a CubicExtField<P>) -> bool {
        self.wf() && rhs.wf()
    }

    open spec fn add_spec(self, rhs: &'a CubicExtField<P>) -> CubicExtField<P> {
        CubicExtField::add_spec(self, *rhs)
    }
}

impl<'a, P: CubicExtConfig> core::ops::Add<&'a CubicExtField<P>> for CubicExtField<P> {
    type Output = CubicExtField<P>;

    fn add(self, other: &'a CubicExtField<P>) -> (r: CubicExtField<P>) {
        CubicExtField::add(self, other)
    }
}

impl<'a, P: CubicExtConfig> SubSpecImpl<&'a CubicExtField<P>> for CubicExtField<P> {
    open spec fn obeys_sub_spec() -> bool {
        true
    }

    open spec fn sub_req(self, rhs: &'a CubicExtField<P>) -> bool {
        self.wf() && rhs.wf()
    }

    open spec fn sub_spec(self, rhs: &'a CubicExtField<P>) -> CubicExtField<P> {
        CubicExtField::sub_spec(self, *rhs)
    }
}

impl<'a, P: CubicExtConfig> core::ops::Sub<&'a CubicExtField<P>> for CubicExtField<P> {
    type Output = CubicExtField<P>;

    fn sub(self, other: &'a CubicExtField<P>) -> (r: CubicExtField<P>) {
        CubicExtField::sub(self, other)
    }
}

impl<'a, P: CubicExtConfig> MulSpecImpl<&'a CubicExtField<P>> for CubicExtField<P> {
    open spec fn obeys_mul_spec() -> bool {
        true
    }

    open spec fn mul_req(self, rhs: &'a CubicExtField<P>) -> bool {
        self.wf() && rhs.wf()
    }

    open spec fn mul_spec(self, rhs: &'a CubicExtField<P>) -> CubicExtField<P> {
        CubicExtField::mul_spec(self, *rhs)
    }
}

impl<'a, P: CubicExtConfig> core::ops::Mul<&'a CubicExtField<P>> for CubicExtField<P> {
    type Output = CubicExtField<P>;

    fn mul(self, other: &'a CubicExtField<P>) -> (r: CubicExtField<P>) {
        CubicExtField::mul(self, other)
    }
}

impl<'a, P: CubicExtConfig> DivSpecImpl<&'a CubicExtField<P>> for CubicExtField<P> {
    open spec fn obeys_div_spec() -> bool {
        true
    }

    /// Division asks for a divisor that has an inverse.
    open spec fn div_req(self, rhs: &'a CubicExtField<P>) -> bool {
        self.wf() && rhs.wf() && rhs.inverse_spec() is Some
    }

    open spec fn div_spec(self, rhs: &'a CubicExtField<P>) -> CubicExtField<P> {
        CubicExtField::mul_spec(self, rhs.inverse_spec().unwrap())
    }
}

impl<'a, P: CubicExtConfig> core::ops::Div<&'a CubicExtField<P>> for CubicExtField<P> {
    type Output = CubicExtField<P>;

    fn div(self, other: &'a CubicExtField<P>) -> (r: CubicExtField<P>) {
        CubicExtField::div(self, other)
    }
}

impl<P: CubicExtConfig> NegSpecImpl for CubicExtField<P> {
    open spec fn obeys_neg_spec() -> bool {
        true
    }

    open spec fn neg_req(self) -> bool {
        self.wf()
    }

    open spec fn neg_spec(self) -> CubicExtField<P> {
        CubicExtField::neg_spec(self)
    }
}

impl<P: CubicExtConfig> core::ops::Neg for CubicExtField<P> {
    type Output = CubicExtField<P>;

    fn neg(self) -> (r: CubicExtField<P>) {
        CubicExtField::neg(self)
    }
}

} // verus!
