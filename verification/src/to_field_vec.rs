//! Values as vectors of field elements.

use crate::cubic_extension::{CubicExtConfig, CubicExtField};
use crate::field::Field;
use crate::fp64::Fp64;
use vstd::prelude::*;
use vstd::slice::slice_to_vec;

verus! {

/// Whether a conversion gave what it was to give: the same elements, or
/// nothing where there are none to give.
pub open spec fn gives<F>(r: Option<Vec<F>>, expected: Option<Seq<F>>) -> bool {
    match (r, expected) {
        (Some(v), Some(s)) => v@ == s,
        (None, None) => true,
        _ => false,
    }
}

/// Types that can be converted to a vector of elements of `F`.
pub trait ToConstraintField<F> {
    /// The elements that the value is converted to, if it can be.
    spec fn field_elements_spec(&self) -> Option<Seq<F>>;

    fn to_field_elements(&self) -> (r: Option<Vec<F>>)
        ensures
            gives(r, self.field_elements_spec()),
    ;
}

/// A truth value is one or zero.
impl<F: Field> ToConstraintField<F> for bool {
    open spec fn field_elements_spec(&self) -> Option<Seq<F>> {
        Some(
            seq![if *self {
                F::one_spec()
            } else {
                F::zero_spec()
            }],
        )
    }

    fn to_field_elements(&self) -> (r: Option<Vec<F>>) {
        let mut elems = Vec::new();
        if *self {
            elems.push(F::one());
        } else {
            elems.push(F::zero());
        }
        let ghost expected = <bool as ToConstraintField<F>>::field_elements_spec(self).unwrap();
        assert(elems@ =~= expected);
        Some(elems)
    }
}

/// A residue is itself.
impl<const P: u64> ToConstraintField<Fp64<P>> for Fp64<P> {
    open spec fn field_elements_spec(&self) -> Option<Seq<Fp64<P>>> {
        Some(seq![*self])
    }

    fn to_field_elements(&self) -> (r: Option<Vec<Fp64<P>>>) {
        let mut elems = Vec::new();
        elems.push(*self);
        assert(elems@ =~= seq![*self]);
        Some(elems)
    }
}

/// A slice of elements is its elements.
impl<F: Field> ToConstraintField<F> for [F] {
    open spec fn field_elements_spec(&self) -> Option<Seq<F>> {
        Some(self@)
    }

    fn to_field_elements(&self) -> (r: Option<Vec<F>>) {
        Some(slice_to_vec(self))
    }
}

/// The empty value is no element.
impl<F: Field> ToConstraintField<F> for () {
    open spec fn field_elements_spec(&self) -> Option<Seq<F>> {
        Some(Seq::<F>::empty())
    }

    fn to_field_elements(&self) -> (r: Option<Vec<F>>) {
        Some(Vec::new())
    }
}

/// An element of a cubic extension is the elements of `c0`, then those of
/// `c1`, then those of `c2`; it is nothing where one of them is.
impl<P: CubicExtConfig> ToConstraintField<<P::BaseField as Field>::BasePrimeField> for CubicExtField<
    P,
> where P::BaseField: ToConstraintField<<P::BaseField as Field>::BasePrimeField> {
    open spec fn field_elements_spec(&self) -> Option<
        Seq<<P::BaseField as Field>::BasePrimeField>,
    > {
        match (
            self.c0.field_elements_spec(),
            self.c1.field_elements_spec(),
            self.c2.field_elements_spec(),
        ) {
            (Some(a), Some(b), Some(c)) => Some(a + b + c),
            _ => None,
        }
    }

    fn to_field_elements(&self) -> (r: Option<Vec<<P::BaseField as Field>::BasePrimeField>>) {
        let mut res = match self.c0.to_field_elements() {
            Some(elems) => elems,
            None => {
                return None;
            },
        };
        let mut second = match self.c1.to_field_elements() {
            Some(elems) => elems,
            None => {
                return None;
            },
        };
        let mut third = match self.c2.to_field_elements() {
            Some(elems) => elems,
            None => {
                return None;
            },
        };
        res.append(&mut second);
        res.append(&mut third);
        Some(res)
    }
}

} // verus!
