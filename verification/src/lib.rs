//! Arithmetic of towers of cubic field extensions, with the scratch buffers
//! that multiplication and encoding work in.
//!
//! - `buffers`: fixed-width buffers for double-width products, for encodings
//!   with a trailing metadata byte, and for reading integers bit by bit.
//! - `field`: what a tower asks of the field below it.
//! - `serialize`: flags, modes and errors of encodings.
//! - `cubic_extension`: the parameters of a cubic extension and the
//!   arithmetic of its elements.
//! - `ops`, `ordering`: the operators and the order of the elements.
//! - `algebra`: identities of commutative rings and the normal forms that
//!   prove them.
//! - `tower_laws`: the laws of the arithmetic of a cubic extension.
//! - `tower`: a cubic extension as the base of a further one.
//! - `fp64`, `fp3`, `f7`: the integers modulo a one-limb number, their cubic
//!   extensions, and the tower over the integers modulo 7.
//! - `to_field_vec`: values as vectors of field elements.
//! - `bandersnatch`, `secp384r1`: parameter sets of two curves.

pub mod algebra;
pub mod bandersnatch;
pub mod buffers;
pub mod cubic_extension;
pub mod f7;
pub mod field;
pub mod fp3;
pub mod fp64;
pub mod ops;
pub mod ordering;
pub mod secp384r1;
pub mod serialize;
pub mod to_field_vec;
pub mod tower;
pub mod tower_laws;
