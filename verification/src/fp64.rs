//! The integers modulo a number that fits in one limb, as a field for small
//! towers.

use crate::buffers::{
    bytes_after_copy, le_limb, lemma_limb_bytes_round_trip, limb_byte, limb_bytes, SerBuffer,
};
use crate::field::{Comparison, Field};
use crate::serialize::{
    flag_mask, flag_mask_spec, lemma_masked_flags_wf, pow2_u8, Flags, SerializationError,
};
use vstd::arithmetic::div_mod::{
    lemma_add_mod_noop, lemma_add_mod_noop_right, lemma_fundamental_div_mod, lemma_mod_bound,
    lemma_mul_mod_noop_general, lemma_small_mod, lemma_sub_mod_noop, lemma_sub_mod_noop_right,
};
use vstd::arithmetic::mul::{lemma_mul_is_associative, lemma_mul_is_distributive_add};
use vstd::prelude::*;
use vstd::std_specs::bits::u64_leading_zeros;

verus! {

/// An integer modulo `P`, held as its residue below the modulus. A `P`
/// below 2 is read as 2.
#[derive(Clone, Copy, Debug, PartialEq, Eq, Hash)]
pub struct Fp64<const P: u64> {
    pub value: u64,
}

/// The residue of the product `a b` modulo `m`.
#[verifier::opaque]
pub open spec fn mul_mod(a: int, b: int, m: int) -> int {
    (a * b) % m
}

/// The Bezout coefficient of `a` that the Euclidean algorithm arrives at,
/// reduced modulo `m`, if the remainders `r0`, `r1` end in 1. `s0` and `s1`
/// are the coefficients that belong to `r0` and `r1`.
pub open spec fn euclid_inverse(m: int, r0: int, r1: int, s0: int, s1: int) -> Option<int>
    decreases r1,
{
    if r1 <= 0 {
        if r0 == 1 {
            Some(s0)
        } else {
            None
        }
    } else {
        euclid_inverse(m, r1, r0 % r1, s1, (s0 - (r0 / r1) * s1) % m)
    }
}

/// What `euclid_inverse` gives is a residue whose product with `a` is 1.
pub proof fn lemma_euclid_inverse(m: int, a: int, r0: int, r1: int, s0: int, s1: int)
    requires
        m >= 2,
        r0 >= 0,
        r1 >= 0,
        0 <= s0 < m,
        0 <= s1 < m,
        (s0 * a) % m == r0 % m,
        (s1 * a) % m == r1 % m,
    ensures
        euclid_inverse(m, r0, r1, s0, s1) matches Some(x) ==> 0 <= x < m && (x * a) % m == 1,
    decreases r1,
{
    if r1 <= 0 {
        if r0 == 1 {
            lemma_small_mod(1, m as nat);
        }
    } else {
        let q = r0 / r1;
        let s2 = (s0 - q * s1) % m;
        lemma_mod_bound(s0 - q * s1, m);
        lemma_mod_bound(r0, r1);
        lemma_fundamental_div_mod(r0, r1);
        // (s2 * a) % m == ((s0 - q s1) * a) % m
        lemma_mul_mod_noop_general(s0 - q * s1, a, m);
        assert((s0 - q * s1) * a == s0 * a - q * (s1 * a)) by (nonlinear_arith);
        // q (s1 a) is congruent to q r1
        lemma_mul_mod_noop_general(q, s1 * a, m);
        lemma_mul_mod_noop_general(q, r1, m);
        lemma_sub_mod_noop(s0 * a, q * (s1 * a), m);
        lemma_sub_mod_noop(r0, q * r1, m);
        assert(r0 % r1 == r0 - q * r1) by (nonlinear_arith)
            requires
                r0 == r1 * (r0 / r1) + r0 % r1,
                q == r0 / r1,
        ;
        lemma_euclid_inverse(m, a, r1, r0 % r1, s1, s2);
    }
}

/// The last remainder that is not zero of the Euclidean algorithm on `r0`
/// and `r1`: their greatest common divisor.
pub open spec fn euclid_gcd(r0: int, r1: int) -> int
    decreases r1,
{
    if r1 <= 0 {
        r0
    } else {
        euclid_gcd(r1, r0 % r1)
    }
}

/// `euclid_inverse` gives a coefficient exactly where the remainders end in
/// 1.
pub proof fn lemma_euclid_inverse_is_some(m: int, r0: int, r1: int, s0: int, s1: int)
    requires
        r1 >= 0,
    ensures
        euclid_inverse(m, r0, r1, s0, s1) is Some <==> euclid_gcd(r0, r1) == 1,
    decreases r1,
{
    if r1 > 0 {
        lemma_mod_bound(r0, r1);
        lemma_euclid_inverse_is_some(m, r1, r0 % r1, s1, (s0 - (r0 / r1) * s1) % m);
    }
}

/// The last remainder divides both numbers.
pub proof fn lemma_euclid_gcd_divides(r0: int, r1: int)
    requires
        r0 >= 0,
        r1 >= 0,
        r0 + r1 > 0,
    ensures
        euclid_gcd(r0, r1) > 0,
        r0 % euclid_gcd(r0, r1) == 0,
        r1 % euclid_gcd(r0, r1) == 0,
    decreases r1,
{
    let g = euclid_gcd(r0, r1);
    if r1 <= 0 {
        vstd::arithmetic::div_mod::lemma_mod_self_0(r0);
        lemma_small_mod(0, g as nat);
    } else {
        let q = r0 / r1;
        let rest = r0 % r1;
        lemma_mod_bound(r0, r1);
        lemma_euclid_gcd_divides(r1, rest);
        lemma_fundamental_div_mod(r0, r1);
        // r0 == r1 q + rest, and g divides r1 and rest
        lemma_mul_mod_noop_general(r1, q, g);
        assert(0 * q == 0);
        lemma_small_mod(0, g as nat);
        lemma_add_mod_noop(r1 * q, rest, g);
    }
}

/// Where the greatest common divisor of `m` and `a` is not 1, no `x` has
/// `x a` congruent to 1 modulo `m`.
pub proof fn lemma_no_inverse(m: int, a: int, x: int)
    requires
        m >= 2,
        a >= 0,
        euclid_gcd(m, a) != 1,
    ensures
        (x * a) % m != 1,
{
    let g = euclid_gcd(m, a);
    lemma_euclid_gcd_divides(m, a);
    if (x * a) % m == 1 {
        let k = (x * a) / m;
        lemma_fundamental_div_mod(x * a, m);
        // x a == m k + 1, and g divides x a and m k
        lemma_mul_mod_noop_general(x, a, g);
        lemma_mul_mod_noop_general(m, k, g);
        assert(x * 0 == 0 && 0 * k == 0);
        lemma_small_mod(0, g as nat);
        lemma_small_mod(1, g as nat);
        lemma_add_mod_noop(m * k, 1, g);
        assert(false);
    }
}

/// The bytes of a limb in little-endian order and a zero byte behind them:
/// what a buffer of one limb holds before flags are laid over it.
pub open spec fn padded_limb(value: u64) -> Seq<u8> {
    limb_bytes(value).push(0u8)
}

/// The eight bytes of the limb that an encoding of `n` bytes carries: its
/// bytes without the flags on the last of them, and zeros behind them.
pub open spec fn stripped_limb(bytes: Seq<u8>, n: int, flag_bits: u8) -> Seq<u8> {
    Seq::new(
        8,
        |i: int|
            if i < n - 1 {
                bytes[i]
            } else if i == n - 1 {
                bytes[i] & !flag_mask_spec(flag_bits)
            } else {
                0u8
            },
    )
}

/// A valid mask of flags lies inside the byte whose top bits are set.
pub proof fn lemma_flags_fit(flags: Flags)
    requires
        flags.wf(),
    ensures
        flags.mask & flag_mask_spec(flags.bit_size) == flags.mask,
{
    let b = flags.mask;
    let fm = flag_mask_spec(flags.bit_size);
    if flags.bit_size == 0 {
        assert(fm == 0x00u8);
        assert(pow2_u8(8) == 256);
        assert(b as int % 256 == 0);
        assert(b == 0);
        assert(0u8 & 0x00u8 == 0u8) by (bit_vector);
    } else if flags.bit_size == 1 {
        assert(fm == 0x80u8);
        assert(b % 128 == 0 ==> b & 0x80u8 == b) by (bit_vector);
    } else if flags.bit_size == 2 {
        assert(fm == 0xc0u8);
        assert(b % 64 == 0 ==> b & 0xc0u8 == b) by (bit_vector);
    } else if flags.bit_size == 3 {
        assert(fm == 0xe0u8);
        assert(b % 32 == 0 ==> b & 0xe0u8 == b) by (bit_vector);
    } else if flags.bit_size == 4 {
        assert(fm == 0xf0u8);
        assert(b % 16 == 0 ==> b & 0xf0u8 == b) by (bit_vector);
    } else if flags.bit_size == 5 {
        assert(fm == 0xf8u8);
        assert(b % 8 == 0 ==> b & 0xf8u8 == b) by (bit_vector);
    } else if flags.bit_size == 6 {
        assert(fm == 0xfcu8);
        assert(b % 4 == 0 ==> b & 0xfcu8 == b) by (bit_vector);
    } else if flags.bit_size == 7 {
        assert(fm == 0xfeu8);
        assert(b % 2 == 0 ==> b & 0xfeu8 == b) by (bit_vector);
    } else {
        assert(fm == 0xffu8);
        assert(b & 0xffu8 == b) by (bit_vector);
    }
}

/// Below a modulus `m`, byte `i` of a value has no bit at or above the
/// bits of `m`: it is zero where it starts there, and free of the top
/// `flag_bits` bits where they do.
pub proof fn lemma_free_bits(v: u64, m: u64, i: int, flag_bits: u8)
    requires
        v < m,
        0 <= i < 8,
        flag_bits <= 8,
    ensures
        8 * i >= 64 - u64_leading_zeros(m) ==> limb_byte(v, i) == 0,
        8 * i + 8 - flag_bits >= 64 - u64_leading_zeros(m) ==> limb_byte(v, i) & flag_mask_spec(
            flag_bits,
        ) == 0,
{
    vstd::std_specs::bits::axiom_u64_leading_zeros(m);
    let bits = 64 - u64_leading_zeros(m);
    let fm = flag_mask_spec(flag_bits);
    let iu = i as u64;
    let byte = limb_byte(v, i);
    assert(byte == ((v >> (8 * iu) as u64) & 0xff) as u8);
    if bits < 64 {
        let k = bits as u64;
        assert(v >> k == 0) by (bit_vector)
            requires
                v < m,
                m >> k == 0,
                k < 64,
        ;
        if 8 * i >= bits {
            assert(((v >> (8 * iu) as u64) & 0xff) as u8 == 0) by (bit_vector)
                requires
                    v >> k == 0,
                    8 * iu >= k,
                    iu < 8,
                    k < 64,
            ;
        }
        if 8 * i + 8 - flag_bits >= bits {
            let fb = flag_bits as u64;
            let wide = (0xff00u64 >> fb) & 0xff;
            assert((((v >> (8 * iu) as u64) & 0xff) & wide) == 0) by (bit_vector)
                requires
                    v >> k == 0,
                    8 * iu + 8 - fb >= k,
                    iu < 8,
                    k < 64,
                    fb <= 8,
                    wide == (0xff00u64 >> fb) & 0xff,
            ;
            lemma_wide_mask(flag_bits);
            let b64 = (v >> (8 * iu) as u64) & 0xff;
            assert(b64 <= 0xff) by (bit_vector)
                requires
                    b64 == (v >> (8 * iu) as u64) & 0xff,
            ;
            assert(b64 & wide == 0 ==> (b64 as u8) & (wide as u8) == 0) by (bit_vector)
                requires
                    b64 <= 0xff,
                    wide <= 0xff,
            ;
        }
    } else {
        if 8 * i + 8 - flag_bits >= bits {
            assert(fm == 0x00u8);
            assert(byte & 0x00u8 == 0) by (bit_vector);
        }
    }
}

/// The byte whose top `flag_bits` bits are set, by a shift.
pub proof fn lemma_wide_mask(flag_bits: u8)
    requires
        flag_bits <= 8,
    ensures
        ((0xff00u64 >> (flag_bits as u64)) & 0xff) as u8 == flag_mask_spec(flag_bits),
        (0xff00u64 >> (flag_bits as u64)) & 0xff <= 0xff,
{
    let fb = flag_bits as u64;
    assert(fb == 0 ==> (0xff00u64 >> fb) & 0xff == 0x00) by (bit_vector);
    assert(fb == 1 ==> (0xff00u64 >> fb) & 0xff == 0x80) by (bit_vector);
    assert(fb == 2 ==> (0xff00u64 >> fb) & 0xff == 0xc0) by (bit_vector);
    assert(fb == 3 ==> (0xff00u64 >> fb) & 0xff == 0xe0) by (bit_vector);
    assert(fb == 4 ==> (0xff00u64 >> fb) & 0xff == 0xf0) by (bit_vector);
    assert(fb == 5 ==> (0xff00u64 >> fb) & 0xff == 0xf8) by (bit_vector);
    assert(fb == 6 ==> (0xff00u64 >> fb) & 0xff == 0xfc) by (bit_vector);
    assert(fb == 7 ==> (0xff00u64 >> fb) & 0xff == 0xfe) by (bit_vector);
    assert(fb == 8 ==> (0xff00u64 >> fb) & 0xff == 0xff) by (bit_vector);
}

impl<const P: u64> Fp64<P> {
    /// The modulus: `P`, or 2 where `P` is below 2.
    pub open spec fn modulus_spec() -> int {
        if P < 2 {
            2
        } else {
            P as int
        }
    }

    /// The modulus: `P`, or 2 where `P` is below 2.
    pub fn modulus() -> (m: u64)
        ensures
            m == Self::modulus_spec(),
            m >= 2,
    {
        if P < 2 {
            2
        } else {
            P
        }
    }

    /// The number of bits of the modulus.
    pub open spec fn modulus_bits_spec() -> int {
        64 - u64_leading_zeros(Self::modulus_spec() as u64)
    }

    /// The number of bits of the modulus.
    pub fn modulus_bits() -> (r: u32)
        ensures
            r == Self::modulus_bits_spec(),
            2 <= r <= 64,
    {
        let m = Self::modulus();
        proof {
            vstd::std_specs::bits::axiom_u64_leading_zeros(m);
            let lz = u64_leading_zeros(m);
            if lz >= 63 {
                let k = (64 - lz) as u64;
                assert(m >> k == 0 && k <= 1 ==> m < 2) by (bit_vector);
            }
        }
        64 - m.leading_zeros()
    }

    /// The mask of the bits that a residue can have: as many low bits as
    /// the modulus has.
    pub open spec fn residue_mask_spec() -> u64 {
        u64::MAX >> (u64_leading_zeros(Self::modulus_spec() as u64) as u64)
    }

    /// The mask of the bits that a residue can have.
    pub fn residue_mask() -> (r: u64)
        ensures
            r == Self::residue_mask_spec(),
    {
        broadcast use vstd::std_specs::bits::axiom_u64_leading_zeros;

        let m = Self::modulus();
        let shave = m.leading_zeros();
        assert(shave < 64);
        u64::MAX >> shave
    }

    /// The element that `value` stands for.
    pub open spec fn new_spec(value: u64) -> Self {
        Fp64 { value: (value as int % Self::modulus_spec()) as u64 }
    }

    /// The residue of `value`.
    pub fn new(value: u64) -> (r: Self)
        ensures
            r == Self::new_spec(value),
            r.wf(),
    {
        proof {
            lemma_mod_bound(value as int, Self::modulus_spec());
        }
        Fp64 { value: value % Self::modulus() }
    }

    /// `inverse_spec` gives an inverse exactly where the residue has one:
    /// it gives none only where no residue multiplies it to one.
    pub proof fn lemma_inverse_is_complete(a: Self, x: Self)
        requires
            a.wf(),
            x.wf(),
            a.inverse_spec() is None,
        ensures
            a.mul_spec(x) != Self::one_spec(),
            x.mul_spec(a) != Self::one_spec(),
    {
        reveal(mul_mod);
        let m = Self::modulus_spec();
        lemma_euclid_inverse_is_some(m, m, a.value as int, 0, 1);
        lemma_no_inverse(m, a.value as int, x.value as int);
        assert(a.value * x.value == x.value * a.value) by (nonlinear_arith);
    }

    fn reduce(x: u128) -> (r: Self)
        ensures
            r.value == x as int % Self::modulus_spec(),
            r == (Fp64::<P> { value: (x as int % Self::modulus_spec()) as u64 }),
            r.wf(),
    {
        let m = Self::modulus() as u128;
        proof {
            lemma_mod_bound(x as int, Self::modulus_spec());
        }
        Fp64 { value: (x % m) as u64 }
    }
}

/// `zeroize::Zeroize::zeroize` on a `u64`, which overwrites the value with
/// the default of its type, that is with 0.
#[verifier::external_body]
fn zeroize_u64(x: &mut u64)
    ensures
        *final(x) == 0,
{
    zeroize::Zeroize::zeroize(x);
}

impl<const P: u64> Field for Fp64<P> {
    type BasePrimeField = Fp64<P>;

    open spec fn wf(&self) -> bool {
        self.value < Self::modulus_spec()
    }

    open spec fn prime_wf(e: Fp64<P>) -> bool {
        e.wf()
    }

    open spec fn zero_spec() -> Self {
        Fp64 { value: 0 }
    }

    open spec fn one_spec() -> Self {
        Fp64 { value: 1 }
    }

    open spec fn add_spec(self, rhs: Self) -> Self {
        Fp64 { value: ((self.value + rhs.value) % Self::modulus_spec()) as u64 }
    }

    open spec fn neg_spec(self) -> Self {
        Fp64 { value: ((Self::modulus_spec() - self.value) % Self::modulus_spec()) as u64 }
    }

    open spec fn mul_spec(self, rhs: Self) -> Self {
        Fp64 { value: mul_mod(self.value as int, rhs.value as int, Self::modulus_spec()) as u64 }
    }

    open spec fn inverse_spec(self) -> Option<Self> {
        match euclid_inverse(Self::modulus_spec(), Self::modulus_spec(), self.value as int, 0, 1) {
            Some(x) => Some(Fp64 { value: x as u64 }),
            None => None,
        }
    }

    /// The Frobenius maps of a prime field leave every element where it is.
    open spec fn frobenius_spec(self, power: nat) -> Self {
        self
    }

    open spec fn degree_spec() -> nat {
        1
    }

    open spec fn compare_spec(self, rhs: Self) -> Comparison {
        if self.value < rhs.value {
            Comparison::Less
        } else if self.value == rhs.value {
            Comparison::Equal
        } else {
            Comparison::Greater
        }
    }

    open spec fn from_prime_spec(e: Fp64<P>) -> Self {
        e
    }

    open spec fn mul_by_prime_spec(self, e: Fp64<P>) -> Self {
        self.mul_spec(e)
    }

    open spec fn to_elems_spec(self) -> Seq<Fp64<P>> {
        seq![self]
    }

    open spec fn from_elems_spec(elems: Seq<Fp64<P>>) -> Option<Self> {
        if elems.len() == 1 && elems[0].wf() {
            Some(elems[0])
        } else {
            None
        }
    }

    /// As many bytes as hold the bits of the modulus and of the flags.
    open spec fn encoded_len_spec(flag_bits: u8) -> nat {
        ((Self::modulus_bits_spec() + flag_bits + 7) / 8) as nat
    }

    /// The low bytes of the residue in little-endian order, as many as the
    /// length asks for, with the flags laid over the last of them.
    open spec fn encoding_spec(self, flags: Flags) -> Seq<u8> {
        let n = Self::encoded_len_spec(flags.bit_size) as int;
        let padded = padded_limb(self.value);
        padded.take(n).update(n - 1, padded[n - 1] | flags.mask)
    }

    /// The top bits of the last byte are the flags; the bytes without them
    /// are the low bytes of a limb, which is the residue if it is below the
    /// modulus.
    /// Flags are looked at before any byte is written.
    open spec fn refused_encoding_spec(self) -> Seq<u8> {
        Seq::<u8>::empty()
    }

    open spec fn decoding_spec(bytes: Seq<u8>, flag_bits: u8) -> Result<
        (Self, Flags),
        SerializationError,
    > {
        let n = Self::encoded_len_spec(flag_bits) as int;
        if flag_bits > 8 {
            Err(SerializationError::NotEnoughSpace)
        } else if bytes.len() < n {
            Err(SerializationError::UnexpectedEof)
        } else {
            let value = le_limb(stripped_limb(bytes, n, flag_bits));
            let mask = bytes[n - 1] & flag_mask_spec(flag_bits);
            let flags = Flags { bit_size: flag_bits, mask };
            if value >= Self::modulus_spec() {
                Err(SerializationError::InvalidData)
            } else {
                Ok((Fp64 { value: value as u64 }, flags))
            }
        }
    }

    /// The bytes fill a zeroed buffer of one limb; the limb, cut down to
    /// the bits of the modulus, is the residue if it is below the modulus,
    /// and the top bits of the metadata byte are the flags. More than eight
    /// bits of flags give nothing.
    open spec fn from_random_bytes_spec(bytes: Seq<u8>, flag_bits: u8) -> Option<(Self, Flags)> {
        let filled = bytes_after_copy(Seq::new(9, |i: int| 0u8), bytes, 1);
        let value = (le_limb(filled.take(8)) as u64) & Self::residue_mask_spec();
        let flags = Flags { bit_size: flag_bits, mask: filled[8] & flag_mask_spec(flag_bits) };
        if flag_bits <= 8 && value < Self::modulus_spec() {
            Some((Fp64 { value }, flags))
        } else {
            None
        }
    }

    proof fn lemma_constants() {
    }

    proof fn lemma_closed(a: Self, b: Self) {
        reveal(mul_mod);
        let m = Self::modulus_spec();
        lemma_mod_bound(a.value + b.value, m);
        lemma_mod_bound(m - a.value, m);
        lemma_mod_bound(a.value * b.value, m);
    }

    proof fn lemma_add_commutes(a: Self, b: Self) {
    }

    proof fn lemma_add_associates(a: Self, b: Self, c: Self) {
        let m = Self::modulus_spec();
        lemma_mod_bound(a.value + b.value, m);
        lemma_mod_bound(b.value + c.value, m);
        lemma_add_mod_noop(a.value + b.value, c.value as int, m);
        lemma_add_mod_noop(a.value as int, b.value + c.value, m);
        lemma_small_mod(a.value as nat, m as nat);
        lemma_small_mod(c.value as nat, m as nat);
    }

    proof fn lemma_add_zero(a: Self) {
        lemma_small_mod(a.value as nat, Self::modulus_spec() as nat);
    }

    proof fn lemma_add_neg(a: Self) {
        let m = Self::modulus_spec();
        lemma_mod_bound(m - a.value, m);
        lemma_add_mod_noop_right(a.value as int, m - a.value, m);
        vstd::arithmetic::div_mod::lemma_mod_self_0(m);
    }

    proof fn lemma_mul_commutes(a: Self, b: Self) {
        reveal(mul_mod);
        assert(a.value * b.value == b.value * a.value) by (nonlinear_arith);
    }

    proof fn lemma_mul_associates(a: Self, b: Self, c: Self) {
        reveal(mul_mod);
        let m = Self::modulus_spec();
        lemma_mod_bound(a.value * b.value, m);
        lemma_mod_bound(b.value * c.value, m);
        lemma_mul_mod_noop_general(a.value * b.value, c.value as int, m);
        lemma_mul_mod_noop_general(a.value as int, b.value * c.value, m);
        lemma_mul_is_associative(a.value as int, b.value as int, c.value as int);
    }

    proof fn lemma_mul_one(a: Self) {
        reveal(mul_mod);
        lemma_small_mod(a.value as nat, Self::modulus_spec() as nat);
    }

    proof fn lemma_mul_distributes(a: Self, b: Self, c: Self) {
        reveal(mul_mod);
        let m = Self::modulus_spec();
        lemma_mod_bound(b.value + c.value, m);
        lemma_mod_bound(a.value * b.value, m);
        lemma_mod_bound(a.value * c.value, m);
        lemma_mul_mod_noop_general(a.value as int, b.value + c.value, m);
        lemma_mul_is_distributive_add(a.value as int, b.value as int, c.value as int);
        lemma_add_mod_noop(a.value * b.value, a.value * c.value, m);
    }

    proof fn lemma_inverse(a: Self) {
        reveal(mul_mod);
        let m = Self::modulus_spec();
        lemma_small_mod(a.value as nat, m as nat);
        vstd::arithmetic::div_mod::lemma_mod_self_0(m);
        assert(0 * a.value == 0);
        assert(1 * a.value == a.value);
        lemma_euclid_inverse(m, a.value as int, m, a.value as int, 0, 1);
        if a.inverse_spec() is Some {
            let x = euclid_inverse(m, m, a.value as int, 0, 1).unwrap();
            assert(x * a.value == a.value * x) by (nonlinear_arith);
        }
        assert(euclid_inverse(m, m, 0, 0, 1) is None);
    }

    proof fn lemma_frobenius(a: Self, b: Self, i: nat, j: nat) {
    }

    proof fn lemma_compare(a: Self, b: Self) {
    }

    proof fn lemma_prime(a: Self, e: Fp64<P>) {
    }

    proof fn lemma_to_elems(a: Self) {
    }

    proof fn lemma_from_elems(elems: Seq<Fp64<P>>) {
    }

    proof fn lemma_encoding(a: Self, flags: Flags) {
        let fb = flags.bit_size;
        let n = Self::encoded_len_spec(fb) as int;
        let m = Self::modulus_spec() as u64;
        let padded = padded_limb(a.value);
        let enc = a.encoding_spec(flags);
        let fm = flag_mask_spec(fb);
        vstd::std_specs::bits::axiom_u64_leading_zeros(m);
        lemma_limb_bytes_round_trip(a.value);
        lemma_flags_fit(flags);
        let low = padded[n - 1];
        assert(low & fm == 0) by {
            if n - 1 < 8 {
                lemma_free_bits(a.value, m, n - 1, fb);
            } else {
                assert(0u8 & fm == 0) by (bit_vector);
            }
        }
        let mask = flags.mask;
        assert((low | mask) & fm == mask && (low | mask) & !fm == low) by (bit_vector)
            requires
                low & fm == 0,
                mask & fm == mask,
        ;
        assert(stripped_limb(enc, n, fb) =~= limb_bytes(a.value)) by {
            assert forall|i: int| 0 <= i < 8 implies stripped_limb(enc, n, fb)[i] == limb_bytes(
                a.value,
            )[i] by {
                if i > n - 1 {
                    lemma_free_bits(a.value, m, i, fb);
                }
            }
        }
    }

    proof fn lemma_decoding(bytes: Seq<u8>, flag_bits: u8) {
        let n = Self::encoded_len_spec(flag_bits) as int;
        vstd::std_specs::bits::axiom_u64_leading_zeros(Self::modulus_spec() as u64);
        if bytes.len() >= n {
            assert(stripped_limb(bytes.take(n), n, flag_bits) =~= stripped_limb(
                bytes,
                n,
                flag_bits,
            ));
            if flag_bits <= 8 {
                lemma_masked_flags_wf(bytes[n - 1], flag_bits);
            }
        }
    }

    fn is_valid(&self) -> (r: bool) {
        self.value < Self::modulus()
    }

    fn zero() -> (r: Self) {
        Fp64 { value: 0 }
    }

    fn one() -> (r: Self) {
        Fp64 { value: 1 }
    }

    fn is_zero(&self) -> (r: bool) {
        self.value == 0
    }

    fn is_one(&self) -> (r: bool) {
        self.value == 1
    }

    fn equals(&self, rhs: &Self) -> (r: bool) {
        self.value == rhs.value
    }

    fn compare(&self, rhs: &Self) -> (r: Comparison) {
        if self.value < rhs.value {
            Comparison::Less
        } else if self.value == rhs.value {
            Comparison::Equal
        } else {
            Comparison::Greater
        }
    }

    fn add(&self, rhs: &Self) -> (r: Self) {
        Self::reduce(self.value as u128 + rhs.value as u128)
    }

    fn sub(&self, rhs: &Self) -> (r: Self) {
        let m = Self::modulus();
        proof {
            let mi = Self::modulus_spec();
            lemma_mod_bound(mi - rhs.value, mi);
            lemma_add_mod_noop_right(self.value as int, mi - rhs.value, mi);
        }
        Self::reduce(self.value as u128 + (m - rhs.value) as u128)
    }

    fn neg(&self) -> (r: Self) {
        let m = Self::modulus();
        Self::reduce((m - self.value) as u128)
    }

    fn double(&self) -> (r: Self) {
        let r = Self::reduce(self.value as u128 + self.value as u128);
        assert(r.value == (self.value + self.value) % Self::modulus_spec());
        r
    }

    fn mul(&self, rhs: &Self) -> (r: Self) {
        proof {
            reveal(mul_mod);
            assert(self.value * rhs.value <= u64::MAX * u64::MAX) by (nonlinear_arith)
                requires
                    self.value <= u64::MAX,
                    rhs.value <= u64::MAX,
            ;
        }
        Self::reduce(self.value as u128 * rhs.value as u128)
    }

    fn square(&self) -> (r: Self) {
        self.mul(self)
    }

    fn inverse(&self) -> (r: Option<Self>) {
        let m = Self::modulus();
        let mut r0: u64 = m;
        let mut r1: u64 = self.value;
        let mut s0: u64 = 0;
        let mut s1: u64 = 1;
        while r1 > 0
            invariant
                m == Self::modulus_spec(),
                s0 < m,
                s1 < m,
                euclid_inverse(m as int, r0 as int, r1 as int, s0 as int, s1 as int)
                    == euclid_inverse(m as int, m as int, self.value as int, 0, 1),
            decreases r1,
        {
            let q = r0 / r1;
            assert((q % m) * s1 <= u64::MAX * u64::MAX) by (nonlinear_arith)
                requires
                    (q % m) <= u64::MAX,
                    s1 <= u64::MAX,
            ;
            let t = Self::reduce((q % m) as u128 * s1 as u128);
            let s2 = Self::reduce(s0 as u128 + (m - t.value) as u128);
            proof {
                let mi = m as int;
                lemma_mod_bound(r0 as int, r1 as int);
                // t == (q s1) % m, and s2 == (s0 - q s1) % m
                lemma_mul_mod_noop_general(q as int, s1 as int, mi);
                lemma_sub_mod_noop_right(s0 as int, q * s1, mi);
                lemma_add_mod_noop_right(s0 as int, mi - t.value, mi);
                assert((s0 + (mi - t.value)) % mi == (s0 - t.value) % mi) by {
                    vstd::arithmetic::div_mod::lemma_mod_add_multiples_vanish(s0 - t.value, mi);
                }
                assert(s2.value == (s0 - q * s1) % mi);
            }
            let r2 = r0 % r1;
            r0 = r1;
            r1 = r2;
            s0 = s1;
            s1 = s2.value;
        }
        if r0 == 1 {
            Some(Fp64 { value: s0 })
        } else {
            None
        }
    }

    fn frobenius_map_in_place(&mut self, power: usize) {
    }

    fn extension_degree() -> (r: u64) {
        1
    }

    fn from_base_prime_field(e: Fp64<P>) -> (r: Self) {
        e
    }

    fn mul_by_base_prime_field(&self, e: &Fp64<P>) -> (r: Self) {
        self.mul(e)
    }

    fn to_base_prime_field_elements(&self) -> (r: Vec<Fp64<P>>) {
        let mut elems = Vec::new();
        elems.push(*self);
        assert(elems@ =~= seq![*self]);
        elems
    }

    fn from_base_prime_field_elems(elems: &[Fp64<P>]) -> (r: Option<Self>) {
        if elems.len() == 1 && elems[0].is_valid() {
            Some(elems[0])
        } else {
            None
        }
    }

    fn serialized_size_with_flags(flag_bits: u8) -> (r: usize) {
        (Self::modulus_bits() as usize + flag_bits as usize + 7) / 8
    }

    fn serialize_with_flags(&self, out: &mut Vec<u8>, flags: Flags) -> (r: Result<
        (),
        SerializationError,
    >) {
        if !flags.is_valid() {
            assert(out@ =~= old(out)@ + Seq::<u8>::empty());
            return Err(SerializationError::NotEnoughSpace);
        }
        let size = Self::serialized_size_with_flags(flags.bit_size);
        let mut w = SerBuffer::<1>::zeroed();
        assert(w.last == w@[8]);
        let limbs: [u64; 1] = [self.value];
        w.copy_from_u64_slice(&limbs);
        assert(w@ =~= padded_limb(self.value)) by {
            assert(w.buffers[0]@ == limb_bytes(self.value));
            assert(w@[8] == w.last);
            assert forall|i: int| 0 <= i < 8 implies w@[i] == limb_bytes(self.value)[i] by {
                assert(w@[i] == w.buffers[i / 8][i % 8]);
            }
        }
        let last = w.get_mut(size - 1);
        *last = *last | flags.mask;
        w.write_up_to(out, size);
        assert(w@.take(size as int) =~= self.encoding_spec(flags));
        Ok(())
    }

    fn deserialize_with_flags(bytes: &[u8], flag_bits: u8) -> (r: Result<
        (Self, Flags),
        SerializationError,
    >) {
        if flag_bits > 8 {
            return Err(SerializationError::NotEnoughSpace);
        }
        let size = Self::serialized_size_with_flags(flag_bits);
        let mut masked = SerBuffer::<1>::zeroed();
        match masked.read_exact_up_to(bytes, size) {
            Err(_) => {
                return Err(SerializationError::UnexpectedEof);
            },
            Ok(()) => {},
        }
        let mask = flag_mask(flag_bits);
        let last = *masked.get(size - 1);
        let flags = Flags { bit_size: flag_bits, mask: last & mask };
        *masked.get_mut(size - 1) = last & !mask;
        assert(masked.buffers[0]@ =~= stripped_limb(bytes@, size as int, flag_bits)) by {
            assert forall|k: int| 0 <= k < 8 implies masked.buffers[0]@[k] == stripped_limb(
                bytes@,
                size as int,
                flag_bits,
            )[k] by {
                assert(masked@[k] == masked.buffers[k / 8][k % 8]);
            }
        }
        let value = masked.to_bigint().0[0];
        if value >= Self::modulus() {
            return Err(SerializationError::InvalidData);
        }
        Ok((Fp64 { value }, flags))
    }

    fn from_random_bytes_with_flags(bytes: &[u8], flag_bits: u8) -> (r: Option<(Self, Flags)>) {
        if flag_bits > 8 {
            return None;
        }
        let mut buffer = SerBuffer::<1>::zeroed();
        buffer.copy_from_u8_slice(bytes);
        let flags = Flags { bit_size: flag_bits, mask: *buffer.get(8) & flag_mask(flag_bits) };
        proof {
            lemma_masked_flags_wf(buffer@[8], flag_bits);
            assert(buffer.buffers[0]@ =~= buffer@.take(8)) by {
                assert forall|k: int| 0 <= k < 8 implies buffer.buffers[0]@[k] == buffer@.take(
                    8,
                )[k] by {
                    assert(buffer@[k] == buffer.buffers[k / 8][k % 8]);
                }
            }
        }
        let value = buffer.to_bigint().0[0] & Self::residue_mask();
        if value < Self::modulus() {
            Some((Fp64 { value }, flags))
        } else {
            None
        }
    }

    fn zeroize(&mut self) {
        zeroize_u64(&mut self.value);
    }
}

} // verus!
