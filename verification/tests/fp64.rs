use tower_ff::field::{Comparison, Field};
use tower_ff::serialize::{flag_mask, Flags, SerializationError};
use tower_ff::fp64::Fp64;

const M61: u64 = (1 << 61) - 1;

type F7 = Fp64<7>;
type Big = Fp64<M61>;
type Z8 = Fp64<8>;

#[test]
fn residues_are_reduced() {
    assert_eq!(F7::new(9).value, 2);
    assert_eq!(F7::new(7), F7::zero());
    assert_eq!(Fp64::<0>::new(5).value, 1);
    assert_eq!(Fp64::<1>::modulus(), 2);
    assert_eq!(F7::modulus(), 7);
}

#[test]
fn arithmetic_modulo_seven() {
    let a = F7::new(5);
    let b = F7::new(4);
    assert_eq!(a.add(&b), F7::new(2));
    assert_eq!(a.sub(&b), F7::new(1));
    assert_eq!(b.sub(&a), F7::new(6));
    assert_eq!(a.mul(&b), F7::new(6));
    assert_eq!(a.neg(), F7::new(2));
    assert_eq!(F7::zero().neg(), F7::zero());
    assert_eq!(a.double(), F7::new(3));
    assert_eq!(a.square(), F7::new(4));
    assert_eq!(a.mul_by_base_prime_field(&b), F7::new(6));
    assert_eq!(F7::from_base_prime_field(b), b);
    assert_eq!(F7::extension_degree(), 1);
}

#[test]
fn arithmetic_with_a_modulus_of_sixty_one_bits() {
    let a = Big::new(M61 - 1);
    let b = Big::new(M61 - 2);
    // (-1) + (-2) = -3, (-1)(-2) = 2
    assert_eq!(a.add(&b), Big::new(M61 - 3));
    assert_eq!(a.mul(&b), Big::new(2));
    assert_eq!(a.square(), Big::one());
    assert_eq!(a.inverse(), Some(a));
    let c = Big::new(123_456_789_012_345);
    assert_eq!(c.mul(&c.inverse().unwrap()), Big::one());
    assert_eq!(c.sub(&c), Big::zero());
}

#[test]
fn inverses_modulo_seven() {
    assert_eq!(F7::zero().inverse(), None);
    for v in 1..7 {
        let a = F7::new(v);
        let inv = a.inverse().unwrap();
        assert_eq!(a.mul(&inv), F7::one());
    }
    assert_eq!(F7::new(3).inverse(), Some(F7::new(5)));
}

#[test]
fn only_units_have_inverses_modulo_eight() {
    for v in 0..8 {
        let a = Z8::new(v);
        match a.inverse() {
            Some(inv) => {
                assert_eq!(v % 2, 1);
                assert_eq!(a.mul(&inv), Z8::one());
            },
            None => assert_eq!(v % 2, 0),
        }
    }
}

#[test]
fn frobenius_map_of_a_prime_field_is_the_identity() {
    let mut a = F7::new(3);
    a.frobenius_map_in_place(5);
    assert_eq!(a, F7::new(3));
}

#[test]
fn comparison_is_by_residue() {
    assert_eq!(F7::new(2).compare(&F7::new(5)), Comparison::Less);
    assert_eq!(F7::new(5).compare(&F7::new(5)), Comparison::Equal);
    assert_eq!(F7::new(6).compare(&F7::new(5)), Comparison::Greater);
    assert!(F7::new(5).equals(&F7::new(12)));
    assert!(F7::new(1).is_one());
    assert!(F7::new(14).is_zero());
}

#[test]
fn coordinates_of_a_prime_field_element() {
    let a = F7::new(3);
    assert_eq!(a.to_base_prime_field_elements(), vec![a]);
    assert_eq!(F7::from_base_prime_field_elems(&[a]), Some(a));
    assert_eq!(F7::from_base_prime_field_elems(&[]), None);
    assert_eq!(F7::from_base_prime_field_elems(&[a, a]), None);
}

#[test]
fn encoding_is_as_short_as_modulus_and_flags_allow() {
    assert_eq!(F7::modulus_bits(), 3);
    assert_eq!(Big::modulus_bits(), 61);
    assert_eq!(Fp64::<{ u64::MAX }>::modulus_bits(), 64);
    assert_eq!(F7::serialized_size_with_flags(0), 1);
    assert_eq!(F7::serialized_size_with_flags(5), 1);
    assert_eq!(F7::serialized_size_with_flags(6), 2);
    assert_eq!(Big::serialized_size_with_flags(0), 8);
    assert_eq!(Big::serialized_size_with_flags(3), 8);
    assert_eq!(Big::serialized_size_with_flags(4), 9);
    assert_eq!(Fp64::<{ u64::MAX }>::serialized_size_with_flags(1), 9);
    assert_eq!(Fp64::<300>::serialized_size_with_flags(0), 2);

    let a = Big::new(0x0102_0304_0506_0708);
    let mut bytes = Vec::new();
    assert_eq!(a.serialize_with_flags(&mut bytes, Flags::empty()), Ok(()));
    assert_eq!(bytes, vec![8, 7, 6, 5, 4, 3, 2, 1]);
    assert_eq!(Big::deserialize_with_flags(&bytes, 0), Ok((a, Flags::empty())));

    // three bits of flags share the last byte with the limb
    let flags = Flags { bit_size: 3, mask: 0xa0 };
    let mut bytes = Vec::new();
    assert_eq!(a.serialize_with_flags(&mut bytes, flags), Ok(()));
    assert_eq!(bytes, vec![8, 7, 6, 5, 4, 3, 2, 0xa1]);
    assert_eq!(Big::deserialize_with_flags(&bytes, 3), Ok((a, flags)));

    // four bits of flags go to the byte behind the limb
    let flags = Flags { bit_size: 4, mask: 0xb0 };
    let mut bytes = Vec::new();
    assert_eq!(a.serialize_with_flags(&mut bytes, flags), Ok(()));
    assert_eq!(bytes, vec![8, 7, 6, 5, 4, 3, 2, 1, 0xb0]);
    assert_eq!(Big::deserialize_with_flags(&bytes, 4), Ok((a, flags)));
    // bytes behind the encoding are not read
    bytes.push(0xff);
    assert_eq!(Big::deserialize_with_flags(&bytes, 4), Ok((a, flags)));

    // two bytes hold a residue modulo 300
    let b = Fp64::<300>::new(299);
    let mut bytes = Vec::new();
    assert_eq!(b.serialize_with_flags(&mut bytes, Flags { bit_size: 7, mask: 0xfe }), Ok(()));
    assert_eq!(bytes, vec![0x2b, 0xff]);
    assert_eq!(
        Fp64::<300>::deserialize_with_flags(&bytes, 7),
        Ok((b, Flags { bit_size: 7, mask: 0xfe }))
    );
}

#[test]
fn encoding_round_trip_for_every_residue_and_flag_width() {
    for v in 0..7 {
        for bit_size in 0..=8u8 {
            let mask = if bit_size == 0 { 0 } else { 0x80 };
            let flags = Flags { bit_size, mask };
            let a = F7::new(v);
            let mut bytes = Vec::new();
            assert_eq!(a.serialize_with_flags(&mut bytes, flags), Ok(()));
            assert_eq!(bytes.len(), F7::serialized_size_with_flags(bit_size));
            assert_eq!(F7::deserialize_with_flags(&bytes, bit_size), Ok((a, flags)));
        }
    }
    let top = Fp64::<{ u64::MAX }>::new(u64::MAX - 1);
    for bit_size in 0..=8u8 {
        let flags = Flags { bit_size, mask: if bit_size == 0 { 0 } else { 0x80 } };
        let mut bytes = Vec::new();
        assert_eq!(top.serialize_with_flags(&mut bytes, flags), Ok(()));
        assert_eq!(
            Fp64::<{ u64::MAX }>::deserialize_with_flags(&bytes, bit_size),
            Ok((top, flags))
        );
    }
}

#[test]
fn decoding_rejects_what_is_no_encoding() {
    assert_eq!(
        F7::deserialize_with_flags(&[], 0),
        Err(SerializationError::UnexpectedEof)
    );
    assert_eq!(
        F7::deserialize_with_flags(&[1], 6),
        Err(SerializationError::UnexpectedEof)
    );
    assert_eq!(
        F7::deserialize_with_flags(&[7], 0),
        Err(SerializationError::InvalidData)
    );
    assert_eq!(
        F7::deserialize_with_flags(&[0x41], 1),
        Err(SerializationError::InvalidData)
    );
    assert_eq!(
        F7::deserialize_with_flags(&[0x41], 2),
        Ok((F7::new(1), Flags { bit_size: 2, mask: 0x40 }))
    );
    assert_eq!(
        F7::deserialize_with_flags(&[1], 9),
        Err(SerializationError::NotEnoughSpace)
    );
    let mut out = Vec::new();
    assert_eq!(
        F7::new(1).serialize_with_flags(&mut out, Flags { bit_size: 1, mask: 0x01 }),
        Err(SerializationError::NotEnoughSpace)
    );
    assert!(out.is_empty());
}

#[test]
fn random_bytes_are_cut_down_to_the_bits_of_the_modulus() {
    assert_eq!(F7::residue_mask(), 7);
    assert_eq!(Big::residue_mask(), M61);
    assert_eq!(
        F7::from_random_bytes_with_flags(&[0xfd, 0xff, 0xff], 0),
        Some((F7::new(5), Flags::empty()))
    );
    assert_eq!(F7::from_random_bytes_with_flags(&[0xff], 0), None);
    assert_eq!(F7::from_random_bytes_with_flags(&[1], 9), None);
    assert_eq!(
        F7::from_random_bytes_with_flags(&[1, 0, 0, 0, 0, 0, 0, 0, 0xb7], 3),
        Some((F7::new(1), Flags { bit_size: 3, mask: 0xa0 }))
    );
}

#[test]
fn flag_masks_are_the_top_bits() {
    assert_eq!(flag_mask(0), 0);
    assert_eq!(flag_mask(1), 0x80);
    assert_eq!(flag_mask(3), 0xe0);
    assert_eq!(flag_mask(8), 0xff);
}

#[test]
fn validity_is_being_below_the_modulus() {
    assert!(F7::new(6).is_valid());
    assert!(!(Fp64::<7> { value: 7 }).is_valid());
    assert!(Fp64::<0> { value: 1 }.is_valid());
    assert!(!Fp64::<0> { value: 2 }.is_valid());
}
