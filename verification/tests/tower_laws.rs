use ark_std::rand::Rng;
use ark_std::test_rng;
use tower_ff::field::{Comparison, Field};
use tower_ff::serialize::{Compress, Flags, SerializationError};
use tower_ff::to_field_vec::ToConstraintField;
use tower_ff::fp3::{Fp3, Fp3Config};
use tower_ff::fp64::Fp64;

type F7 = Fp64<7>;
type F343 = Fp3<7, 2, 4, 2>;

fn f7(v: u64) -> F7 {
    F7::new(v)
}

fn elem(c0: u64, c1: u64, c2: u64) -> F343 {
    F343::new(f7(c0), f7(c1), f7(c2))
}

fn rand_elem<R: Rng>(rng: &mut R) -> F343 {
    elem(rng.gen::<u64>(), rng.gen::<u64>(), rng.gen::<u64>())
}

fn all_elems() -> Vec<F343> {
    let mut v = Vec::new();
    for c0 in 0..7 {
        for c1 in 0..7 {
            for c2 in 0..7 {
                v.push(elem(c0, c1, c2));
            }
        }
    }
    v
}

fn pow(a: F343, e: u64) -> F343 {
    let mut r = F343::one();
    for _ in 0..e {
        r = r.mul(&a);
    }
    r
}

#[test]
fn ring_axioms_hold_on_random_elements() {
    let mut rng = test_rng();
    for _ in 0..200 {
        let a = rand_elem(&mut rng);
        let b = rand_elem(&mut rng);
        let c = rand_elem(&mut rng);
        assert_eq!(a.add(&b).add(&c), a.add(&b.add(&c)));
        assert_eq!(a.add(&b), b.add(&a));
        assert_eq!(a.mul(&b.add(&c)), a.mul(&b).add(&a.mul(&c)));
        assert_eq!(a.add(&F343::zero()), a);
        assert_eq!(a.mul(&F343::one()), a);
        assert_eq!(a.mul(&b), b.mul(&a));
        assert_eq!(a.mul(&b).mul(&c), a.mul(&b.mul(&c)));
        assert_eq!(a.sub(&b).add(&b), a);
        assert_eq!(a.add(&a.neg()), F343::zero());
    }
}

#[test]
fn double_is_sum_and_square_is_product() {
    for a in all_elems() {
        assert_eq!(a.double(), a.add(&a));
        assert_eq!(a.square(), a.mul(&a));
        let mut b = a;
        b.double_in_place();
        assert_eq!(b, a.add(&a));
        let mut c = a;
        c.square_in_place();
        assert_eq!(c, a.mul(&a));
        let mut d = a;
        d.neg_in_place();
        assert_eq!(d, a.neg());
    }
}

#[test]
fn square_of_a_chosen_element() {
    // (1 + 2 X + 3 X^2)^2 = 1 + 4 X + 10 X^2 + 12 X^3 + 9 X^4 with X^3 = 2
    // = (1 + 24) + (4 + 18) X + 10 X^2 = 4 + X + 3 X^2 modulo 7
    assert_eq!(elem(1, 2, 3).square(), elem(4, 1, 3));
}

#[test]
fn every_element_but_zero_has_an_inverse() {
    assert_eq!(F343::zero().inverse(), None);
    for a in all_elems() {
        if a.is_zero() {
            continue;
        }
        let inv = a.inverse().unwrap();
        assert_eq!(a.mul(&inv), F343::one());
        assert_eq!(F343::one().div(&a), inv);
        let mut b = a;
        assert!(b.inverse_in_place().is_some());
        assert_eq!(b, inv);
    }
    let mut z = F343::zero();
    assert!(z.inverse_in_place().is_none());
    assert_eq!(z, F343::zero());
}

#[test]
fn inverse_of_a_chosen_element() {
    // X * (4 X^2) = 4 X^3 = 8 = 1 modulo 7
    assert_eq!(elem(0, 1, 0).inverse(), Some(elem(0, 0, 4)));
}

#[test]
fn inverse_fails_where_the_sub_norm_has_no_inverse() {
    // modulo 5 the constant 2 is the cube of 3, so X - 3 = 2 + X divides
    // X^3 - 2 and has no inverse
    type R = Fp3<5, 2, 1, 1>;
    let a = R::new(Fp64::new(2), Fp64::new(1), Fp64::new(0));
    assert!(!a.is_zero());
    assert_eq!(a.inverse(), None);
}

#[test]
fn frobenius_map_of_power_zero_is_the_identity() {
    for a in all_elems() {
        let mut b = a;
        b.frobenius_map_in_place(0);
        assert_eq!(b, a);
    }
}

#[test]
fn frobenius_map_is_the_seventh_power() {
    for a in all_elems() {
        let mut b = a;
        b.frobenius_map_in_place(1);
        assert_eq!(b, pow(a, 7));
        let mut c = a;
        c.frobenius_map_in_place(2);
        assert_eq!(c, pow(a, 49));
    }
}

#[test]
fn frobenius_map_closes_after_the_extension_degree() {
    assert_eq!(F343::extension_degree(), 3);
    for a in all_elems() {
        let mut b = a;
        for _ in 0..F343::extension_degree() {
            b.frobenius_map_in_place(1);
        }
        assert_eq!(b, a);
    }
}

#[test]
fn coefficients_of_the_tables_are_checked() {
    assert!(Fp3Config::<7, 2, 4, 2>::check_coefficients());
    assert!(Fp3Config::<7, 2, 2, 4>::check_coefficients());
    assert!(!Fp3Config::<7, 2, 3, 2>::check_coefficients());
    assert!(!Fp3Config::<7, 2, 4, 4>::check_coefficients());
}

#[test]
fn norm_lies_in_the_base_field() {
    for a in all_elems() {
        let mut p = a;
        p.frobenius_map_in_place(1);
        let mut q = a;
        q.frobenius_map_in_place(2);
        let product = p.mul(&q.mul(&a));
        assert!(product.c1.is_zero());
        assert!(product.c2.is_zero());
        assert_eq!(a.norm(), product.c0);
    }
}

#[test]
fn norm_of_a_chosen_element() {
    // the norm of c0 + c1 X is c0^3 + 2 c1^3: 1 + 2 * 8 = 17 = 3 modulo 7
    assert_eq!(elem(1, 2, 0).norm(), f7(3));
    assert_eq!(elem(3, 0, 0).norm(), f7(27 % 7));
}

#[test]
fn multiplication_agrees_with_polynomial_multiplication_modulo_five() {
    type R = Fp3<5, 2, 1, 1>;
    for a in 0..125u64 {
        for b in 0..125u64 {
            let x = [a % 5, (a / 5) % 5, a / 25];
            let y = [b % 5, (b / 5) % 5, b / 25];
            // the product of the two polynomials, of degree up to 4
            let mut prod = [0u64; 5];
            for i in 0..3 {
                for j in 0..3 {
                    prod[i + j] += x[i] * y[j];
                }
            }
            // X^3 = 2 and X^4 = 2 X
            let expected = [
                (prod[0] + 2 * prod[3]) % 5,
                (prod[1] + 2 * prod[4]) % 5,
                prod[2] % 5,
            ];
            let lhs = R::new(Fp64::new(x[0]), Fp64::new(x[1]), Fp64::new(x[2]));
            let rhs = R::new(Fp64::new(y[0]), Fp64::new(y[1]), Fp64::new(y[2]));
            let got = lhs.mul(&rhs);
            assert_eq!(
                [got.c0.value, got.c1.value, got.c2.value],
                expected
            );
            let mut in_place = lhs;
            in_place.mul_assign(&rhs);
            assert_eq!(in_place, got);
        }
    }
}

#[test]
fn product_of_chosen_elements() {
    // (1 + X)(1 + X^2) = 1 + X + X^2 + X^3 = 3 + X + X^2
    assert_eq!(elem(1, 1, 0).mul(&elem(1, 0, 1)), elem(3, 1, 1));
}

#[test]
fn multiplication_by_the_base_field_is_coordinate_wise() {
    let mut a = elem(1, 2, 3);
    a.mul_assign_by_base_field(&f7(3));
    assert_eq!(a, elem(3, 6, 2));
    assert_eq!(elem(1, 2, 3).mul_by_base_prime_field(&f7(3)), elem(3, 6, 2));
    assert_eq!(F343::from_base_prime_field(f7(5)), elem(5, 0, 0));
}

#[test]
fn coordinates_are_those_of_c0_then_c1_then_c2() {
    let a = elem(1, 2, 3);
    let coords = a.to_base_prime_field_elements();
    assert_eq!(coords, vec![f7(1), f7(2), f7(3)]);
    assert_eq!(F343::from_base_prime_field_elems(&coords), Some(a));
    assert_eq!(F343::from_base_prime_field_elems(&coords[..2]), None);
    let mut more = coords.clone();
    more.push(f7(0));
    assert_eq!(F343::from_base_prime_field_elems(&more), None);
    assert_eq!(F343::from_base_prime_field_elems(&[]), None);
}

#[test]
fn order_counts_c2_first() {
    assert_eq!(elem(6, 6, 0).compare(&elem(0, 0, 1)), Comparison::Less);
    assert_eq!(elem(6, 0, 1).compare(&elem(0, 1, 1)), Comparison::Less);
    assert_eq!(elem(1, 1, 1).compare(&elem(0, 1, 1)), Comparison::Greater);
    assert_eq!(elem(1, 1, 1).compare(&elem(1, 1, 1)), Comparison::Equal);
    assert_eq!(
        elem(6, 6, 0).partial_cmp(&elem(0, 0, 1)),
        Some(core::cmp::Ordering::Less)
    );
    assert!(elem(1, 2, 3).equals(&elem(1, 2, 3)));
    assert!(!elem(1, 2, 3).equals(&elem(1, 2, 4)));
}

#[test]
fn zero_and_one_are_recognised() {
    assert!(F343::zero().is_zero());
    assert!(!F343::one().is_zero());
    assert!(F343::one().is_one());
    assert!(!elem(1, 1, 0).is_one());
    assert_eq!(F343::one(), elem(1, 0, 0));
}

#[test]
fn zeroize_leaves_zero() {
    let mut a = elem(1, 2, 3);
    a.zeroize();
    assert_eq!(a, F343::zero());
    let mut b = f7(5);
    b.zeroize();
    assert_eq!(b, F7::zero());
}

fn all_flags() -> Vec<Flags> {
    let mut v = vec![Flags::empty()];
    for bit_size in 1..=8u8 {
        for top in 0..(1u16 << bit_size) {
            let mask = ((top << (8 - bit_size)) & 0xff) as u8;
            v.push(Flags { bit_size, mask });
        }
    }
    v
}

#[test]
fn encoding_round_trip_for_all_flags() {
    let mut rng = test_rng();
    for flags in all_flags() {
        let a = rand_elem(&mut rng);
        let mut bytes = Vec::new();
        assert_eq!(a.serialize_with_flags(&mut bytes, flags), Ok(()));
        assert_eq!(bytes.len(), a.serialized_size_with_flags(flags.bit_size));
        assert_eq!(
            F343::deserialize_with_flags(&bytes, flags.bit_size),
            Ok((a, flags))
        );
    }
}

#[test]
fn encoding_round_trip_for_all_elements() {
    let flags = Flags { bit_size: 3, mask: 0xa0 };
    for a in all_elems() {
        let mut bytes = Vec::new();
        assert_eq!(a.serialize_with_flags(&mut bytes, flags), Ok(()));
        assert_eq!(F343::deserialize_with_flags(&bytes, 3), Ok((a, flags)));
    }
}

#[test]
fn encoding_puts_the_flags_on_the_last_coordinate() {
    // a residue modulo 7 and up to five bits of flags fit one byte
    let a = elem(1, 2, 3);
    let mut bytes = vec![0xaa];
    assert_eq!(
        a.serialize_with_flags(&mut bytes, Flags { bit_size: 2, mask: 0xc0 }),
        Ok(())
    );
    assert_eq!(bytes, vec![0xaa, 1, 2, 0xc3]);

    // six bits of flags and three of the residue take a second byte
    let mut wide = Vec::new();
    assert_eq!(
        a.serialize_with_flags(&mut wide, Flags { bit_size: 6, mask: 0xfc }),
        Ok(())
    );
    assert_eq!(wide, vec![1, 2, 3, 0xfc]);
    assert_eq!(a.serialized_size_with_flags(6), 4);

    let mut plain = Vec::new();
    a.serialize_with_mode(&mut plain, Compress::Yes);
    assert_eq!(plain, vec![1, 2, 3]);
    assert_eq!(a.serialized_size(Compress::No), 3);
}

#[test]
fn flags_that_are_not_valid_are_refused() {
    let a = elem(1, 2, 3);
    let mut bytes = vec![0xaa];
    // a bit below the two that are asked for: the last coordinate refuses
    // it, when the first two are written already
    assert_eq!(
        a.serialize_with_flags(&mut bytes, Flags { bit_size: 2, mask: 0x20 }),
        Err(SerializationError::NotEnoughSpace)
    );
    assert_eq!(bytes, vec![0xaa, 1, 2]);
    // more bits than a byte has
    let mut bytes = vec![0xbb];
    assert_eq!(
        a.serialize_with_flags(&mut bytes, Flags { bit_size: 9, mask: 0 }),
        Err(SerializationError::NotEnoughSpace)
    );
    assert_eq!(bytes, vec![0xbb, 1, 2]);
    // a residue alone writes nothing before it refuses
    let mut bytes = vec![0xcc];
    assert_eq!(
        f7(3).serialize_with_flags(&mut bytes, Flags { bit_size: 9, mask: 0 }),
        Err(SerializationError::NotEnoughSpace)
    );
    assert_eq!(bytes, vec![0xcc]);
    assert!(!Flags { bit_size: 2, mask: 0x20 }.is_valid());
    assert!(Flags { bit_size: 2, mask: 0x40 }.is_valid());
}

#[test]
fn decoding_with_too_many_flag_bits_fails_at_the_first_coordinate_too() {
    // the first two coordinates decode, the last refuses the flags
    assert_eq!(
        F343::deserialize_with_flags(&[1, 2, 3], 9),
        Err(SerializationError::NotEnoughSpace)
    );
    // no bytes: the first coordinate fails before the flags are looked at
    type R = Fp3<5, 2, 1, 1>;
    assert_eq!(
        R::deserialize_with_flags(&[], 9),
        Err(SerializationError::UnexpectedEof)
    );
    assert_eq!(
        F343::deserialize_with_flags(&[], 9),
        Err(SerializationError::UnexpectedEof)
    );
    // the second coordinate is no residue
    assert_eq!(
        F343::deserialize_with_flags(&[1, 7, 3], 9),
        Err(SerializationError::InvalidData)
    );
    // the second coordinate is missing
    assert_eq!(
        F343::deserialize_with_flags(&[1], 200),
        Err(SerializationError::UnexpectedEof)
    );
}

#[test]
fn encoded_length_where_the_machine_can_count_it() {
    assert_eq!(F343::checked_serialized_size_with_flags(0), Some(3));
    assert_eq!(F343::checked_serialized_size_with_flags(6), Some(4));
    assert_eq!(
        F343::checked_serialized_size_with_flags(2),
        Some(elem(1, 2, 3).serialized_size_with_flags(2))
    );
}

#[test]
fn elements_as_vectors_of_prime_field_elements() {
    let a = elem(1, 2, 3);
    assert_eq!(a.to_field_elements(), Some(vec![f7(1), f7(2), f7(3)]));
    assert_eq!(f7(5).to_field_elements(), Some(vec![f7(5)]));
    let slice: &[F7] = &[f7(4), f7(6)];
    assert_eq!(slice.to_field_elements(), Some(vec![f7(4), f7(6)]));
    let truth: Option<Vec<F7>> = true.to_field_elements();
    assert_eq!(truth, Some(vec![f7(1)]));
    let falsehood: Option<Vec<F343>> = false.to_field_elements();
    assert_eq!(falsehood, Some(vec![F343::zero()]));
    let nothing: Option<Vec<F7>> = ().to_field_elements();
    assert_eq!(nothing, Some(vec![]));
}

#[test]
fn decoding_fails_at_the_first_coordinate_that_does_not_decode() {
    let a = elem(1, 2, 3);
    let mut bytes = Vec::new();
    assert_eq!(
        a.serialize_with_flags(&mut bytes, Flags { bit_size: 1, mask: 0x80 }),
        Ok(())
    );
    assert_eq!(bytes, vec![1, 2, 0x83]);

    // too short for the last coordinate
    assert_eq!(
        F343::deserialize_with_flags(&bytes[..2], 1),
        Err(SerializationError::UnexpectedEof)
    );
    // too short for the first one
    assert_eq!(
        F343::deserialize_with_flags(&[], 1),
        Err(SerializationError::UnexpectedEof)
    );
    // c1 is no residue modulo 7
    assert_eq!(
        F343::deserialize_with_flags(&[1, 7, 0x83], 1),
        Err(SerializationError::InvalidData)
    );
    // without flags the top bit of c2 belongs to the limb
    assert_eq!(
        F343::deserialize_with_flags(&[1, 2, 0x83], 0),
        Err(SerializationError::InvalidData)
    );
    // the first failure wins: c0 is invalid, and the input is short
    assert_eq!(
        F343::deserialize_with_flags(&[9, 2], 1),
        Err(SerializationError::InvalidData)
    );
    // bytes behind the encoding are not read
    assert_eq!(
        F343::deserialize_with_flags(&[1, 2, 0x83, 0xff, 0xff], 1),
        Ok((a, Flags { bit_size: 1, mask: 0x80 }))
    );
}

#[test]
fn operators_agree_with_the_named_operations() {
    let mut rng = test_rng();
    for _ in 0..50 {
        let a = rand_elem(&mut rng);
        let b = rand_elem(&mut rng);
        assert_eq!(a + &b, a.add(&b));
        assert_eq!(a - &b, a.sub(&b));
        assert_eq!(a * &b, a.mul(&b));
        assert_eq!(-a, a.neg());
        if !b.is_zero() {
            assert_eq!(a / &b, a.div(&b));
            assert_eq!((a / &b) * &b, a);
        }
    }
}

#[test]
fn random_bytes_give_elements() {
    // each third is one limb; modulo 7 a limb is cut down to three bits
    let mut bytes = vec![0u8; 24];
    bytes[0] = 0x0b; // 3 after the cut
    bytes[8] = 0x05;
    bytes[16] = 0x16; // 6
    assert_eq!(F343::from_random_bytes(&bytes), Some(elem(3, 5, 6)));
    // 7 is no residue
    bytes[8] = 0x07;
    assert_eq!(F343::from_random_bytes(&bytes), None);
    bytes[8] = 0x05;
    // flags come from the byte behind the last limb
    bytes.push(0xff);
    bytes.push(0);
    bytes.push(0);
    // now 27 bytes: thirds of 9, and the limbs start at 0, 9 and 18
    let mut bytes = vec![0u8; 27];
    bytes[0] = 1;
    bytes[9] = 2;
    bytes[18] = 3;
    bytes[26] = 0xff;
    assert_eq!(
        F343::from_random_bytes_with_flags(&bytes, 2),
        Some((elem(1, 2, 3), Flags { bit_size: 2, mask: 0xc0 }))
    );
    assert_eq!(
        F343::from_random_bytes_with_flags(&[], 0),
        Some((F343::zero(), Flags::empty()))
    );
    assert_eq!(F343::from_random_bytes_with_flags(&bytes, 9), None);
}

#[test]
fn validity_is_that_of_the_coordinates() {
    assert!(elem(1, 2, 3).is_valid());
    let bad = F343::new(f7(1), Fp64 { value: 9 }, f7(3));
    assert!(!bad.is_valid());
}
