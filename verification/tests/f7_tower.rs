use ark_std::rand::Rng;
use ark_std::test_rng;
use tower_ff::bandersnatch::BandersnatchConfig;
use tower_ff::f7::{c1_exponent_of, c2_exponent_of, f343, x_power_of, F343, F7, F7Pow9};
use tower_ff::field::Field;
use tower_ff::serialize::Flags;
use tower_ff::to_field_vec::ToConstraintField;
use tower_ff::tower;

fn rand_f343<R: Rng>(rng: &mut R) -> F343 {
    f343(rng.gen_range(0..7), rng.gen_range(0..7), rng.gen_range(0..7))
}

fn rand_elem<R: Rng>(rng: &mut R) -> F7Pow9 {
    F7Pow9::new(rand_f343(rng), rand_f343(rng), rand_f343(rng))
}

fn pow(a: F7Pow9, mut e: u64) -> F7Pow9 {
    let mut base = a;
    let mut r = F7Pow9::one();
    while e > 0 {
        if e & 1 == 1 {
            r = r.mul(&base);
        }
        base = base.square();
        e >>= 1;
    }
    r
}

#[test]
fn degrees_of_the_tower() {
    assert_eq!(F7::extension_degree(), 1);
    assert_eq!(F343::extension_degree(), 3);
    assert_eq!(F7Pow9::extension_degree(), 9);
    assert_eq!(<F343 as Field>::extension_degree(), 3);
}

#[test]
fn ring_axioms_hold_in_the_upper_field() {
    let mut rng = test_rng();
    for _ in 0..100 {
        let a = rand_elem(&mut rng);
        let b = rand_elem(&mut rng);
        let c = rand_elem(&mut rng);
        assert_eq!(a.add(&b).add(&c), a.add(&b.add(&c)));
        assert_eq!(a.add(&b), b.add(&a));
        assert_eq!(a.mul(&b.add(&c)), a.mul(&b).add(&a.mul(&c)));
        assert_eq!(a.add(&F7Pow9::zero()), a);
        assert_eq!(a.mul(&F7Pow9::one()), a);
        assert_eq!(a.mul(&b).mul(&c), a.mul(&b.mul(&c)));
        assert_eq!(a.double(), a.add(&a));
        assert_eq!(a.square(), a.mul(&a));
    }
}

#[test]
fn y_cubed_is_x() {
    let y = F7Pow9::new(F343::zero(), F343::one(), F343::zero());
    let x = F7Pow9::new(f343(0, 1, 0), F343::zero(), F343::zero());
    assert_eq!(y.mul(&y).mul(&y), x);
    // and so the ninth power of y is 2
    let two = F7Pow9::new(f343(2, 0, 0), F343::zero(), F343::zero());
    assert_eq!(pow(y, 9), two);
}

#[test]
fn inverses_in_the_upper_field() {
    let mut rng = test_rng();
    assert_eq!(F7Pow9::zero().inverse(), None);
    for _ in 0..200 {
        let a = rand_elem(&mut rng);
        if a.is_zero() {
            continue;
        }
        let inv = a.inverse().unwrap();
        assert_eq!(a.mul(&inv), F7Pow9::one());
    }
}

#[test]
fn frobenius_maps_are_powers_of_seven() {
    let mut rng = test_rng();
    for _ in 0..30 {
        let a = rand_elem(&mut rng);
        let mut image = a;
        for power in 0..=9u32 {
            let mut b = a;
            b.frobenius_map_in_place(power as usize);
            assert_eq!(b, image, "power {}", power);
            image = pow(image, 7);
        }
        // nine steps of the first power close the orbit
        let mut c = a;
        for _ in 0..F7Pow9::extension_degree() {
            c.frobenius_map_in_place(1);
        }
        assert_eq!(c, a);
    }
}

#[test]
fn norm_of_the_upper_field_lies_in_the_field_below() {
    let mut rng = test_rng();
    for _ in 0..100 {
        let a = rand_elem(&mut rng);
        // the conjugates over the field of 343 elements are the images
        // under the powers 3 and 6
        let mut p = a;
        p.frobenius_map_in_place(3);
        let mut q = a;
        q.frobenius_map_in_place(6);
        let product = p.mul(&q.mul(&a));
        assert!(product.c1.is_zero());
        assert!(product.c2.is_zero());
        assert_eq!(a.norm(), product.c0);
        assert_eq!(tower::norm(&a), product.c0);
        // the norm is the power (1 + 343 + 343^2)
        assert_eq!(pow(a, 1 + 343 + 343 * 343).c0, a.norm());
    }
}

#[test]
fn coordinates_of_the_upper_field() {
    let mut rng = test_rng();
    let a = rand_elem(&mut rng);
    let coords = a.to_base_prime_field_elements();
    assert_eq!(coords.len(), 9);
    assert_eq!(coords[0], a.c0.c0);
    assert_eq!(coords[4], a.c1.c1);
    assert_eq!(coords[8], a.c2.c2);
    assert_eq!(F7Pow9::from_base_prime_field_elems(&coords), Some(a));
    assert_eq!(F7Pow9::from_base_prime_field_elems(&coords[..8]), None);
    let mut bad = coords.clone();
    bad[3] = F7 { value: 7 };
    assert_eq!(F7Pow9::from_base_prime_field_elems(&bad), None);
    let five = F7::new(5);
    assert_eq!(
        F7Pow9::from_base_prime_field(five),
        F7Pow9::new(f343(5, 0, 0), F343::zero(), F343::zero())
    );
    assert_eq!(
        a.mul_by_base_prime_field(&five),
        a.mul(&F7Pow9::from_base_prime_field(five))
    );
}

#[test]
fn encoding_of_the_upper_field() {
    let mut rng = test_rng();
    for _ in 0..50 {
        let a = rand_elem(&mut rng);
        let flags = Flags { bit_size: 2, mask: 0x80 };
        let mut bytes = Vec::new();
        assert_eq!(a.serialize_with_flags(&mut bytes, flags), Ok(()));
        assert_eq!(bytes.len(), 9);
        assert_eq!(bytes.len(), a.serialized_size_with_flags(2));
        assert_eq!(bytes[8], a.c2.c2.value as u8 | 0x80);
        assert_eq!(F7Pow9::deserialize_with_flags(&bytes, 2), Ok((a, flags)));
    }
}

#[test]
fn the_lower_field_serves_where_a_field_is_asked_for() {
    let mut rng = test_rng();
    for _ in 0..50 {
        let x = rand_f343(&mut rng);
        let minus_five = F343::from_base_prime_field(F7::new(2));
        assert_eq!(BandersnatchConfig::mul_by_a(x), x.mul(&minus_five));
    }
}

#[test]
fn random_bytes_give_elements_of_the_upper_field() {
    let mut rng = test_rng();
    let mut found = 0;
    for _ in 0..200 {
        let mut bytes = [0u8; 9];
        rng.fill(&mut bytes[..]);
        if let Some(a) = F7Pow9::from_random_bytes(&bytes) {
            assert!(a.is_valid());
            found += 1;
        }
    }
    assert!(found > 0);
}

#[test]
fn norm_is_what_an_inversion_divides_by() {
    // the inverse is the adjugate over the norm, so the norm of the
    // inverse is the inverse of the norm
    let mut rng = test_rng();
    for _ in 0..50 {
        let a = rand_elem(&mut rng);
        if a.is_zero() {
            continue;
        }
        let n = tower::norm(&a);
        let inv = a.inverse().unwrap();
        assert_eq!(tower::norm(&inv).mul(&n), F343::one());
        let x = rand_f343(&mut rng);
        if !x.is_zero() {
            let m = tower::norm(&x);
            assert_eq!(tower::norm(&x.inverse().unwrap()).mul(&m), F7::one());
        }
    }
}

fn pow343(a: F343, mut e: u64) -> F343 {
    let mut base = a;
    let mut r = F343::one();
    while e > 0 {
        if e & 1 == 1 {
            r = r.mul(&base);
        }
        base = base.square();
        e >>= 1;
    }
    r
}

#[test]
fn tables_hold_the_powers_of_x() {
    let x = f343(0, 1, 0);
    for t in 0..9 {
        assert_eq!(x_power_of(t), pow343(x, t as u64));
    }
    assert_eq!(pow343(x, 9), F343::one());
    for k in 0..9u32 {
        let exponent = (7u64.pow(k) - 1) / 3;
        let on_y = pow343(x, exponent);
        assert_eq!(x_power_of(c1_exponent_of(k as usize)), on_y);
        assert_eq!(x_power_of(c2_exponent_of(k as usize)), on_y.square());
    }
}

#[test]
fn product_with_x_moves_the_coordinates_up() {
    // the upper field multiplies by its non-residue X in this way
    let y_squared = F7Pow9::new(F343::zero(), F343::zero(), F343::one());
    let y = F7Pow9::new(F343::zero(), F343::one(), F343::zero());
    let mut rng = test_rng();
    for _ in 0..50 {
        let a = rand_f343(&mut rng);
        // (a Y^2) * Y = a Y^3 = a X
        let lifted = F7Pow9::new(a, F343::zero(), F343::zero());
        let product = lifted.mul(&y_squared).mul(&y);
        assert_eq!(product.c0, a.mul(&f343(0, 1, 0)));
        assert_eq!(product.c0, f343((2 * a.c2.value) % 7, a.c0.value, a.c1.value));
    }
}

#[test]
fn upper_field_as_a_vector_of_prime_field_elements() {
    let mut rng = test_rng();
    let a = rand_elem(&mut rng);
    assert_eq!(a.to_field_elements(), Some(a.to_base_prime_field_elements()));
}

#[test]
fn flags_refused_by_the_upper_field_leave_what_was_written() {
    let mut rng = test_rng();
    let a = rand_elem(&mut rng);
    let mut whole = Vec::new();
    assert_eq!(a.serialize_with_flags(&mut whole, Flags::empty()), Ok(()));
    let mut bytes = Vec::new();
    assert!(a.serialize_with_flags(&mut bytes, Flags { bit_size: 9, mask: 0 }).is_err());
    // c0 and c1 whole, and of c2 its first two coordinates
    assert_eq!(&bytes[..], &whole[..8]);
}
