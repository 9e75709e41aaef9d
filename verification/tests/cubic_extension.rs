use ark_std::rand::Rng;
use ark_std::test_rng;
use core::cmp::Ordering;
use tower_ff::f7::{f343, F343 as Fq3, F7 as Fq, F7Pow9 as Fq9};
use tower_ff::field::Field;

fn rand_fq<R: Rng>(rng: &mut R) -> Fq {
    Fq::new(rng.gen::<u64>())
}

fn rand_fq3<R: Rng>(rng: &mut R) -> Fq3 {
    Fq3::new(rand_fq(rng), rand_fq(rng), rand_fq(rng))
}

/// An element whose first coordinate is below the largest residue, so that
/// adding one to it does not wrap around.
fn rand_fq3_with_room<R: Rng>(rng: &mut R) -> Fq3 {
    Fq3::new(Fq::new(rng.gen_range(0..6)), rand_fq(rng), rand_fq(rng))
}

fn rand_fq9<R: Rng>(rng: &mut R) -> Fq9 {
    Fq9::new(rand_fq3(rng), rand_fq3(rng), rand_fq3(rng))
}

#[test]
fn test_norm_for_towers() {
    // First, test the simple cubic extension
    let mut rng = test_rng();
    let a: Fq3 = rand_fq3(&mut rng);
    let _ = a.norm();

    // then also the tower of two cubic extensions, norm should work
    let a: Fq9 = rand_fq9(&mut rng);
    let _ = a.norm();
}

#[test]
fn test_from_base_prime_field_elements() {
    let ext_degree = Fq9::extension_degree() as usize;
    // Test on slice lengths that aren't equal to the extension degree
    let max_num_elems_to_test = 10;
    for d in 0..max_num_elems_to_test {
        if d == ext_degree {
            continue;
        }
        let mut random_coeffs = Vec::new();
        for _ in 0..d {
            random_coeffs.push(rand_fq(&mut test_rng()));
        }
        let res = Fq9::from_base_prime_field_elems(&random_coeffs);
        assert_eq!(res, None);
    }
    // Test on slice lengths that are equal to the extension degree
    // We test consistency against Fq3::new
    let number_of_tests = 10;
    let mut rng = test_rng();
    for _ in 0..number_of_tests {
        let mut random_coeffs = Vec::new();
        for _ in 0..ext_degree {
            random_coeffs.push(rand_fq(&mut rng));
        }

        let expected_0 = Fq3::new(random_coeffs[0], random_coeffs[1], random_coeffs[2]);
        let expected_1 = Fq3::new(random_coeffs[3], random_coeffs[4], random_coeffs[5]);
        let expected_2 = Fq3::new(random_coeffs[6], random_coeffs[7], random_coeffs[8]);
        let expected = Fq9::new(expected_0, expected_1, expected_2);

        let actual = Fq9::from_base_prime_field_elems(&random_coeffs).unwrap();
        assert_eq!(actual, expected);
    }
}

#[test]
fn test_from_base_prime_field_element() {
    let ext_degree = Fq9::extension_degree() as usize;
    let max_num_elems_to_test = 10;
    let mut rng = test_rng();
    for _ in 0..max_num_elems_to_test {
        let mut random_coeffs = vec![Fq::zero(); ext_degree];
        let random_coeff = rand_fq(&mut rng);
        let res = Fq9::from_base_prime_field(random_coeff);
        random_coeffs[0] = random_coeff;
        assert_eq!(
            res,
            Fq9::from_base_prime_field_elems(&random_coeffs).unwrap()
        );
    }
}

#[test]
fn test_cubic_ext_field_cmp_equal_elements() {
    // Generate random coefficients
    let mut rng = test_rng();
    let c0 = rand_fq3(&mut rng);
    let c1 = rand_fq3(&mut rng);
    let c2 = rand_fq3(&mut rng);

    // Create two identical elements
    let element1 = Fq9::new(c0, c1, c2);
    let element2 = Fq9::new(c0, c1, c2);

    // The elements should be equal
    assert_eq!(element1.cmp(&element2), Ordering::Equal);
}

#[test]
fn test_cubic_ext_field_cmp_less_than_elements() {
    // Generate random coefficients
    let mut rng = test_rng();
    let c0 = rand_fq3(&mut rng);
    let c1 = rand_fq3(&mut rng);
    let c2 = rand_fq3_with_room(&mut rng);

    // Create two elements, where element1 is less than element2
    let element1 = Fq9::new(c0, c1, c2);
    let element2 = Fq9::new(c0, c1, c2 + &Fq3::one()); // Increment c2 to ensure element2 is greater

    // element1 should be less than element2
    assert_eq!(element1.cmp(&element2), Ordering::Less);
}

#[test]
fn test_cubic_ext_field_cmp_greater_than_elements() {
    // Generate random coefficients
    let mut rng = test_rng();
    let c0 = rand_fq3(&mut rng);
    let c1 = rand_fq3(&mut rng);
    let c2 = rand_fq3_with_room(&mut rng);

    // Create two elements, where element1 is greater than element2
    let element1 = Fq9::new(c0, c1, c2 + &Fq3::one()); // Increment c2 to ensure element1 is greater
    let element2 = Fq9::new(c0, c1, c2);

    // element1 should be greater than element2
    assert_eq!(element1.cmp(&element2), Ordering::Greater);
}

#[test]
fn test_cubic_ext_field_cmp_with_different_c1() {
    // Generate random coefficients
    let mut rng = test_rng();
    let c0 = rand_fq3(&mut rng);
    let c1 = rand_fq3_with_room(&mut rng);
    let c2 = rand_fq3(&mut rng);

    // Create two elements with different c1 coefficients
    let element1 = Fq9::new(c0, c1, c2);
    let element2 = Fq9::new(c0, c1 + &Fq3::one(), c2); // Increment c1 to ensure element2 is greater

    // element1 should be less than element2 due to c1 comparison
    assert_eq!(element1.cmp(&element2), Ordering::Less);
}

#[test]
fn test_cubic_ext_field_cmp_with_different_c0() {
    // Generate random coefficients
    let mut rng = test_rng();
    let c0 = rand_fq3_with_room(&mut rng);
    let c1 = rand_fq3(&mut rng);
    let c2 = rand_fq3(&mut rng);

    // Create two elements with different c0 coefficients
    let element1 = Fq9::new(c0, c1, c2);
    let element2 = Fq9::new(c0 + &Fq3::one(), c1, c2); // Increment c0 to ensure element2 is greater

    // element1 should be less than element2 due to c0 comparison
    assert_eq!(element1.cmp(&element2), Ordering::Less);
}

#[test]
fn elements_of_the_lower_field_by_their_residues() {
    assert_eq!(f343(1, 2, 3), Fq3::new(Fq::new(1), Fq::new(2), Fq::new(3)));
}
