use tower_ff::bandersnatch::BandersnatchConfig;
use tower_ff::field::Field;
use tower_ff::fp64::Fp64;
use tower_ff::secp384r1::Config;

#[test]
fn multiplication_by_a_is_by_minus_five() {
    type F = Fp64<101>;
    for v in 0..101 {
        let x = F::new(v);
        assert_eq!(BandersnatchConfig::mul_by_a(x), x.mul(&F::new(101 - 5)));
    }
    assert_eq!(BandersnatchConfig::mul_by_a(F::new(3)), F::new(86));
}

#[test]
fn cofactors() {
    assert_eq!(BandersnatchConfig::cofactor(), [4]);
    assert_eq!(Config::cofactor(), [1]);
    assert_eq!(Config, Config::default());
    assert_eq!(BandersnatchConfig, BandersnatchConfig::default());
}
