use geckolib::crypto::bn::{bn_add, bn_exp, bn_inv, bn_mul, bn_sub_modulus};
use geckolib::crypto::ec::{ec_g_point, Elt, Point, EC_GX, EC_GY, EC_N};

#[test]
fn inverse_works() {
    let data: [u8; 30] = [
        56, 158, 5, 55, 152, 22, 172, 27, 213, 215, 38, 222, 216, 46, 231, 10, 168, 193, 73, 77,
        251, 218, 104, 137, 190, 12, 245, 86, 96, 184,
    ];
    let expected: [u8; 30] = [
        253, 117, 216, 243, 122, 128, 63, 124, 199, 79, 89, 48, 109, 93, 190, 58, 58, 142, 159, 28,
        184, 115, 155, 122, 139, 211, 184, 209, 203, 223,
    ];
    let mut out = [0u8; 30];
    bn_inv(&mut out, &data, &EC_N);
    assert_eq!(out, expected);
}

#[test]
fn sub_modulus_borrows() {
    let mut a = [0x01, 0x00];
    bn_sub_modulus(&mut a, &[0x00, 0x01]);
    assert_eq!(a, [0x00, 0xff]);
    let mut b = [0x00, 0x00, 0x07];
    bn_sub_modulus(&mut b, &[0x00, 0x01]);
    // Only the common length of two digits takes part.
    assert_eq!(b, [0xff, 0xff, 0x07]);
}

#[test]
fn add_is_modular() {
    let m = [0x00, 0x0d]; // 13
    let mut d = [0u8; 2];
    bn_add(&mut d, &[0x00, 0x09], &[0x00, 0x08], &m);
    assert_eq!(d, [0x00, 0x04]); // 17 mod 13
    let mut d = [0u8; 1];
    bn_add(&mut d, &[0xf0], &[0xf0], &[0xfb]);
    assert_eq!(d, [0xe5]); // 480 mod 251 = 229
}

#[test]
fn mul_is_modular() {
    let m = [0x00, 0x65]; // 101
    let mut d = [9u8; 3];
    bn_mul(&mut d, &[0x00, 0x0c], &[0x00, 0x0b], &m);
    assert_eq!(d, [0x00, 0x1f, 0x00]); // 132 mod 101 = 31; bytes past n cleared
}

#[test]
fn exp_is_modular() {
    let m = [0x00, 0x65]; // 101
    let mut d = [0u8; 2];
    bn_exp(&mut d, &[0x00, 0x03], &m, &[0x05]);
    assert_eq!(d, [0x00, 0x29]); // 3^5 = 243 = 41 mod 101
}

#[test]
fn inverse_of_small_prime_modulus() {
    let m = [0x00, 0x65]; // 101 is prime
    let mut d = [0u8; 2];
    bn_inv(&mut d, &[0x00, 0x07], &m);
    // 7 * 29 = 203 = 2 * 101 + 1
    assert_eq!(d, [0x00, 0x1d]);
}

#[test]
fn curve_addition_laws_on_the_base_point() {
    let g = ec_g_point();
    assert_eq!(g.add(g).get_data(), g.double().get_data());
    assert_eq!(g.add(Point::zero()).get_data(), g.get_data());
    assert_eq!(Point::zero().add(g).get_data(), g.get_data());
    let neg = Point::new(*g.x(), g.x().add(*g.y()));
    assert!(g.add(neg).is_zero());
    assert!(!g.double().is_zero());
}

#[test]
fn squaring_adds_up() {
    let a = Elt::from_bytes(EC_GX);
    let b = Elt::from_bytes(EC_GY);
    assert_eq!(a.add(b).square().to_bytes(), a.square().add(b.square()).to_bytes());
    assert_ne!(a.square().to_bytes(), a.to_bytes());
}

#[test]
fn multiplication_distributes_over_addition() {
    let a = Elt::from_bytes(EC_GX);
    let b = Elt::from_bytes(EC_GY);
    let mut c_bytes = [0u8; 30];
    c_bytes[29] = 0x53;
    c_bytes[3] = 0x11;
    let c = Elt::from_bytes(c_bytes);
    assert_eq!(a.mul(b.add(c)).to_bytes(), a.mul(b).add(a.mul(c)).to_bytes());
}

#[test]
fn one_is_neutral_for_multiplication() {
    let mut one = [0u8; 30];
    one[29] = 1;
    let b = Elt::from_bytes(EC_GY);
    assert_eq!(Elt::from_bytes(one).mul(b).to_bytes(), EC_GY);
}
