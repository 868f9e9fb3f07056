use fibonacci_circuit::field::{is_canonical, FieldElement};
use fibonacci_circuit::value::Value;
use halo2_proofs::pasta::group::ff::{Field, PrimeField};
use halo2_proofs::pasta::Fp;

const MODULUS_BYTES: [u8; 32] = [
    0x01, 0x00, 0x00, 0x00, 0xed, 0x30, 0x2d, 0x99, 0x1b, 0xf9, 0x4c, 0x09, 0xfc, 0x98, 0x46, 0x22, 0x00, 0x00,
    0x00, 0x00, 0x00, 0x00, 0x00, 0x00, 0x00, 0x00, 0x00, 0x00, 0x00, 0x00, 0x00, 0x40,
];

fn to_fp(x: &FieldElement) -> Fp {
    Option::<Fp>::from(Fp::from_repr(x.to_bytes())).unwrap()
}

fn from_fp(x: Fp) -> FieldElement {
    FieldElement::from_bytes(x.to_repr()).unwrap()
}

fn minus_one() -> FieldElement {
    let mut bytes = MODULUS_BYTES;
    bytes[0] = 0x00;
    FieldElement::from_bytes(bytes).unwrap()
}

#[test]
fn from_u64_encodes_little_endian() {
    let x = FieldElement::from_u64(0x0102030405060708);
    let bytes = x.to_bytes();
    assert_eq!(&bytes[..8], &[0x08, 0x07, 0x06, 0x05, 0x04, 0x03, 0x02, 0x01]);
    assert!(bytes[8..].iter().all(|b| *b == 0));
}

#[test]
fn from_u64_agrees_with_pasta() {
    for v in [0u64, 1, 2, 55, 255, 256, 65535, 1 << 32, u64::MAX] {
        assert_eq!(FieldElement::from_u64(v).to_bytes(), Fp::from(v).to_repr());
    }
}

#[test]
fn zero_and_one() {
    assert_eq!(FieldElement::zero().to_bytes(), [0u8; 32]);
    assert_eq!(FieldElement::one().to_bytes(), Fp::ONE.to_repr());
    assert!(FieldElement::zero().is_zero());
    assert!(!FieldElement::one().is_zero());
}

#[test]
fn modulus_is_not_canonical() {
    assert!(!is_canonical(&MODULUS_BYTES));
    assert!(FieldElement::from_bytes(MODULUS_BYTES).is_none());
    assert!(FieldElement::from_bytes([0xff; 32]).is_none());
    let mut above = MODULUS_BYTES;
    above[0] = 0x02;
    assert!(!is_canonical(&above));
    let mut high = [0u8; 32];
    high[31] = 0x41;
    assert!(!is_canonical(&high));
}

#[test]
fn below_modulus_is_canonical() {
    let mut below = MODULUS_BYTES;
    below[0] = 0x00;
    assert!(is_canonical(&below));
    assert_eq!(FieldElement::from_bytes(below).unwrap().to_bytes(), below);
    assert!(is_canonical(&[0u8; 32]));
    // A smaller high byte decides, whatever the low bytes are.
    let mut low_ff = [0xffu8; 32];
    low_ff[31] = 0x3f;
    assert!(is_canonical(&low_ff));
    // Equal high bytes: the next byte that differs decides.
    let mut mid = MODULUS_BYTES;
    mid[15] = 0x21;
    mid[0] = 0xff;
    assert!(is_canonical(&mid));
    let mut mid_above = MODULUS_BYTES;
    mid_above[15] = 0x23;
    mid_above[0] = 0x00;
    assert!(!is_canonical(&mid_above));
}

#[test]
fn from_bytes_agrees_with_pasta() {
    let mut candidates: Vec<[u8; 32]> = vec![MODULUS_BYTES, [0u8; 32], [0xff; 32], minus_one().to_bytes()];
    for i in 0..32 {
        let mut up = MODULUS_BYTES;
        up[i] = up[i].wrapping_add(1);
        candidates.push(up);
        let mut down = MODULUS_BYTES;
        down[i] = down[i].wrapping_sub(1);
        candidates.push(down);
    }
    for bytes in candidates {
        let theirs = bool::from(Fp::from_repr(bytes).is_some());
        assert_eq!(FieldElement::from_bytes(bytes).is_some(), theirs);
    }
}

#[test]
fn add_small_values() {
    let two = FieldElement::from_u64(1).add(&FieldElement::from_u64(1));
    assert!(two.is_equal(&FieldElement::from_u64(2)));
    let sum = FieldElement::from_u64(21).add(&FieldElement::from_u64(34));
    assert_eq!(sum.to_bytes(), FieldElement::from_u64(55).to_bytes());
}

#[test]
fn add_wraps_at_modulus() {
    let sum = minus_one().add(&FieldElement::from_u64(1));
    assert!(sum.is_zero());
    let sum = minus_one().add(&FieldElement::from_u64(5));
    assert!(sum.is_equal(&FieldElement::from_u64(4)));
    let sum = minus_one().add(&minus_one());
    // (p - 1) + (p - 1) = p - 2
    let mut expected = MODULUS_BYTES;
    expected[0] = 0xff;
    expected[1] = 0xff;
    expected[2] = 0xff;
    expected[3] = 0xff;
    expected[4] = 0xec;
    assert_eq!(sum.to_bytes(), expected);
}

#[test]
fn neg_values() {
    assert!(FieldElement::zero().neg().is_zero());
    assert!(FieldElement::one().neg().is_equal(&minus_one()));
    assert!(minus_one().neg().is_equal(&FieldElement::one()));
    let x = FieldElement::from_u64(12345);
    assert!(x.add(&x.neg()).is_zero());
}

#[test]
fn mul_values() {
    let x = FieldElement::from_u64(6).mul(&FieldElement::from_u64(7));
    assert!(x.is_equal(&FieldElement::from_u64(42)));
    assert!(FieldElement::from_u64(9).mul(&FieldElement::zero()).is_zero());
    assert!(FieldElement::from_u64(9).mul(&FieldElement::one()).is_equal(&FieldElement::from_u64(9)));
    // (p - 1) * (p - 1) = 1
    assert!(minus_one().mul(&minus_one()).is_equal(&FieldElement::one()));
    // 2^64 * 2^64 = 2^128
    let big = FieldElement::from_u64(u64::MAX).add(&FieldElement::one());
    let mut expected = [0u8; 32];
    expected[16] = 1;
    assert_eq!(big.mul(&big).to_bytes(), expected);
}

#[test]
fn arithmetic_agrees_with_pasta() {
    let values = [
        Fp::ZERO,
        Fp::ONE,
        Fp::from(2),
        Fp::from(55),
        Fp::from(u64::MAX),
        -Fp::ONE,
        Fp::from(3).invert().unwrap(),
        Fp::from(7).square().square().square().square().square().square().square(),
        Fp::MULTIPLICATIVE_GENERATOR,
        Fp::ROOT_OF_UNITY,
    ];
    for x in values {
        let a = from_fp(x);
        assert_eq!(to_fp(&a), x);
        assert_eq!(to_fp(&a.neg()), -x);
        for y in values {
            let b = from_fp(y);
            assert_eq!(to_fp(&a.add(&b)), x + y);
            assert_eq!(to_fp(&a.mul(&b)), x * y);
            assert_eq!(a.is_equal(&b), x == y);
        }
    }
}

#[test]
fn is_equal_compares_values() {
    let a = FieldElement::from_u64(7);
    let b = FieldElement::from_u64(3).add(&FieldElement::from_u64(4));
    assert!(a.is_equal(&b));
    assert!(!a.is_equal(&FieldElement::from_u64(8)));
    let mut bytes = [0u8; 32];
    bytes[31] = 1;
    let high = FieldElement::from_bytes(bytes).unwrap();
    assert!(!high.is_equal(&FieldElement::zero()));
}

#[test]
fn equality_is_that_of_the_values() {
    assert_eq!(FieldElement::from_u64(3).add(&FieldElement::from_u64(4)), FieldElement::from_u64(7));
    assert_ne!(FieldElement::from_u64(3), FieldElement::from_u64(4));
    assert_eq!(minus_one().add(&FieldElement::one()), FieldElement::zero());
    assert_eq!(Value::known(FieldElement::one()), Value::Known(FieldElement::from_u64(1)));
    assert_ne!(Value::known(FieldElement::one()), Value::unknown());
}

#[test]
fn value_add_known() {
    let a = Value::known(FieldElement::from_u64(2));
    let b = Value::known(FieldElement::from_u64(3));
    match a.add(&b) {
        Value::Known(v) => assert!(v.is_equal(&FieldElement::from_u64(5))),
        Value::Unknown => panic!("the sum of two known values is known"),
    }
    assert!(a.is_known());
}

#[test]
fn value_add_unknown_propagates() {
    let a = Value::known(FieldElement::from_u64(2));
    let u = Value::unknown();
    assert!(!u.is_known());
    assert!(!a.add(&u).is_known());
    assert!(!u.add(&a).is_known());
    assert!(!u.add(&u).is_known());
}
