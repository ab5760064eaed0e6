use zk_torch::field::{fr_to_int, Fe};

const P_MINUS_1: [u64; 4] = [0x43e1f593f0000000, 0x2833e84879b97091, 0xb85045b68181585d, 0x30644e72e131a029];

#[test]
fn from_u64_keeps_the_value() {
    let x = Fe::from_u64(12345);
    assert_eq!(x.limbs(), [12345, 0, 0, 0]);
    assert_eq!(fr_to_int(&x), 12345);
}

#[test]
fn minus_one_is_the_modulus_minus_one() {
    // `from_i64` negates through the field, so this also runs the negation.
    let x = Fe::from_i64(-1);
    assert_eq!(x.limbs(), P_MINUS_1);
    assert_eq!(fr_to_int(&x), -1);
}

#[test]
fn signed_integers_read_back() {
    for v in [0i64, 1, -1, 7, -7, 1 << 40, -(1 << 40), i64::MAX, i64::MIN] {
        assert_eq!(fr_to_int(&Fe::from_i64(v)), v as i128);
    }
}

#[test]
fn order_and_equality_follow_the_values() {
    let a = Fe::from_u64(3);
    let b = Fe::from_u64(5);
    let m = Fe::from_i64(-1);
    assert!(a.lt(&b));
    assert!(!b.lt(&a));
    assert!(b.lt(&m));
    assert!(a.eq(&Fe::from_u64(3)));
    assert!(!a.eq(&b));
    assert_eq!(Fe::zero(), Fe::from_u64(0));
    assert_eq!(Fe::one(), Fe::from_u64(1));
}

#[test]
fn i128_range_is_recognised() {
    assert!(zk_torch::field::fr_fits_i128(&Fe::from_i64(-5)));
    assert!(zk_torch::field::fr_fits_i128(&Fe::from_u64(u64::MAX)));
    assert!(zk_torch::field::fr_fits_i128(&Fe::zero()));
    // 2^127 does not fit; -2^127 does.
    let mut two127 = Fe::one();
    for _ in 0..127 {
        two127 = zk_torch::basic_block::add_elementwise(&vec![two127], &vec![two127])[0];
    }
    assert!(!zk_torch::field::fr_fits_i128(&two127));
    let minus = zk_torch::basic_block::sub_elementwise(&vec![Fe::zero()], &vec![two127])[0];
    assert!(zk_torch::field::fr_fits_i128(&minus));
}
