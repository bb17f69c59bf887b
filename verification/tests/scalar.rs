use abm::scalar::Real32;

fn number(x: f32) -> Real32 {
    Real32::from_bits(x.to_bits())
}

fn samples() -> Vec<f32> {
    vec![
        0.0,
        -0.0,
        1.0,
        -1.0,
        0.5,
        -0.5,
        2.0,
        1.0e-40,
        -1.0e-40,
        f32::MIN_POSITIVE,
        f32::MAX,
        f32::MIN,
        f32::INFINITY,
        f32::NEG_INFINITY,
        f32::NAN,
        -f32::NAN,
        999.0,
        -999.0,
        3.25,
    ]
}

#[test]
fn greater_than_follows_the_encoded_numbers() {
    let one = number(1.0);
    let two = number(2.0);
    assert!(two.gt(&one));
    assert!(!one.gt(&two));
    assert!(!one.gt(&one));
}

#[test]
fn gt_agrees_with_the_machine_on_every_pair_of_samples() {
    for a in samples() {
        for b in samples() {
            assert_eq!(number(a).gt(&number(b)), a > b, "{} > {}", a, b);
        }
    }
}

#[test]
fn ge_agrees_with_the_machine_on_every_pair_of_samples() {
    for a in samples() {
        for b in samples() {
            assert_eq!(number(a).ge(&number(b)), a >= b, "{} >= {}", a, b);
        }
    }
}

#[test]
fn nan_is_told_from_numbers() {
    for a in samples() {
        assert_eq!(number(a).nan(), a.is_nan());
    }
}

#[test]
fn both_zeros_have_the_key_zero() {
    assert_eq!(number(0.0).key(), 0);
    assert_eq!(number(-0.0).key(), 0);
    assert!(number(0.0).ge(&number(-0.0)));
    assert!(!number(0.0).gt(&number(-0.0)));
}

#[test]
fn keys_are_the_magnitudes_with_the_sign() {
    assert_eq!(number(1.0).key(), 0x3f80_0000);
    assert_eq!(number(-1.0).key(), -0x3f80_0000);
    assert_eq!(number(f32::INFINITY).key(), 0x7f80_0000);
}

#[test]
fn bits_pass_through_unchanged() {
    assert_eq!(Real32::from_bits(0xdead_beef).to_bits(), 0xdead_beef);
    assert_eq!(f32::from_bits(number(3.25).to_bits()), 3.25);
    assert_eq!(Real32::zero().to_bits(), 0);
}
