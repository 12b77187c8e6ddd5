use deep_filter::single::Single;
use deep_filter::single::{HALF, HUNDRED, ONE};

fn single(v: f32) -> Single {
    Single::from_bits(v.to_bits())
}

fn samples() -> Vec<f32> {
    vec![
        0.0,
        -0.0,
        1.0,
        -1.0,
        0.5,
        0.499_999_97,
        1.5,
        2.0,
        10.0,
        99.999_99,
        100.0,
        -100.0,
        1.0e-45,
        -1.0e-45,
        f32::MIN_POSITIVE,
        f32::MAX,
        f32::MIN,
        8_388_607.5,
        8_388_608.0,
        16_777_215.0,
        1.0e10,
        1.8e19,
        1.9e19,
        f32::INFINITY,
        f32::NEG_INFINITY,
        f32::NAN,
        -f32::NAN,
    ]
}

#[test]
fn named_patterns() {
    assert_eq!(Single::from_bits(ONE), single(1.0));
    assert_eq!(Single::from_bits(HALF), single(0.5));
    assert_eq!(Single::from_bits(HUNDRED), single(100.0));
}

#[test]
fn comparisons_agree_with_the_format() {
    for a in samples() {
        for b in samples() {
            assert_eq!(single(a).equals(single(b)), a == b, "{} == {}", a, b);
            assert_eq!(single(a).at_least(single(b)), a >= b, "{} >= {}", a, b);
            assert_eq!(single(a).below(single(b)), a < b, "{} < {}", a, b);
        }
    }
}

#[test]
fn zeros_are_equal_but_not_identical() {
    assert!(single(0.0).equals(single(-0.0)));
    assert_ne!(single(0.0), single(-0.0));
}

#[test]
fn non_numbers() {
    assert!(single(f32::NAN).not_a_number());
    assert!(!single(f32::INFINITY).not_a_number());
    assert!(!single(1.0).not_a_number());
    assert!(!single(f32::NAN).equals(single(f32::NAN)));
}

#[test]
fn integer_parts_agree_with_casts() {
    for a in samples() {
        assert_eq!(single(a).to_whole(), a as usize, "{}", a);
    }
    assert_eq!(single(2.75).to_whole(), 2);
    assert_eq!(single(-3.0).to_whole(), 0);
}

#[test]
fn unsigned_integers_convert_like_casts() {
    let mut n: u32 = 1;
    for _ in 0..40 {
        for d in 0..4u32 {
            let v = n.wrapping_add(d).wrapping_sub(2);
            assert_eq!(Single::from_u32(v), single(v as f32), "{}", v);
        }
        n = n.wrapping_mul(2).wrapping_add(n % 3);
    }
    for v in [
        0,
        1,
        100,
        16_777_215,
        16_777_216,
        16_777_217,
        16_777_218,
        16_777_219,
        33_554_434,
        33_554_438,
        4_294_967_040,
        4_294_967_167,
        4_294_967_168,
        u32::MAX,
    ] {
        assert_eq!(Single::from_u32(v), single(v as f32), "{}", v);
    }
}

#[test]
fn signed_integers_convert_like_casts() {
    for v in [
        0,
        1,
        -1,
        35,
        -15,
        16_777_217,
        -16_777_217,
        -16_777_219,
        i32::MAX,
        i32::MIN,
        i32::MIN + 1,
        i32::MIN + 65,
    ] {
        assert_eq!(Single::from_i32(v), single(v as f32), "{}", v);
    }
    assert_eq!(Single::from_i32(-15).bits, 0xc170_0000);
}

#[test]
fn small_integers_are_exact() {
    for v in [0u32, 7, 12_345, 16_777_215] {
        assert_eq!(Single::from_u32(v).to_whole(), v as usize);
    }
    assert_eq!(Single::from_u32(16_777_217).to_whole(), 16_777_216);
}
