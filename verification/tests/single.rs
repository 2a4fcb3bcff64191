use respeaker_algo::single::{single, Single};

const VALUES: [f32; 13] = [
    0.0,
    -0.0,
    1.0,
    -1.0,
    f32::MIN_POSITIVE,
    1.0e-45,
    -1.0e-45,
    f32::MAX,
    f32::MIN,
    f32::INFINITY,
    f32::NEG_INFINITY,
    f32::NAN,
    0.1,
];

fn s(value: f32) -> Single {
    single(value.to_bits())
}

#[test]
fn patterns_compare_like_numbers() {
    for a in VALUES {
        assert_eq!(s(a).is_finite(), a.is_finite(), "{a}");
        assert_eq!(s(a).is_nan(), a.is_nan(), "{a}");
        for b in VALUES {
            assert_eq!(s(a).le(s(b)), a <= b, "{a} {b}");
            assert_eq!(s(a).lt(s(b)), a < b, "{a} {b}");
            for c in VALUES {
                assert_eq!(s(a).between(s(b), s(c)), (b..=c).contains(&a), "{a} {b} {c}");
            }
        }
    }
}

#[test]
fn patterns_are_limited_like_numbers() {
    for a in VALUES {
        let expected = if a.is_finite() { a } else { 0.5 };
        assert_eq!(s(a).finite_or(s(0.5)).bits, expected.to_bits(), "{a}");
        if a.is_finite() {
            assert_eq!(s(a).clamped(s(-1.0), s(1.0)).bits, a.clamp(-1.0, 1.0).to_bits(), "{a}");
        }
    }
}
