use simple_3d::Depth;

fn depth(z: f32) -> Depth {
    Depth::from_bits(z.to_bits())
}

#[test]
fn depth_order_matches_single_precision() {
    let values = [
        0.0f32,
        -0.0,
        1.0,
        -1.0,
        0.5,
        2.0,
        1.0e-40,
        -1.0e-40,
        f32::MIN_POSITIVE,
        f32::MAX,
        f32::MIN,
        f32::INFINITY,
        f32::NEG_INFINITY,
        f32::NAN,
        123.456,
        -0.001,
    ];
    for a in values {
        for b in values {
            assert_eq!(depth(a).lt(depth(b)), a < b, "{} < {}", a, b);
        }
        assert_eq!(depth(a).is_finite(), a.is_finite());
        assert_eq!(depth(a).is_nan(), a.is_nan());
    }
}

#[test]
fn infinity_is_positive_infinity() {
    assert_eq!(f32::from_bits(Depth::infinity().to_bits()), f32::INFINITY);
    assert!(depth(f32::MAX).lt(Depth::infinity()));
    assert!(!Depth::infinity().is_finite());
}
