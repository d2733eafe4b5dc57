use prpr_recorder::timestamp::Timestamp;

#[test]
fn compares_as_binary64() {
    let values = [
        f64::NEG_INFINITY, f64::MIN, -1.5, -1.0, -f64::MIN_POSITIVE, -5e-324, -0.0, 0.0, 5e-324,
        f64::MIN_POSITIVE, 0.06, 1.0, 1.0000000000000002, 1.5, 1e300, f64::MAX, f64::INFINITY, f64::NAN, -f64::NAN,
    ];
    for a in values {
        for b in values {
            let x = Timestamp { bits: a.to_bits() };
            let y = Timestamp { bits: b.to_bits() };
            assert_eq!(x.is_at_most(y), a <= b, "{a} {b}");
            assert_eq!(x.is_below(y), a < b, "{a} {b}");
            assert_eq!(x.is_nan(), a.is_nan());
        }
    }
}
