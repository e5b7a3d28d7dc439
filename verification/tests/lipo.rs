use sim800l_gateway::lipo::{curve, percent};

#[test]
fn clamps_outside_the_curve() {
    assert_eq!(percent(4300), 100);
    assert_eq!(percent(4200), 100);
    assert_eq!(percent(3400), 0);
    assert_eq!(percent(3000), 0);
}

#[test]
fn hits_curve_points_exactly() {
    for (mv, pct) in curve() {
        assert_eq!(percent(mv), pct, "точка кривой {mv} мВ");
    }
}

#[test]
fn interpolates_between_points() {
    assert_eq!(percent(3775), 45);
    assert_eq!(percent(4150), 95);
}

#[test]
fn is_monotonic() {
    let mut prev = 0;
    for mv in 3300..=4300 {
        let p = percent(mv);
        assert!(p >= prev, "не монотонно на {mv} мВ: {p} < {prev}");
        prev = p;
    }
}

#[test]
fn rounds_down_between_points() {
    assert_eq!(percent(3936), 70);
    assert_eq!(percent(3937), 71);
    assert_eq!(percent(3401), 0);
    assert_eq!(percent(3415), 1);
    assert_eq!(percent(4199), 99);
    assert_eq!(percent(0), 0);
    assert_eq!(percent(u16::MAX), 100);
}
