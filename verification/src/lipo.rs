//! Charge of a single Li-Po cell from its voltage.

use vstd::prelude::*;

verus! {

/// Points of the discharge curve at a small current, millivolts and percent,
/// from full to empty.
pub open spec fn curve_points() -> Seq<(u16, u8)> {
    seq![
        (4200, 100),
        (4100, 90),
        (4000, 80),
        (3930, 70),
        (3870, 60),
        (3800, 50),
        (3750, 40),
        (3700, 30),
        (3650, 20),
        (3550, 10),
        (3400, 0),
    ]
}

/// Points of the discharge curve, from full to empty.
pub fn curve() -> (r: [(u16, u8); 11])
    ensures
        r@ == curve_points(),
{
    let points: [(u16, u8); 11] = [
        (4200, 100),
        (4100, 90),
        (4000, 80),
        (3930, 70),
        (3870, 60),
        (3800, 50),
        (3750, 40),
        (3700, 30),
        (3650, 20),
        (3550, 10),
        (3400, 0),
    ];
    assert(points@ =~= curve_points());
    points
}

/// Percent on the segment from point `k + 1` up to point `k` of the curve.
pub open spec fn on_segment(mv: int, k: int) -> int {
    let hi = curve_points()[k];
    let lo = curve_points()[k + 1];
    lo.1 + (mv - lo.0) * (hi.1 - lo.1) / (hi.0 - lo.0)
}

/// Whether a voltage lies on the segment from point `k + 1` up to point `k`.
pub open spec fn in_segment(mv: int, k: int) -> bool {
    &&& 0 <= k < 10
    &&& curve_points()[k + 1].0 <= mv <= curve_points()[k].0
}

/// Charge in percent: linear between the points of the curve, flat beyond its
/// ends.
pub open spec fn charge(mv: int) -> int {
    if mv >= 4200 {
        100
    } else if mv >= 4100 {
        90 + (mv - 4100) * 10 / 100
    } else if mv >= 4000 {
        80 + (mv - 4000) * 10 / 100
    } else if mv >= 3930 {
        70 + (mv - 3930) * 10 / 70
    } else if mv >= 3870 {
        60 + (mv - 3870) * 10 / 60
    } else if mv >= 3800 {
        50 + (mv - 3800) * 10 / 70
    } else if mv >= 3750 {
        40 + (mv - 3750) * 10 / 50
    } else if mv >= 3700 {
        30 + (mv - 3700) * 10 / 50
    } else if mv >= 3650 {
        20 + (mv - 3650) * 10 / 50
    } else if mv >= 3550 {
        10 + (mv - 3550) * 10 / 100
    } else if mv >= 3400 {
        (mv - 3400) * 10 / 150
    } else {
        0
    }
}

/// The slopes that occur on the curve.
proof fn lemma_slopes(above: int, rise: int, span: int)
    by (nonlinear_arith)
    requires
        rise == 10,
    ensures
        above * rise == above * 10,
        span == 50 ==> above * 10 / span == above * 10 / 50,
        span == 60 ==> above * 10 / span == above * 10 / 60,
        span == 70 ==> above * 10 / span == above * 10 / 70,
        span == 100 ==> above * 10 / span == above * 10 / 100,
        span == 150 ==> above * 10 / span == above * 10 / 150,
{
}

/// Between two neighbouring points the charge is their linear interpolation.
pub proof fn law_charge_interpolates(mv: int, k: int)
    requires
        in_segment(mv, k),
    ensures
        on_segment(mv, k) == charge(mv),
        0 <= charge(mv) <= 100,
{
    let hi = curve_points()[k];
    let lo = curve_points()[k + 1];
    lemma_curve_falls(k);
    lemma_slopes(mv - lo.0, hi.1 - lo.1, hi.0 - lo.0);
    assert(k == 0 || k == 1 || k == 2 || k == 3 || k == 4 || k == 5 || k == 6 || k == 7 || k == 8 || k
        == 9);
}

/// Estimates the charge from the voltage, linearly between the points of the
/// curve.
pub fn percent(mv: u16) -> (r: u8)
    ensures
        r == charge(mv as int),
        r <= 100,
{
    let points = curve();
    let top = points[0];
    if mv >= top.0 {
        return top.1;
    }
    let bottom = points[10];
    if mv <= bottom.0 {
        return bottom.1;
    }
    let mut k: usize = 0;
    while k < 10
        invariant
            k <= 10,
            points@ == curve_points(),
            3400 < mv < 4200,
            k < 10 ==> mv <= curve_points()[k as int].0,
            k == 10 ==> mv <= 3400,
        decreases 10 - k,
    {
        let hi = points[k];
        let lo = points[k + 1];
        if mv <= hi.0 && mv >= lo.0 {
            proof {
                assert(in_segment(mv as int, k as int));
                law_charge_interpolates(mv as int, k as int);
                lemma_curve_falls(k as int);
            }
            let span: u32 = (hi.0 - lo.0) as u32;
            let above: u32 = (mv - lo.0) as u32;
            let rise: u32 = (hi.1 - lo.1) as u32;
            assert(above * rise <= 1500) by (nonlinear_arith)
                requires
                    above <= 150,
                    rise <= 10,
            ;
            return (lo.1 as u32 + above * rise / span) as u8;
        }
        k = k + 1;
    }
    bottom.1
}

/// Neighbouring points of the curve are 50 to 150 mV and 10 percent apart.
proof fn lemma_curve_falls(k: int)
    requires
        0 <= k < 10,
    ensures
        50 <= curve_points()[k].0 - curve_points()[k + 1].0 <= 150,
        curve_points()[k].1 - curve_points()[k + 1].1 == 10,
{
    assert(k == 0 || k == 1 || k == 2 || k == 3 || k == 4 || k == 5 || k == 6 || k == 7 || k == 8 || k
        == 9);
}

/// A higher voltage never means a lower charge, and the charge is a percentage.
pub proof fn law_charge_is_monotonic(low: int, high: int)
    requires
        low <= high,
    ensures
        0 <= charge(low) <= charge(high) <= 100,
{
}

/// Every point of the curve is met exactly.
pub proof fn law_charge_meets_the_curve(k: int)
    requires
        0 <= k < 11,
    ensures
        charge(curve_points()[k].0 as int) == curve_points()[k].1,
{
    assert(k == 0 || k == 1 || k == 2 || k == 3 || k == 4 || k == 5 || k == 6 || k == 7 || k == 8 || k
        == 9 || k == 10);
}

/// Between two points of the curve the charge is the whole percent that the
/// straight line between them has reached.
pub proof fn law_charge_between_points(mv: int)
    ensures
        4100 <= mv <= 4200 ==> 100 * (charge(mv) - 90) <= 10 * (mv - 4100) < 100 * (charge(mv) - 89),
        4000 <= mv <= 4100 ==> 100 * (charge(mv) - 80) <= 10 * (mv - 4000) < 100 * (charge(mv) - 79),
        3930 <= mv <= 4000 ==> 70 * (charge(mv) - 70) <= 10 * (mv - 3930) < 70 * (charge(mv) - 69),
        3870 <= mv <= 3930 ==> 60 * (charge(mv) - 60) <= 10 * (mv - 3870) < 60 * (charge(mv) - 59),
        3800 <= mv <= 3870 ==> 70 * (charge(mv) - 50) <= 10 * (mv - 3800) < 70 * (charge(mv) - 49),
        3750 <= mv <= 3800 ==> 50 * (charge(mv) - 40) <= 10 * (mv - 3750) < 50 * (charge(mv) - 39),
        3700 <= mv <= 3750 ==> 50 * (charge(mv) - 30) <= 10 * (mv - 3700) < 50 * (charge(mv) - 29),
        3650 <= mv <= 3700 ==> 50 * (charge(mv) - 20) <= 10 * (mv - 3650) < 50 * (charge(mv) - 19),
        3550 <= mv <= 3650 ==> 100 * (charge(mv) - 10) <= 10 * (mv - 3550) < 100 * (charge(mv) - 9),
        3400 <= mv <= 3550 ==> 150 * charge(mv) <= 10 * (mv - 3400) < 150 * (charge(mv) + 1),
        mv >= 4200 ==> charge(mv) == 100,
        mv <= 3400 ==> charge(mv) == 0,
{
}

} // verus!
