//! Constants and parameters, as stored values.
use crate::fixed::lemma_round_div_nearest;
use crate::fixed::product_value;
use crate::fixed::quotient_value;
use crate::fixed::round_div;
use crate::fixed::ONE;
use vstd::prelude::*;

verus! {

/// One half.
pub const HALF: i64 = 500_000_000_000;

/// Pi.
pub const PI: i64 = 3_141_592_653_590;

/// Degrees to radians.
pub const DEG_TO_RAD: i64 = 17_453_292_520;

/// Radians to degrees.
pub const RAD_TO_DEG: i64 = 57_295_779_513_082;

/// Earth rotation rate (rad/s).
pub const OMEGA_EARTH: i64 = 72_921_159;

/// Earth gravitational constant (km^3/s^2): 3.986005e14 m^3/s^2, which in
/// cubic metres is beyond the stored range.
pub const KM: i64 = 398_600_500_000_000_000;

/// Normal gravity at the equator (m/s^2).
pub const GEQ: i64 = 9_780_326_771_500;

/// WGS84 ellipsoid semi-major axis (m).
pub const A: i64 = 6_378_137_000_000_000_000;

/// WGS84 ellipsoid semi-minor axis (m).
pub const B: i64 = 6_356_752_314_100_000_000;

/// WGS84 ellipsoid flattening, 1 / 298.257222101.
pub const F: i64 = 3_352_810_681;

/// First eccentricity squared, `2 F - F^2`.
pub const E2: i64 = 6_694_380_023;

/// Second eccentricity squared, `(A^2 - B^2) / B^2`.
pub const E2_SECOND: i64 = 6_739_496_788;

/// `E2 * A` (m).
pub const E2_A: i64 = 42_697_672_916_757_151;

/// `E2_SECOND * B` (m).
pub const E2_SECOND_B: i64 = 42_841_311_802_988_517;

/// The ratio of the axes, `B / A`.
pub const AXIS_RATIO: i64 = 996_647_189_312;

/// The flattening is the rounded reciprocal of 298.257222101.
pub proof fn lemma_flattening()
    ensures
        F == round_div(ONE * 1_000_000_000, 298_257_222_101),
{
    assert(ONE * 1_000_000_000 == 1_000_000_000_000_000_000_000) by (nonlinear_arith)
        requires
            ONE == 1_000_000_000_000,
    ;
    lemma_round_div_nearest(
        1_000_000_000_000_000_000_000int,
        298_257_222_101int,
        3_352_810_681int,
    );
}

/// The first eccentricity squared is `2 F - F^2`.
pub proof fn lemma_first_eccentricity()
    ensures
        E2 == 2 * F - product_value(F as int, F as int),
{
    assert(F * F == 11_241_339_462_627_683_761) by (nonlinear_arith)
        requires
            F == 3_352_810_681,
    ;
    lemma_round_div_nearest(
        11_241_339_462_627_683_761int,
        1_000_000_000_000int,
        11_241_339int,
    );
}

/// The second eccentricity squared is `(A^2 - B^2) / B^2`.
pub proof fn lemma_second_eccentricity()
    ensures
        E2_SECOND == round_div((A * A - B * B) * ONE, B * B),
{
    assert((A * A - B * B) * ONE == 272_331_607_953_294_941_190_000_000_000_000_000_000_000_000_000) by (nonlinear_arith)
        requires
            A == 6_378_137_000_000_000_000,
            B == 6_356_752_314_100_000_000,
            ONE == 1_000_000_000_000,
    ;
    assert(B * B == 40_408_299_982_815_705_058_810_000_000_000_000_000) by (nonlinear_arith)
        requires
            B == 6_356_752_314_100_000_000,
    ;
    lemma_round_div_nearest(
        272_331_607_953_294_941_190_000_000_000_000_000_000_000_000_000int,
        40_408_299_982_815_705_058_810_000_000_000_000_000int,
        6_739_496_788int,
    );
}

/// `E2_A` and `E2_SECOND_B` are the rounded products that their names say.
pub proof fn lemma_scaled_eccentricities()
    ensures
        E2_A == product_value(E2 as int, A as int),
        E2_SECOND_B == product_value(E2_SECOND as int, B as int),
{
    assert(E2 * A == 42_697_672_916_757_151_000_000_000_000) by (nonlinear_arith)
        requires
            A == 6_378_137_000_000_000_000,
            E2 == 6_694_380_023,
    ;
    lemma_round_div_nearest(
        42_697_672_916_757_151_000_000_000_000int,
        1_000_000_000_000int,
        42_697_672_916_757_151int,
    );
    assert(E2_SECOND * B == 42_841_311_802_988_517_110_800_000_000) by (nonlinear_arith)
        requires
            B == 6_356_752_314_100_000_000,
            E2_SECOND == 6_739_496_788,
    ;
    lemma_round_div_nearest(
        42_841_311_802_988_517_110_800_000_000int,
        1_000_000_000_000int,
        42_841_311_802_988_517int,
    );
}

/// The ratio of the axes is the rounded quotient `B / A`.
pub proof fn lemma_axis_ratio()
    ensures
        AXIS_RATIO == quotient_value(B as int, A as int),
{
    assert(B * ONE == 6_356_752_314_100_000_000_000_000_000_000) by (nonlinear_arith)
        requires
            B == 6_356_752_314_100_000_000,
            ONE == 1_000_000_000_000,
    ;
    lemma_round_div_nearest(
        6_356_752_314_100_000_000_000_000_000_000int,
        6_378_137_000_000_000_000int,
        996_647_189_312int,
    );
}

} // verus!
