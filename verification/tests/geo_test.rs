use restations::geo::distance_meters;

/// The haversine distance in meters, computed in floating point, as a
/// reference for the fixed-point implementation.
fn reference_haversine(lat1: i64, lon1: i64, lat2: i64, lon2: i64) -> f64 {
    let to_rad = |udeg: i64| (udeg as f64) / 1e6 * std::f64::consts::PI / 180.0;
    let (p1, l1, p2, l2) = (to_rad(lat1), to_rad(lon1), to_rad(lat2), to_rad(lon2));
    let a = ((p2 - p1) / 2.0).sin().powi(2)
        + p1.cos() * p2.cos() * ((l2 - l1) / 2.0).sin().powi(2);
    2.0 * 6_371_000.0 * a.sqrt().atan2((1.0 - a).sqrt())
}

fn check(lat1: i64, lon1: i64, lat2: i64, lon2: i64, tolerance_m: f64) {
    let got = distance_meters(lat1, lon1, lat2, lon2) as f64;
    let want = reference_haversine(lat1, lon1, lat2, lon2);
    assert!(
        (got - want).abs() <= tolerance_m,
        "distance {} deviates from reference {}",
        got,
        want
    );
}

#[test]
fn distance_matches_the_haversine_reference() {
    // London Charing Cross to London Waterloo.
    check(51_507_000, -123_000, 51_503_000, -113_000, 2.0);
    // Across Lisbon.
    check(38_713_870, -9_122_271, 38_710_000, -9_120_000, 2.0);
    // Across Berlin.
    check(52_525_000, 13_369_000, 52_500_000, 13_500_000, 2.0);
    // One degree of longitude at the equator.
    check(0, 0, 0, 1_000_000, 2.0);
    // High latitude, where a longitude degree is short.
    check(89_000_000, 0, 89_000_000, 10_000_000, 2.0);
    // Nearly antipodal points.
    check(45_000_000, 45_000_000, -45_000_000, -135_000_000, 100.0);
}

#[test]
fn distance_is_zero_between_equal_points() {
    assert_eq!(distance_meters(10_000_000, 20_000_000, 10_000_000, 20_000_000), 0);
    assert_eq!(distance_meters(0, 0, 0, 0), 0);
    assert_eq!(distance_meters(-90_000_000, 180_000_000, -90_000_000, 180_000_000), 0);
}

#[test]
fn distance_is_symmetric() {
    let pairs = [
        (51_507_000, -123_000, 38_713_870, -9_122_271),
        (0, 0, 45_000_000, 90_000_000),
        (-33_868_000, 151_207_000, 40_712_000, -74_006_000),
    ];
    for (a, b, c, d) in pairs {
        assert_eq!(distance_meters(a, b, c, d), distance_meters(c, d, a, b));
    }
}

#[test]
fn known_distances_come_out_in_meters() {
    // About five kilometers of latitude.
    let d5 = distance_meters(48_000_000, 2_000_000, 48_045_000, 2_000_000);
    assert!(4_950 < d5 && d5 < 5_060, "got {}", d5);
    // About fifty kilometers of latitude.
    let d50 = distance_meters(48_000_000, 2_000_000, 48_450_000, 2_000_000);
    assert!(49_900 < d50 && d50 < 50_150, "got {}", d50);
}
