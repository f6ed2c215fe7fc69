use vstd::prelude::*;

verus! {

/// Degrees are carried as integers in units of 1e-7 degree.
pub const DEGREE_SCALE: i32 = 10_000_000;

/// A geographic position, latitude and longitude in 1e-7 degree.
#[derive(Clone, Copy, Debug, PartialEq, Eq, Structural)]
pub struct Coordinate {
    pub lat_e7: i32,
    pub lon_e7: i32,
}

/// Haversine distance in millimetres between two positions (latitude and
/// longitude in 1e-7 degree), on a sphere of radius 6371 km.
pub uninterp spec fn haversine_mm(lat1: int, lon1: int, lat2: int, lon2: int) -> nat;

/// Geodesic (Vincenty) distance in millimetres between two positions, or
/// `None` where the iteration does not converge.
pub uninterp spec fn geodesic_mm(lat1: int, lon1: int, lat2: int, lon2: int) -> Option<nat>;

pub open spec fn distance_mm(a: Coordinate, b: Coordinate) -> nat {
    haversine_mm(a.lat_e7 as int, a.lon_e7 as int, b.lat_e7 as int, b.lon_e7 as int)
}

/// Relies on geoutils::Location::haversine_distance_to (sphere of radius
/// 6371e3 m), which rounds its result to the millimetre. The body only
/// converts units: 1e-7 degree to degrees on the way in, metres to whole
/// millimetres on the way out.
#[verifier::external_body]
fn haversine_distance(a: Coordinate, b: Coordinate) -> (r: u64)
    ensures
        r as nat == haversine_mm(a.lat_e7 as int, a.lon_e7 as int, b.lat_e7 as int, b.lon_e7 as int),
{
    let scale = geoutils::Distance::from_meters(DEGREE_SCALE).meters();
    let mm = geoutils::Distance::from_meters(1000u16).meters();
    let from = geoutils::Location::new_const(
        geoutils::Distance::from_meters(a.lat_e7).meters() / scale,
        geoutils::Distance::from_meters(a.lon_e7).meters() / scale,
    );
    let to = geoutils::Location::new_const(
        geoutils::Distance::from_meters(b.lat_e7).meters() / scale,
        geoutils::Distance::from_meters(b.lon_e7).meters() / scale,
    );
    (from.haversine_distance_to(&to).meters() * mm).round() as u64
}

/// Relies on geoutils::Location::distance_to (Vincenty's inverse formula),
/// which rounds to the millimetre and fails when it does not converge. For
/// two equal positions the formula stops at its first step with a distance
/// of zero. The body converts units as in `haversine_distance`.
#[verifier::external_body]
pub(crate) fn geodesic_distance(a: Coordinate, b: Coordinate) -> (r: Option<u64>)
    ensures
        r matches Some(d) ==> geodesic_mm(a.lat_e7 as int, a.lon_e7 as int, b.lat_e7 as int, b.lon_e7 as int)
            == Some(d as nat),
        r is None ==> geodesic_mm(a.lat_e7 as int, a.lon_e7 as int, b.lat_e7 as int, b.lon_e7 as int) is None,
        a == b ==> r == Some(0u64),
{
    let scale = geoutils::Distance::from_meters(DEGREE_SCALE).meters();
    let mm = geoutils::Distance::from_meters(1000u16).meters();
    let from = geoutils::Location::new_const(
        geoutils::Distance::from_meters(a.lat_e7).meters() / scale,
        geoutils::Distance::from_meters(a.lon_e7).meters() / scale,
    );
    let to = geoutils::Location::new_const(
        geoutils::Distance::from_meters(b.lat_e7).meters() / scale,
        geoutils::Distance::from_meters(b.lon_e7).meters() / scale,
    );
    from.distance_to(&to).ok().map(|d| (d.meters() * mm).round() as u64)
}

/// Great-circle distance in millimetres between two positions.
pub fn calculate_distance(a: Coordinate, b: Coordinate) -> (r: u64)
    ensures
        r as nat == distance_mm(a, b),
{
    haversine_distance(a, b)
}

} // verus!
