use vstd::prelude::*;
use crate::geo::Coordinate;

verus! {

/// One planned stop of one scheduled trip.
pub struct Line {
    pub schedule_id: String,
    pub datum: String,
    pub frt_fid: u32,
    pub frt_start: u32,
    pub line: u32,
    pub richtung: u32,
    pub varianten: u32,
    pub umlauf: u32,
    pub lfnr: u32,
    pub ankunft: u32,
    pub abfahrt: u32,
    pub zeitpkt: String,
    /// Scheduled instant, in seconds since the epoch.
    pub zeit: u64,
    pub ort_nr: u32,
    pub ort_name: String,
    pub coordinate: Coordinate,
    /// Projected coordinates, kept as written in the schedule.
    pub x: String,
    pub y: String,
    pub fahrt_start: String,
    pub fahrt_ende: String,
    pub wkt: String,
}

/// One observed vehicle sample.
pub struct Bus {
    pub vehicle: String,
    pub datum: String,
    pub zeit: String,
    pub zeit_next: String,
    /// Observed instant, in seconds since the epoch.
    pub unixzeit: u64,
    pub coordinate: Coordinate,
    /// Projected coordinates, kept as written in the telemetry.
    pub x: String,
    pub y: String,
    /// Event type; the payment tag marks a fare payment.
    pub typ: String,
    pub einsteiger: u32,
    pub aussteiger: u32,
    /// Geometry of the sample, compared as text.
    pub wkt: String,
}

impl Bus {
    /// A field-by-field copy.
    pub fn duplicate(&self) -> (r: Bus)
        ensures
            r == *self,
    {
        Bus {
            vehicle: self.vehicle.clone(),
            datum: self.datum.clone(),
            zeit: self.zeit.clone(),
            zeit_next: self.zeit_next.clone(),
            unixzeit: self.unixzeit,
            coordinate: self.coordinate,
            x: self.x.clone(),
            y: self.y.clone(),
            typ: self.typ.clone(),
            einsteiger: self.einsteiger,
            aussteiger: self.aussteiger,
            wkt: self.wkt.clone(),
        }
    }
}

/// All stop events of one schedule file, under that file's key.
pub struct ScheduleGroup {
    pub key: String,
    pub stops: Vec<Line>,
}

/// All pings of one vehicle, under its identifier.
pub struct VehicleGroup {
    pub vehicle: String,
    pub pings: Vec<Bus>,
}

/// A schedule group paired with the vehicle chosen to serve it.
pub struct Assignment {
    pub line_id: String,
    pub bus_id: String,
}

/// An edge of the stop graph: a numbered list of (source, target) stop pairs.
pub struct Edge {
    pub edge_nummer: u64,
    pub edge_zuordnung: Vec<(String, String)>,
}

/// Largest gap, in seconds, between a scheduled and an observed instant for
/// the two to be compared at all.
pub const TIME_TOLERANCE_SECONDS: u64 = 600;

/// Largest delay, in seconds, accepted when a stop event is matched to a ping.
pub const MAX_DELAY_SECONDS: u64 = 300;

/// Absolute difference of two instants in seconds.
pub open spec fn gap(a: u64, b: u64) -> nat {
    if a >= b {
        (a - b) as nat
    } else {
        (b - a) as nat
    }
}

/// Absolute difference of two instants in seconds.
pub fn time_gap(a: u64, b: u64) -> (r: u64)
    ensures
        r as nat == gap(a, b),
{
    if a >= b {
        a - b
    } else {
        b - a
    }
}

/// Whether two instants lie within the time-compatibility window.
pub fn is_time_compatible(line_time: u64, bus_time: u64) -> (r: bool)
    ensures
        r == (gap(line_time, bus_time) <= TIME_TOLERANCE_SECONDS),
{
    time_gap(line_time, bus_time) <= TIME_TOLERANCE_SECONDS
}

/// Whether two instants lie within the delay-acceptability window.
pub fn is_delay_acceptable(line_time: u64, bus_time: u64) -> (r: bool)
    ensures
        r == (gap(line_time, bus_time) <= MAX_DELAY_SECONDS),
{
    time_gap(line_time, bus_time) <= MAX_DELAY_SECONDS
}

} // verus!
