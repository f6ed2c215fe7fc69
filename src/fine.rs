use vstd::prelude::*;
use crate::geo::{calculate_distance, distance_mm};
use crate::model::{
    gap, is_delay_acceptable, is_time_compatible, Assignment, Bus, Line, ScheduleGroup,
    VehicleGroup, MAX_DELAY_SECONDS, TIME_TOLERANCE_SECONDS,
};

verus! {

/// Distance in millimetres between a stop event and a ping.
pub open spec fn stop_distance(e: Line, p: Bus) -> nat {
    distance_mm(e.coordinate, p.coordinate)
}

/// A ping may be matched to a stop event when it lies within both the
/// time-compatibility and the delay-acceptability window.
pub open spec fn within_windows(e: Line, p: Bus) -> bool {
    gap(e.zeit, p.unixzeit) <= TIME_TOLERANCE_SECONDS && gap(e.zeit, p.unixzeit) <= MAX_DELAY_SECONDS
}

/// `i` is the first ping, among those within both windows, at the least
/// distance from the stop event.
pub open spec fn is_nearest(e: Line, pings: Seq<Bus>, i: int) -> bool {
    &&& 0 <= i < pings.len()
    &&& within_windows(e, pings[i])
    &&& forall|j: int|
        0 <= j < pings.len() && #[trigger] within_windows(e, pings[j]) ==> stop_distance(e, pings[i])
            <= stop_distance(e, pings[j])
    &&& forall|j: int|
        0 <= j < i && #[trigger] within_windows(e, pings[j]) ==> stop_distance(e, pings[i])
            < stop_distance(e, pings[j])
}

/// The ping matched to a stop event, if any ping lies within both windows.
#[verifier::opaque]
pub open spec fn nearest(e: Line, pings: Seq<Bus>) -> Option<int> {
    if exists|i: int| is_nearest(e, pings, i) {
        Some(choose|i: int| is_nearest(e, pings, i))
    } else {
        None
    }
}

/// At most one ping is the nearest.
pub proof fn lemma_nearest_unique(e: Line, pings: Seq<Bus>, i: int, k: int)
    requires
        is_nearest(e, pings, i),
        is_nearest(e, pings, k),
    ensures
        i == k,
{
    if i < k {
        assert(within_windows(e, pings[i]));
    } else if k < i {
        assert(within_windows(e, pings[k]));
    }
}

/// The best ping of one vehicle for one stop event: the closest among those
/// within both time windows, the earliest on equal distance.
pub fn nearest_ping(e: &Line, pings: &Vec<Bus>) -> (r: Option<usize>)
    ensures
        r is None <==> forall|j: int| 0 <= j < pings@.len() ==> !within_windows(*e, #[trigger] pings@[j]),
        r matches Some(i) ==> is_nearest(*e, pings@, i as int),
        r matches Some(i) ==> nearest(*e, pings@) == Some(i as int),
        r is None ==> nearest(*e, pings@) is None,
{
    let mut best: Option<usize> = None;
    let mut best_d: u64 = 0;
    let mut k: usize = 0;
    while k < pings.len()
        invariant
            k <= pings.len(),
            best is None ==> forall|j: int| 0 <= j < k ==> !within_windows(*e, #[trigger] pings@[j]),
            best matches Some(b) ==> {
                &&& b < k
                &&& within_windows(*e, pings@[b as int])
                &&& best_d as nat == stop_distance(*e, pings@[b as int])
                &&& forall|j: int|
                    0 <= j < k && #[trigger] within_windows(*e, pings@[j]) ==> best_d <= stop_distance(
                        *e,
                        pings@[j],
                    )
                &&& forall|j: int|
                    0 <= j < b && #[trigger] within_windows(*e, pings@[j]) ==> best_d < stop_distance(
                        *e,
                        pings@[j],
                    )
            },
        decreases pings.len() - k,
    {
        let p = &pings[k];
        if is_time_compatible(e.zeit, p.unixzeit) && is_delay_acceptable(e.zeit, p.unixzeit) {
            let d = calculate_distance(e.coordinate, p.coordinate);
            if best.is_none() || d < best_d {
                best = Some(k);
                best_d = d;
            }
        }
        k += 1;
    }
    proof {
        reveal(nearest);
        if let Some(b) = best {
            assert(is_nearest(*e, pings@, b as int));
            let c = choose|i: int| is_nearest(*e, pings@, i);
            lemma_nearest_unique(*e, pings@, b as int, c);
        } else {
            if exists|i: int| is_nearest(*e, pings@, i) {
                let c = choose|i: int| is_nearest(*e, pings@, i);
                assert(within_windows(*e, pings@[c]));
            }
        }
    }
    best
}


/// A stop event paired with the ping chosen for it, both given by position:
/// the stop is `stop` of schedule group `line_group`, the ping is `ping` of
/// vehicle group `bus_group`.
#[derive(Clone, Copy, Debug, PartialEq, Eq, Structural)]
pub struct MatchedRecord {
    pub line_group: usize,
    pub stop: usize,
    pub bus_group: usize,
    pub ping: usize,
}

/// An assignment that names a group which is not there.
pub enum LookupError {
    ScheduleGroupNotFound(String),
    VehicleGroupNotFound(String),
}

/// The position of the first schedule group under `key`.
#[verifier::opaque]
pub open spec fn schedule_index(groups: Seq<ScheduleGroup>, key: Seq<char>) -> Option<int> {
    if exists|i: int| 0 <= i < groups.len() && #[trigger] groups[i].key@ == key
        && forall|j: int| 0 <= j < i ==> #[trigger] groups[j].key@ != key {
        Some(choose|i: int| 0 <= i < groups.len() && groups[i].key@ == key
            && forall|j: int| 0 <= j < i ==> #[trigger] groups[j].key@ != key)
    } else {
        None
    }
}

/// The position of the first vehicle group under `key`.
#[verifier::opaque]
pub open spec fn vehicle_index(groups: Seq<VehicleGroup>, key: Seq<char>) -> Option<int> {
    if exists|i: int| 0 <= i < groups.len() && #[trigger] groups[i].vehicle@ == key
        && forall|j: int| 0 <= j < i ==> #[trigger] groups[j].vehicle@ != key {
        Some(choose|i: int| 0 <= i < groups.len() && groups[i].vehicle@ == key
            && forall|j: int| 0 <= j < i ==> #[trigger] groups[j].vehicle@ != key)
    } else {
        None
    }
}

/// Looks up a schedule group by key.
pub fn find_schedule_group(groups: &Vec<ScheduleGroup>, key: &String) -> (r: Option<usize>)
    ensures
        r matches Some(i) ==> i < groups@.len() && groups@[i as int].key@ == key@,
        r matches Some(i) ==> schedule_index(groups@, key@) == Some(i as int),
        r is None ==> schedule_index(groups@, key@) is None,
{
    let mut i: usize = 0;
    while i < groups.len()
        invariant
            i <= groups.len(),
            forall|j: int| 0 <= j < i ==> #[trigger] groups@[j].key@ != key@,
        decreases groups.len() - i,
    {
        if groups[i].key == *key {
            proof {
                reveal(schedule_index);
                let c = choose|c: int| 0 <= c < groups@.len() && groups@[c].key@ == key@
                    && forall|j: int| 0 <= j < c ==> #[trigger] groups@[j].key@ != key@;
                if c < i {
                } else if c > i {
                    assert(groups@[i as int].key@ != key@);
                }
            }
            return Some(i);
        }
        i += 1;
    }
    proof {
        reveal(schedule_index);
        reveal(vehicle_index);
    }
    None
}

/// Looks up a vehicle group by its vehicle identifier.
pub fn find_vehicle_group(groups: &Vec<VehicleGroup>, key: &String) -> (r: Option<usize>)
    ensures
        r matches Some(i) ==> i < groups@.len() && groups@[i as int].vehicle@ == key@,
        r matches Some(i) ==> vehicle_index(groups@, key@) == Some(i as int),
        r is None ==> vehicle_index(groups@, key@) is None,
{
    let mut i: usize = 0;
    while i < groups.len()
        invariant
            i <= groups.len(),
            forall|j: int| 0 <= j < i ==> #[trigger] groups@[j].vehicle@ != key@,
        decreases groups.len() - i,
    {
        if groups[i].vehicle == *key {
            proof {
                reveal(vehicle_index);
                let c = choose|c: int| 0 <= c < groups@.len() && groups@[c].vehicle@ == key@
                    && forall|j: int| 0 <= j < c ==> #[trigger] groups@[j].vehicle@ != key@;
                if c < i {
                } else if c > i {
                    assert(groups@[i as int].vehicle@ != key@);
                }
            }
            return Some(i);
        }
        i += 1;
    }
    proof {
        reveal(schedule_index);
        reveal(vehicle_index);
    }
    None
}

/// The records for the first `n` stop events of schedule group `g`, matched
/// against the pings of vehicle group `v`: one for each stop event that has
/// a nearest ping, in stop order.
pub open spec fn stop_records(
    lines: Seq<ScheduleGroup>,
    buses: Seq<VehicleGroup>,
    g: int,
    v: int,
    n: int,
) -> Seq<MatchedRecord>
    decreases n,
{
    if n <= 0 {
        Seq::empty()
    } else {
        let earlier = stop_records(lines, buses, g, v, n - 1);
        match nearest(lines[g].stops@[n - 1], buses[v].pings@) {
            Some(i) => earlier.push(
                MatchedRecord {
                    line_group: g as usize,
                    stop: (n - 1) as usize,
                    bus_group: v as usize,
                    ping: i as usize,
                },
            ),
            None => earlier,
        }
    }
}

/// Whether both groups that an assignment names are there.
pub open spec fn resolves(lines: Seq<ScheduleGroup>, buses: Seq<VehicleGroup>, a: Assignment) -> bool {
    schedule_index(lines, a.line_id@) is Some && vehicle_index(buses, a.bus_id@) is Some
}

/// The records of the first `n` assignments, in assignment order.
pub open spec fn fine_records(
    lines: Seq<ScheduleGroup>,
    buses: Seq<VehicleGroup>,
    assignment: Seq<Assignment>,
    n: int,
) -> Seq<MatchedRecord>
    decreases n,
{
    if n <= 0 {
        Seq::empty()
    } else {
        let earlier = fine_records(lines, buses, assignment, n - 1);
        let a = assignment[n - 1];
        match (schedule_index(lines, a.line_id@), vehicle_index(buses, a.bus_id@)) {
            (Some(g), Some(v)) => earlier + stop_records(
                lines,
                buses,
                g,
                v,
                lines[g].stops@.len() as int,
            ),
            _ => earlier,
        }
    }
}

/// The error for an assignment that does not resolve: the schedule group is
/// looked up first.
pub open spec fn lookup_error(lines: Seq<ScheduleGroup>, a: Assignment) -> LookupError {
    if schedule_index(lines, a.line_id@) is None {
        LookupError::ScheduleGroupNotFound(a.line_id)
    } else {
        LookupError::VehicleGroupNotFound(a.bus_id)
    }
}

/// Matches the stop events of schedule group `g` against the pings of
/// vehicle group `v`, appending the records to `out`.
fn match_group(
    lines: &Vec<ScheduleGroup>,
    buses: &Vec<VehicleGroup>,
    g: usize,
    v: usize,
    out: &mut Vec<MatchedRecord>,
)
    requires
        g < lines@.len(),
        v < buses@.len(),
    ensures
        final(out)@ == old(out)@ + stop_records(
            lines@,
            buses@,
            g as int,
            v as int,
            lines@[g as int].stops@.len() as int,
        ),
{
    let stops = &lines[g].stops;
    let pings = &buses[v].pings;
    let ghost start = out@;
    let mut k: usize = 0;
    while k < stops.len()
        invariant
            stops == lines@[g as int].stops,
            pings == buses@[v as int].pings,
            g < lines@.len(),
            v < buses@.len(),
            k <= stops@.len(),
            out@ == start + stop_records(lines@, buses@, g as int, v as int, k as int),
        decreases stops.len() - k,
    {
        let found = nearest_ping(&stops[k], pings);
        if let Some(i) = found {
            out.push(MatchedRecord { line_group: g, stop: k, bus_group: v, ping: i });
        }
        proof {
            let earlier = stop_records(lines@, buses@, g as int, v as int, k as int);
            if let Some(i) = found {
                assert(start + earlier.push(
                    MatchedRecord { line_group: g, stop: k, bus_group: v, ping: i },
                ) == (start + earlier).push(
                    MatchedRecord { line_group: g, stop: k, bus_group: v, ping: i },
                ));
            }
        }
        k += 1;
    }
}

/// For every assignment, in order, matches each stop event of the assigned
/// schedule group to the nearest ping of the assigned vehicle within both
/// time windows. An assignment that names a missing group is an error.
pub fn find_nearest_coordinates(
    lines: &Vec<ScheduleGroup>,
    buses: &Vec<VehicleGroup>,
    assignment: &Vec<Assignment>,
) -> (r: Result<Vec<MatchedRecord>, LookupError>)
    ensures
        r is Ok <==> forall|k: int|
            0 <= k < assignment@.len() ==> resolves(lines@, buses@, #[trigger] assignment@[k]),
        r matches Ok(out) ==> out@ == fine_records(lines@, buses@, assignment@, assignment@.len() as int),
        r matches Err(e) ==> exists|k: int|
            0 <= k < assignment@.len() && !resolves(lines@, buses@, #[trigger] assignment@[k])
                && (forall|j: int| 0 <= j < k ==> resolves(lines@, buses@, #[trigger] assignment@[j]))
                && e == lookup_error(lines@, assignment@[k]),
{
    let mut out: Vec<MatchedRecord> = Vec::new();
    let mut k: usize = 0;
    while k < assignment.len()
        invariant
            k <= assignment@.len(),
            forall|j: int| 0 <= j < k ==> resolves(lines@, buses@, #[trigger] assignment@[j]),
            out@ == fine_records(lines@, buses@, assignment@, k as int),
        decreases assignment.len() - k,
    {
        let a = &assignment[k];
        let g = match find_schedule_group(lines, &a.line_id) {
            Some(g) => g,
            None => {
                let e = LookupError::ScheduleGroupNotFound(a.line_id.clone());
                proof {
                    assert(!resolves(lines@, buses@, assignment@[k as int]));
                    assert(e == lookup_error(lines@, assignment@[k as int]));
                }
                return Err(e);
            },
        };
        let v = match find_vehicle_group(buses, &a.bus_id) {
            Some(v) => v,
            None => {
                let e = LookupError::VehicleGroupNotFound(a.bus_id.clone());
                proof {
                    assert(!resolves(lines@, buses@, assignment@[k as int]));
                    assert(e == lookup_error(lines@, assignment@[k as int]));
                }
                return Err(e);
            },
        };
        match_group(lines, buses, g, v, &mut out);
        proof {
            assert(resolves(lines@, buses@, assignment@[k as int]));
        }
        k += 1;
    }
    Ok(out)
}


/// A record names an existing stop event and the nearest ping of the named
/// vehicle group within both windows.
pub open spec fn record_is_nearest(
    lines: Seq<ScheduleGroup>,
    buses: Seq<VehicleGroup>,
    m: MatchedRecord,
) -> bool {
    &&& m.line_group < lines.len()
    &&& m.stop < lines[m.line_group as int].stops@.len()
    &&& m.bus_group < buses.len()
    &&& is_nearest(
        lines[m.line_group as int].stops@[m.stop as int],
        buses[m.bus_group as int].pings@,
        m.ping as int,
    )
}

/// Every length fits in a `usize`, as it does for groups held in vectors.
pub open spec fn lengths_fit(lines: Seq<ScheduleGroup>, buses: Seq<VehicleGroup>) -> bool {
    &&& lines.len() <= usize::MAX
    &&& buses.len() <= usize::MAX
    &&& forall|g: int| 0 <= g < lines.len() ==> #[trigger] lines[g].stops@.len() <= usize::MAX
    &&& forall|v: int| 0 <= v < buses.len() ==> #[trigger] buses[v].pings@.len() <= usize::MAX
}

proof fn lemma_nearest_is_nearest(e: Line, pings: Seq<Bus>)
    ensures
        nearest(e, pings) matches Some(i) ==> is_nearest(e, pings, i),
{
    reveal(nearest);
}

proof fn lemma_stop_records_nearest(
    lines: Seq<ScheduleGroup>,
    buses: Seq<VehicleGroup>,
    g: int,
    v: int,
    n: int,
)
    requires
        lengths_fit(lines, buses),
        0 <= g < lines.len(),
        0 <= v < buses.len(),
        0 <= n <= lines[g].stops@.len(),
    ensures
        forall|k: int|
            0 <= k < stop_records(lines, buses, g, v, n).len() ==> record_is_nearest(
                lines,
                buses,
                #[trigger] stop_records(lines, buses, g, v, n)[k],
            ),
    decreases n,
{
    if n > 0 {
        lemma_stop_records_nearest(lines, buses, g, v, n - 1);
        lemma_nearest_is_nearest(lines[g].stops@[n - 1], buses[v].pings@);
        let earlier = stop_records(lines, buses, g, v, n - 1);
        let now = stop_records(lines, buses, g, v, n);
        assert(lines[g].stops@.len() <= usize::MAX);
        assert(buses[v].pings@.len() <= usize::MAX);
        assert forall|k: int| 0 <= k < now.len() implies record_is_nearest(lines, buses, #[trigger] now[k]) by {
            if k < earlier.len() {
                assert(now[k] == earlier[k]);
            }
        }
    }
}

/// Every record of the fine matcher names a stop event of the assigned
/// schedule group and, among the pings of the assigned vehicle that lie in
/// both time windows, the one at least distance (the earliest on a tie); so
/// no record breaks either window.
pub proof fn lemma_fine_records_nearest(
    lines: Seq<ScheduleGroup>,
    buses: Seq<VehicleGroup>,
    assignment: Seq<Assignment>,
    n: int,
)
    requires
        lengths_fit(lines, buses),
        0 <= n <= assignment.len(),
    ensures
        forall|k: int|
            0 <= k < fine_records(lines, buses, assignment, n).len() ==> record_is_nearest(
                lines,
                buses,
                #[trigger] fine_records(lines, buses, assignment, n)[k],
            ),
    decreases n,
{
    if n > 0 {
        lemma_fine_records_nearest(lines, buses, assignment, n - 1);
        let a = assignment[n - 1];
        let earlier = fine_records(lines, buses, assignment, n - 1);
        let now = fine_records(lines, buses, assignment, n);
        reveal(schedule_index);
        reveal(vehicle_index);
        if let (Some(g), Some(v)) = (schedule_index(lines, a.line_id@), vehicle_index(buses, a.bus_id@)) {
            let more = stop_records(lines, buses, g, v, lines[g].stops@.len() as int);
            lemma_stop_records_nearest(lines, buses, g, v, lines[g].stops@.len() as int);
            assert forall|k: int| 0 <= k < now.len() implies record_is_nearest(lines, buses, #[trigger] now[k]) by {
                if k < earlier.len() {
                    assert(now[k] == earlier[k]);
                } else {
                    assert(now[k] == more[k - earlier.len()]);
                }
            }
        }
    }
}

} // verus!
