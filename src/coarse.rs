use vstd::prelude::*;
use crate::fine::stop_distance;
use crate::geo::calculate_distance;
use crate::model::{
    gap, is_time_compatible, Assignment, Bus, Line, ScheduleGroup, VehicleGroup,
    TIME_TOLERANCE_SECONDS,
};

verus! {

/// A stop event and a ping are comparable when they lie within the
/// time-compatibility window.
pub open spec fn comparable(e: Line, p: Bus) -> bool {
    gap(e.zeit, p.unixzeit) <= TIME_TOLERANCE_SECONDS
}

/// Some stop event and some ping are comparable.
pub open spec fn has_pair(stops: Seq<Line>, pings: Seq<Bus>) -> bool {
    exists|i: int, j: int|
        0 <= i < stops.len() && 0 <= j < pings.len() && #[trigger] comparable(stops[i], pings[j])
}

/// Some comparable pair lies at distance `d`.
pub open spec fn attains(stops: Seq<Line>, pings: Seq<Bus>, d: nat) -> bool {
    exists|i: int, j: int|
        0 <= i < stops.len() && 0 <= j < pings.len() && #[trigger] comparable(stops[i], pings[j])
            && stop_distance(stops[i], pings[j]) == d
}

/// No comparable pair lies closer than `d`.
pub open spec fn no_closer(stops: Seq<Line>, pings: Seq<Bus>, d: nat) -> bool {
    forall|i: int, j: int|
        0 <= i < stops.len() && 0 <= j < pings.len() && #[trigger] comparable(stops[i], pings[j])
            ==> d <= stop_distance(stops[i], pings[j])
}

/// Every comparable pair lies farther than `d`.
pub open spec fn all_farther(stops: Seq<Line>, pings: Seq<Bus>, d: nat) -> bool {
    forall|i: int, j: int|
        0 <= i < stops.len() && 0 <= j < pings.len() && #[trigger] comparable(stops[i], pings[j])
            ==> d < stop_distance(stops[i], pings[j])
}

/// Vehicle group `v` holds a comparable pair at distance `d`, no vehicle
/// group holds a closer one, and every earlier vehicle group holds only
/// farther ones.
pub open spec fn wins_at(stops: Seq<Line>, buses: Seq<VehicleGroup>, v: int, d: nat) -> bool {
    &&& 0 <= v < buses.len()
    &&& attains(stops, buses[v].pings@, d)
    &&& forall|w: int| 0 <= w < buses.len() ==> no_closer(stops, #[trigger] buses[w].pings@, d)
    &&& forall|w: int| 0 <= w < v ==> all_farther(stops, #[trigger] buses[w].pings@, d)
}

/// Vehicle group `v` is the one chosen for the stop events.
pub open spec fn is_winner(stops: Seq<Line>, buses: Seq<VehicleGroup>, v: int) -> bool {
    exists|d: nat| wins_at(stops, buses, v, d)
}

/// The vehicle group chosen for a schedule group, if any pair is comparable.
#[verifier::opaque]
pub open spec fn coarse_winner(stops: Seq<Line>, buses: Seq<VehicleGroup>) -> Option<int> {
    if exists|v: int| is_winner(stops, buses, v) {
        Some(choose|v: int| is_winner(stops, buses, v))
    } else {
        None
    }
}

/// At most one vehicle group wins.
pub proof fn lemma_winner_unique(stops: Seq<Line>, buses: Seq<VehicleGroup>, v: int, u: int)
    requires
        is_winner(stops, buses, v),
        is_winner(stops, buses, u),
    ensures
        v == u,
{
    let dv = choose|d: nat| wins_at(stops, buses, v, d);
    let du = choose|d: nat| wins_at(stops, buses, u, d);
    if u < v {
        assert(all_farther(stops, buses[u].pings@, dv));
        assert(no_closer(stops, buses[v].pings@, du));
        let (i, j) = choose|i: int, j: int|
            0 <= i < stops.len() && 0 <= j < buses[u].pings@.len() && #[trigger] comparable(
                stops[i],
                buses[u].pings@[j],
            ) && stop_distance(stops[i], buses[u].pings@[j]) == du;
        let (a, b) = choose|i: int, j: int|
            0 <= i < stops.len() && 0 <= j < buses[v].pings@.len() && #[trigger] comparable(
                stops[i],
                buses[v].pings@[j],
            ) && stop_distance(stops[i], buses[v].pings@[j]) == dv;
        assert(dv < du);
        assert(du <= dv);
    } else if v < u {
        assert(all_farther(stops, buses[v].pings@, du));
        assert(no_closer(stops, buses[u].pings@, dv));
        let (i, j) = choose|i: int, j: int|
            0 <= i < stops.len() && 0 <= j < buses[v].pings@.len() && #[trigger] comparable(
                stops[i],
                buses[v].pings@[j],
            ) && stop_distance(stops[i], buses[v].pings@[j]) == dv;
        let (a, b) = choose|i: int, j: int|
            0 <= i < stops.len() && 0 <= j < buses[u].pings@.len() && #[trigger] comparable(
                stops[i],
                buses[u].pings@[j],
            ) && stop_distance(stops[i], buses[u].pings@[j]) == du;
        assert(du < dv);
        assert(dv <= du);
    }
}

/// The least distance between a comparable stop event and ping.
fn vehicle_min(stops: &Vec<Line>, pings: &Vec<Bus>) -> (r: Option<u64>)
    ensures
        r is None <==> !has_pair(stops@, pings@),
        r matches Some(d) ==> attains(stops@, pings@, d as nat) && no_closer(stops@, pings@, d as nat),
{
    let mut best: Option<u64> = None;
    let mut i: usize = 0;
    while i < stops.len()
        invariant
            i <= stops@.len(),
            best is None ==> forall|a: int, b: int|
                0 <= a < i && 0 <= b < pings@.len() ==> !#[trigger] comparable(stops@[a], pings@[b]),
            best matches Some(d) ==> attains(stops@, pings@, d as nat) && forall|a: int, b: int|
                0 <= a < i && 0 <= b < pings@.len() && #[trigger] comparable(stops@[a], pings@[b])
                    ==> d <= stop_distance(stops@[a], pings@[b]),
        decreases stops.len() - i,
    {
        let e = &stops[i];
        let mut j: usize = 0;
        while j < pings.len()
            invariant
                i < stops@.len(),
                e == stops@[i as int],
                j <= pings@.len(),
                best is None ==> forall|a: int, b: int|
                    0 <= a < i && 0 <= b < pings@.len() ==> !#[trigger] comparable(stops@[a], pings@[b]),
                best is None ==> forall|b: int| 0 <= b < j ==> !#[trigger] comparable(stops@[i as int], pings@[b]),
                best matches Some(d) ==> attains(stops@, pings@, d as nat) && (forall|a: int, b: int|
                    0 <= a < i && 0 <= b < pings@.len() && #[trigger] comparable(stops@[a], pings@[b])
                        ==> d <= stop_distance(stops@[a], pings@[b])) && (forall|b: int|
                    0 <= b < j && #[trigger] comparable(stops@[i as int], pings@[b])
                        ==> d <= stop_distance(stops@[i as int], pings@[b])),
            decreases pings.len() - j,
        {
            let p = &pings[j];
            if is_time_compatible(e.zeit, p.unixzeit) {
                let d = calculate_distance(e.coordinate, p.coordinate);
                let closer = match best {
                    None => true,
                    Some(b) => d < b,
                };
                if closer {
                    best = Some(d);
                    proof {
                        assert(comparable(stops@[i as int], pings@[j as int]));
                    }
                }
            }
            j += 1;
        }
        proof {
            if let Some(d) = best {
                assert forall|a: int, b: int|
                    0 <= a < i + 1 && 0 <= b < pings@.len() && #[trigger] comparable(stops@[a], pings@[b])
                        implies d <= stop_distance(stops@[a], pings@[b]) by {
                    if a == i {
                        assert(comparable(stops@[i as int], pings@[b]));
                    }
                }
            } else {
                assert forall|a: int, b: int| 0 <= a < i + 1 && 0 <= b < pings@.len()
                    implies !#[trigger] comparable(stops@[a], pings@[b]) by {
                    if a == i {
                        assert(!comparable(stops@[i as int], pings@[b]));
                    }
                }
            }
        }
        i += 1;
    }
    best
}


/// The vehicle group closest in space to a schedule group's stop events,
/// over comparable pairs only; the earliest group wins a tie.
pub fn coarse_choice(stops: &Vec<Line>, buses: &Vec<VehicleGroup>) -> (r: Option<usize>)
    ensures
        r is None <==> forall|w: int| 0 <= w < buses@.len() ==> !has_pair(stops@, #[trigger] buses@[w].pings@),
        r matches Some(v) ==> is_winner(stops@, buses@, v as int),
        r matches Some(v) ==> coarse_winner(stops@, buses@) == Some(v as int),
        r is None ==> coarse_winner(stops@, buses@) is None,
{
    let mut best: Option<usize> = None;
    let mut best_d: u64 = 0;
    let mut w: usize = 0;
    while w < buses.len()
        invariant
            w <= buses@.len(),
            best is None ==> forall|u: int| 0 <= u < w ==> !has_pair(stops@, #[trigger] buses@[u].pings@),
            best matches Some(b) ==> {
                &&& b < w
                &&& attains(stops@, buses@[b as int].pings@, best_d as nat)
                &&& forall|u: int| 0 <= u < w ==> no_closer(stops@, #[trigger] buses@[u].pings@, best_d as nat)
                &&& forall|u: int| 0 <= u < b ==> all_farther(stops@, #[trigger] buses@[u].pings@, best_d as nat)
            },
        decreases buses.len() - w,
    {
        let found = vehicle_min(stops, &buses[w].pings);
        if let Some(d) = found {
            let closer = match best {
                None => true,
                Some(_) => d < best_d,
            };
            if closer {
                proof {
                    let old_d = best_d;
                    let was = best;
                    assert forall|u: int| 0 <= u < w implies all_farther(stops@, #[trigger] buses@[u].pings@, d as nat) by {
                        if was is None {
                            assert(!has_pair(stops@, buses@[u].pings@));
                        } else {
                            assert(no_closer(stops@, buses@[u].pings@, old_d as nat));
                        }
                    }
                }
                best = Some(w);
                best_d = d;
            } else {
                proof {
                    assert(no_closer(stops@, buses@[w as int].pings@, best_d as nat));
                }
            }
        }
        w += 1;
    }
    proof {
        reveal(coarse_winner);
        if let Some(b) = best {
            assert(wins_at(stops@, buses@, b as int, best_d as nat));
            assert(is_winner(stops@, buses@, b as int));
            let c = choose|v: int| is_winner(stops@, buses@, v);
            lemma_winner_unique(stops@, buses@, b as int, c);
        } else {
            if exists|v: int| is_winner(stops@, buses@, v) {
                let c = choose|v: int| is_winner(stops@, buses@, v);
                let d = choose|d: nat| wins_at(stops@, buses@, c, d);
                assert(has_pair(stops@, buses@[c].pings@));
            }
        }
    }
    best
}

/// The assignments for the first `n` schedule groups: one for each group
/// that has a winning vehicle group, in group order.
pub open spec fn assignments_upto(
    lines: Seq<ScheduleGroup>,
    buses: Seq<VehicleGroup>,
    n: int,
) -> Seq<(Seq<char>, Seq<char>)>
    decreases n,
{
    if n <= 0 {
        Seq::empty()
    } else {
        let earlier = assignments_upto(lines, buses, n - 1);
        match coarse_winner(lines[n - 1].stops@, buses) {
            Some(v) => earlier.push((lines[n - 1].key@, buses[v].vehicle@)),
            None => earlier,
        }
    }
}

/// The key pair of an assignment.
pub open spec fn assignment_keys(a: Assignment) -> (Seq<char>, Seq<char>) {
    (a.line_id@, a.bus_id@)
}

/// Assigns to each schedule group the vehicle group whose pings come
/// closest to its stop events within the time-compatibility window.
pub fn assign_buses_to_lines(lines: &Vec<ScheduleGroup>, buses: &Vec<VehicleGroup>) -> (r: Vec<Assignment>)
    ensures
        r@.map_values(|a: Assignment| assignment_keys(a)) == assignments_upto(lines@, buses@, lines@.len() as int),
{
    let mut out: Vec<Assignment> = Vec::new();
    let mut g: usize = 0;
    while g < lines.len()
        invariant
            g <= lines@.len(),
            out@.map_values(|a: Assignment| assignment_keys(a)) == assignments_upto(lines@, buses@, g as int),
        decreases lines.len() - g,
    {
        let group = &lines[g];
        let choice = coarse_choice(&group.stops, buses);
        if let Some(v) = choice {
            let a = Assignment { line_id: group.key.clone(), bus_id: buses[v].vehicle.clone() };
            let ghost before = out@;
            out.push(a);
            proof {
                assert(out@.map_values(|a: Assignment| assignment_keys(a)) == before.map_values(
                    |a: Assignment| assignment_keys(a),
                ).push(assignment_keys(a)));
            }
        }
        g += 1;
    }
    out
}

} // verus!
