use vstd::prelude::*;
use crate::fine::stop_distance;
use crate::geo::calculate_distance;
use crate::model::{gap, time_gap, Bus, Line};

verus! {

/// The heuristic's objective: distance in millimetres times the time gap
/// in seconds.
pub open spec fn objective(e: Line, p: Bus) -> nat {
    stop_distance(e, p) * gap(e.zeit, p.unixzeit)
}

/// `i` is the first ping of the pool with the least objective.
pub open spec fn is_best(e: Line, pool: Seq<Bus>, i: int) -> bool {
    &&& 0 <= i < pool.len()
    &&& forall|j: int| 0 <= j < pool.len() ==> objective(e, pool[i]) <= #[trigger] objective(e, pool[j])
    &&& forall|j: int| 0 <= j < i ==> objective(e, pool[i]) < #[trigger] objective(e, pool[j])
}

/// The objective of one stop event and one ping.
fn objective_of(e: &Line, p: &Bus) -> (r: u128)
    ensures
        r as nat == objective(*e, *p),
{
    let d = calculate_distance(e.coordinate, p.coordinate);
    let t = time_gap(e.zeit, p.unixzeit);
    proof {
        vstd::arithmetic::mul::lemma_mul_upper_bound(d as int, u64::MAX as int, t as int, u64::MAX as int);
    }
    assert((d as nat) * (t as nat) <= (u64::MAX as nat) * (u64::MAX as nat));
    (d as u128) * (t as u128)
}

/// The ping of the whole pool that minimises distance times time gap for a
/// stop event; the earliest on a tie. No ping is ruled out by distance or
/// time alone, so there is a result whenever the pool is not empty.
pub fn calculate_optimal_bus_line(line: &Line, bus_lines: &Vec<Bus>) -> (r: Option<usize>)
    ensures
        r is None <==> bus_lines@.len() == 0,
        r matches Some(i) ==> is_best(*line, bus_lines@, i as int),
{
    let mut best: Option<usize> = None;
    let mut best_o: u128 = 0;
    let mut k: usize = 0;
    while k < bus_lines.len()
        invariant
            k <= bus_lines@.len(),
            best is None <==> k == 0,
            best matches Some(b) ==> {
                &&& b < k
                &&& best_o as nat == objective(*line, bus_lines@[b as int])
                &&& forall|j: int| 0 <= j < k ==> best_o <= #[trigger] objective(*line, bus_lines@[j])
                &&& forall|j: int| 0 <= j < b ==> best_o < #[trigger] objective(*line, bus_lines@[j])
            },
        decreases bus_lines.len() - k,
    {
        let o = objective_of(line, &bus_lines[k]);
        let better = match best {
            None => true,
            Some(_) => o < best_o,
        };
        if better {
            best = Some(k);
            best_o = o;
        }
        k += 1;
    }
    best
}

/// A stop event, by position, and the ping chosen for it by the heuristic.
#[derive(Clone, Copy, Debug, PartialEq, Eq, Structural)]
pub struct HeuristicMatch {
    pub stop: usize,
    pub ping: usize,
}

/// Matches every stop event to its best ping of the pool: one match per
/// stop event, in stop order, when the pool is not empty; none when it is.
pub fn match_all_stops(lines: &Vec<Line>, bus_lines: &Vec<Bus>) -> (r: Vec<HeuristicMatch>)
    ensures
        bus_lines@.len() == 0 ==> r@.len() == 0,
        bus_lines@.len() > 0 ==> r@.len() == lines@.len(),
        forall|k: int| 0 <= k < r@.len() ==> (#[trigger] r@[k]).stop == k
            && is_best(lines@[k], bus_lines@, r@[k].ping as int),
{
    let mut out: Vec<HeuristicMatch> = Vec::new();
    if bus_lines.len() == 0 {
        return out;
    }
    let mut k: usize = 0;
    while k < lines.len()
        invariant
            bus_lines@.len() > 0,
            k <= lines@.len(),
            out@.len() == k,
            forall|j: int| 0 <= j < k ==> (#[trigger] out@[j]).stop == j
                && is_best(lines@[j], bus_lines@, out@[j].ping as int),
        decreases lines.len() - k,
    {
        if let Some(i) = calculate_optimal_bus_line(&lines[k], bus_lines) {
            out.push(HeuristicMatch { stop: k, ping: i });
        }
        k += 1;
    }
    out
}

} // verus!
