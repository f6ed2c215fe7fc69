use vstd::prelude::*;
use crate::model::{Bus, Line, VehicleGroup};

verus! {

/// Holds for the pings of the vehicle `key`.
pub open spec fn of_vehicle(key: Seq<char>) -> spec_fn(Bus) -> bool {
    |p: Bus| p.vehicle@ == key
}

/// Vehicle groups whose keys are pairwise different.
pub open spec fn distinct_vehicles(groups: Seq<VehicleGroup>) -> bool {
    forall|a: int, b: int|
        0 <= a < groups.len() && 0 <= b < groups.len() && a != b ==> #[trigger] groups[a].vehicle@
            != #[trigger] groups[b].vehicle@
}

/// Some group is keyed by `key`.
pub open spec fn has_group(groups: Seq<VehicleGroup>, key: Seq<char>) -> bool {
    exists|g: int| 0 <= g < groups.len() && (#[trigger] groups[g]).vehicle@ == key
}

/// Each group holds exactly the pings of its vehicle, in stream order.
pub open spec fn groups_hold(groups: Seq<VehicleGroup>, pings: Seq<Bus>) -> bool {
    forall|g: int| 0 <= g < groups.len() ==> (#[trigger] groups[g]).pings@ == pings.filter(
        of_vehicle(groups[g].vehicle@),
    )
}

/// The pings of one vehicle, in stream order.
fn pings_of(pings: &Vec<Bus>, key: &String) -> (r: Vec<Bus>)
    ensures
        r@ == pings@.filter(of_vehicle(key@)),
{
    let mut acc: Vec<Bus> = Vec::new();
    let mut j: usize = 0;
    while j < pings.len()
        invariant
            j <= pings@.len(),
            acc@ == pings@.subrange(0, j as int).filter(of_vehicle(key@)),
        decreases pings.len() - j,
    {
        if pings[j].vehicle == *key {
            acc.push(pings[j].duplicate());
        }
        proof {
            let s = pings@.subrange(0, j + 1);
            assert(s.drop_last() == pings@.subrange(0, j as int));
            assert(s.last() == pings@[j as int]);
            reveal(Seq::filter);
        }
        j += 1;
    }
    proof {
        assert(pings@.subrange(0, pings@.len() as int) == pings@);
    }
    acc
}

/// Splits a raw telemetry stream into one group per vehicle, the groups in
/// order of each vehicle's first ping.
pub fn group_by_vehicle(pings: &Vec<Bus>) -> (r: Vec<VehicleGroup>)
    ensures
        distinct_vehicles(r@),
        groups_hold(r@, pings@),
        forall|i: int| 0 <= i < pings@.len() ==> has_group(r@, #[trigger] pings@[i].vehicle@),
{
    let mut out: Vec<VehicleGroup> = Vec::new();
    let mut i: usize = 0;
    while i < pings.len()
        invariant
            i <= pings@.len(),
            distinct_vehicles(out@),
            groups_hold(out@, pings@),
            forall|k: int| 0 <= k < i ==> has_group(out@, #[trigger] pings@[k].vehicle@),
        decreases pings.len() - i,
    {
        let key = &pings[i].vehicle;
        let mut seen = false;
        let mut g: usize = 0;
        while g < out.len()
            invariant
                g <= out@.len(),
                i < pings@.len(),
                key == pings@[i as int].vehicle,
                seen ==> exists|h: int| 0 <= h < out@.len() && (#[trigger] out@[h]).vehicle@ == key@,
                !seen ==> forall|h: int| 0 <= h < g ==> (#[trigger] out@[h]).vehicle@ != key@,
            decreases out.len() - g,
        {
            if out[g].vehicle == *key {
                seen = true;
            }
            g += 1;
        }
        if !seen {
            let group = VehicleGroup { vehicle: key.clone(), pings: pings_of(pings, key) };
            let ghost before = out@;
            out.push(group);
            proof {
                assert(out@.last().vehicle@ == pings@[i as int].vehicle@);
                assert forall|a: int, b: int|
                    0 <= a < out@.len() && 0 <= b < out@.len() && a != b implies #[trigger] out@[a].vehicle@
                        != #[trigger] out@[b].vehicle@ by {
                    if a < before.len() && b < before.len() {
                        assert(out@[a] == before[a] && out@[b] == before[b]);
                    } else if a < before.len() {
                        assert(out@[a] == before[a]);
                    } else {
                        assert(out@[b] == before[b]);
                    }
                }
                assert forall|h: int| 0 <= h < out@.len() implies (#[trigger] out@[h]).pings@ == pings@.filter(
                    of_vehicle(out@[h].vehicle@),
                ) by {
                    if h < before.len() {
                        assert(out@[h] == before[h]);
                    }
                }
                assert forall|k: int| 0 <= k < i + 1 implies has_group(out@, #[trigger] pings@[k].vehicle@) by {
                    if k == i {
                        assert(out@[before.len() as int].vehicle@ == pings@[k].vehicle@);
                    } else {
                        assert(has_group(before, pings@[k].vehicle@));
                        let g0 = choose|g: int| 0 <= g < before.len() && (#[trigger] before[g]).vehicle@ == pings@[k].vehicle@;
                        assert(out@[g0] == before[g0]);
                    }
                }
            }
        } else {
            proof {
                assert forall|k: int| 0 <= k < i + 1 implies has_group(out@, #[trigger] pings@[k].vehicle@) by {
                    if k == i {
                        let h = choose|h: int| 0 <= h < out@.len() && (#[trigger] out@[h]).vehicle@ == key@;
                        assert(out@[h].vehicle@ == pings@[k].vehicle@);
                    }
                }
            }
        }
        i += 1;
    }
    out
}


/// Whether the stop at `i` opens a trip section: it has sequence number 1.
pub open spec fn opens_section(lines: Seq<Line>, i: int) -> bool {
    lines[i].lfnr == 1
}

/// The positions, among the first `n` stops, that open a section, ascending.
pub open spec fn section_starts(lines: Seq<Line>, n: int) -> Seq<usize>
    decreases n,
{
    if n <= 0 {
        Seq::empty()
    } else if opens_section(lines, n - 1) {
        section_starts(lines, n - 1).push((n - 1) as usize)
    } else {
        section_starts(lines, n - 1)
    }
}

/// Splits a schedule into trip sections: each section runs from one
/// returned position up to the next (or to the end of the schedule); stops
/// before the first returned position belong to no section of their own.
pub fn split_sections(lines: &Vec<Line>) -> (r: Vec<usize>)
    ensures
        r@ == section_starts(lines@, lines@.len() as int),
{
    let mut out: Vec<usize> = Vec::new();
    let mut i: usize = 0;
    while i < lines.len()
        invariant
            i <= lines@.len(),
            out@ == section_starts(lines@, i as int),
        decreases lines.len() - i,
    {
        if lines[i].lfnr == 1 {
            out.push(i);
        }
        i += 1;
    }
    out
}

} // verus!
