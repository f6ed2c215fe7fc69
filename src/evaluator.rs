use vstd::prelude::*;
use crate::geo::{geodesic_distance, geodesic_mm, Coordinate};

verus! {

/// Largest distance, in millimetres, at which two positions still agree.
pub const AGREEMENT_RADIUS_MM: u64 = 20_000;

/// One correspondence: a scheduled stop, the vehicle that served it, and
/// where.
pub struct Record {
    pub schedule_id: String,
    pub fahrzeug: String,
    pub coordinate: Coordinate,
}

/// Two positions agree when they coincide or lie within the agreement
/// radius by the geodesic distance.
pub open spec fn positions_agree(a: Coordinate, b: Coordinate) -> bool {
    a == b || match geodesic_mm(a.lat_e7 as int, a.lon_e7 as int, b.lat_e7 as int, b.lon_e7 as int) {
        Some(d) => d <= AGREEMENT_RADIUS_MM,
        None => false,
    }
}

/// Credit, in thirds, of one output record against one truth record: one
/// third for the same schedule id, one more for the same vehicle as well,
/// and one more for agreeing positions as well.
pub open spec fn pair_credit(o: Record, t: Record) -> nat {
    if o.schedule_id@ != t.schedule_id@ {
        0
    } else if o.fahrzeug@ != t.fahrzeug@ {
        1
    } else if positions_agree(o.coordinate, t.coordinate) {
        3
    } else {
        2
    }
}

/// Credit of one output record against the first `n` truth records.
pub open spec fn record_credit(o: Record, truth: Seq<Record>, n: int) -> nat
    decreases n,
{
    if n <= 0 {
        0
    } else {
        record_credit(o, truth, n - 1) + pair_credit(o, truth[n - 1])
    }
}

/// Credit of the first `m` output records against all truth records.
pub open spec fn total_credit(output: Seq<Record>, truth: Seq<Record>, m: int) -> nat
    decreases m,
{
    if m <= 0 {
        0
    } else {
        total_credit(output, truth, m - 1) + record_credit(output[m - 1], truth, truth.len() as int)
    }
}

/// A concordance score: `thirds` thirds of credit over `records` output
/// records, that is `thirds * 100 / (3 * records)` percent.
pub struct Concordance {
    pub thirds: u128,
    pub records: usize,
}

/// The score is not defined for an empty output.
pub enum EvalError {
    EmptyOutput,
}

/// Credit, in thirds, of one output record against one truth record.
fn credit_of(o: &Record, t: &Record) -> (r: u8)
    ensures
        r as nat == pair_credit(*o, *t),
{
    if o.schedule_id != t.schedule_id {
        0
    } else if o.fahrzeug != t.fahrzeug {
        1
    } else {
        match geodesic_distance(o.coordinate, t.coordinate) {
            Some(d) => {
                if d <= AGREEMENT_RADIUS_MM {
                    3
                } else {
                    2
                }
            },
            None => 2,
        }
    }
}

/// Scores output records against truth records: over every pair with the
/// same schedule id, partial credit is summed and divided by the number of
/// output records.
pub fn test_results(output: &Vec<Record>, truth: &Vec<Record>) -> (r: Result<Concordance, EvalError>)
    requires
        3 * output@.len() * truth@.len() <= u128::MAX,
    ensures
        r is Err <==> output@.len() == 0,
        r matches Ok(c) ==> c.records == output@.len() && c.thirds == total_credit(
            output@,
            truth@,
            output@.len() as int,
        ),
{
    if output.len() == 0 {
        return Err(EvalError::EmptyOutput);
    }
    let mut thirds: u128 = 0;
    let mut i: usize = 0;
    while i < output.len()
        invariant
            3 * output@.len() * truth@.len() <= u128::MAX,
            i <= output@.len(),
            thirds == total_credit(output@, truth@, i as int),
            thirds <= 3 * i * truth@.len(),
        decreases output.len() - i,
    {
        let o = &output[i];
        let mut j: usize = 0;
        let ghost before = thirds;
        while j < truth.len()
            invariant
                3 * output@.len() * truth@.len() <= u128::MAX,
                i < output@.len(),
                o == output@[i as int],
                j <= truth@.len(),
                before <= 3 * i * truth@.len(),
                thirds == before + record_credit(*o, truth@, j as int),
                record_credit(*o, truth@, j as int) <= 3 * j,
            decreases truth.len() - j,
        {
            let c = credit_of(o, &truth[j]);
            proof {
                assert(3 * i * truth@.len() + 3 * (j + 1) <= 3 * (i + 1) * truth@.len()) by (nonlinear_arith)
                    requires j < truth@.len();
                assert(3 * (i + 1) * truth@.len() <= 3 * output@.len() * truth@.len()) by (nonlinear_arith)
                    requires i < output@.len();
            }
            thirds = thirds + c as u128;
            j += 1;
        }
        proof {
            assert(3 * i * truth@.len() + 3 * truth@.len() == 3 * (i + 1) * truth@.len()) by (nonlinear_arith);
        }
        i += 1;
    }
    Ok(Concordance { thirds, records: output.len() })
}


/// No two records share a schedule id.
pub open spec fn unique_ids(records: Seq<Record>) -> bool {
    forall|a: int, b: int|
        0 <= a < records.len() && 0 <= b < records.len() && a != b ==> #[trigger] records[a].schedule_id@
            != #[trigger] records[b].schedule_id@
}

proof fn lemma_no_match_no_credit(o: Record, truth: Seq<Record>, n: int)
    requires
        0 <= n <= truth.len(),
        forall|k: int| 0 <= k < n ==> #[trigger] truth[k].schedule_id@ != o.schedule_id@,
    ensures
        record_credit(o, truth, n) == 0,
    decreases n,
{
    if n > 0 {
        lemma_no_match_no_credit(o, truth, n - 1);
    }
}

proof fn lemma_record_credit_bounded(o: Record, truth: Seq<Record>, n: int)
    requires
        unique_ids(truth),
        0 <= n <= truth.len(),
    ensures
        record_credit(o, truth, n) <= 3,
    decreases n,
{
    if n > 0 {
        lemma_record_credit_bounded(o, truth, n - 1);
        if truth[n - 1].schedule_id@ == o.schedule_id@ {
            assert forall|k: int| 0 <= k < n - 1 implies #[trigger] truth[k].schedule_id@ != o.schedule_id@ by {
                assert(truth[k].schedule_id@ != truth[n - 1].schedule_id@);
            }
            lemma_no_match_no_credit(o, truth, n - 1);
        }
    }
}

proof fn lemma_own_credit(records: Seq<Record>, i: int, n: int)
    requires
        unique_ids(records),
        0 <= i < records.len(),
        0 <= n <= records.len(),
    ensures
        record_credit(records[i], records, n) == if n > i { 3nat } else { 0nat },
    decreases n,
{
    if n > 0 {
        lemma_own_credit(records, i, n - 1);
        if n - 1 != i {
            assert(records[n - 1].schedule_id@ != records[i].schedule_id@);
        }
    }
}

/// With the schedule ids of the truth records unique, every output record
/// earns at most full credit, so the score is at most 100 percent.
pub proof fn lemma_score_at_most_full(output: Seq<Record>, truth: Seq<Record>, m: int)
    requires
        unique_ids(truth),
        0 <= m <= output.len(),
    ensures
        total_credit(output, truth, m) <= 3 * m,
    decreases m,
{
    if m > 0 {
        lemma_score_at_most_full(output, truth, m - 1);
        lemma_record_credit_bounded(output[m - 1], truth, truth.len() as int);
    }
}

/// Records scored against themselves, with unique schedule ids, earn full
/// credit: the score is exactly 100 percent.
pub proof fn lemma_identical_full_score(records: Seq<Record>, m: int)
    requires
        unique_ids(records),
        0 <= m <= records.len(),
    ensures
        total_credit(records, records, m) == 3 * m,
    decreases m,
{
    if m > 0 {
        lemma_identical_full_score(records, m - 1);
        lemma_own_credit(records, m - 1, records.len() as int);
    }
}

} // verus!
