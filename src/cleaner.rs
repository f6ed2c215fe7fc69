use vstd::prelude::*;
use crate::model::Bus;

verus! {

/// The event type of a fare payment.
pub const PAYMENT_TAG: &'static str = "ZAHLUNG";

pub open spec fn is_payment(p: Bus) -> bool {
    p.typ@ == PAYMENT_TAG@
}

/// Whether a ping carries the payment tag.
pub fn payment_tagged(p: &Bus) -> (r: bool)
    ensures
        r == is_payment(*p),
{
    let tag = PAYMENT_TAG.to_owned();
    p.typ == tag
}


/// The first pass: a ping is dropped when its geometry equals that of the
/// last kept ping and it is not a payment; the first ping is always kept.
pub open spec fn drop_repeats(s: Seq<Bus>) -> Seq<Bus>
    decreases s.len(),
{
    if s.len() == 0 {
        Seq::empty()
    } else {
        let kept = drop_repeats(s.drop_last());
        let p = s.last();
        if kept.len() > 0 && kept.last().wkt@ == p.wkt@ && !is_payment(p) {
            kept
        } else {
            kept.push(p)
        }
    }
}

/// Whether the ping at `i` is directly followed by a payment at the same
/// geometry, into which it folds.
pub open spec fn folds_into_payment(s: Seq<Bus>, i: int) -> bool {
    i + 1 < s.len() && s[i + 1].wkt@ == s[i].wkt@ && is_payment(s[i + 1])
}

/// The second pass over the first `n` pings.
pub open spec fn drop_folded_upto(s: Seq<Bus>, n: int) -> Seq<Bus>
    decreases n,
{
    if n <= 0 {
        Seq::empty()
    } else {
        let kept = drop_folded_upto(s, n - 1);
        if folds_into_payment(s, n - 1) {
            kept
        } else {
            kept.push(s[n - 1])
        }
    }
}

/// The second pass: every ping that folds into a following payment is
/// dropped; the last ping is always kept.
pub open spec fn drop_folded(s: Seq<Bus>) -> Seq<Bus> {
    drop_folded_upto(s, s.len() as int)
}

/// Both passes, in order.
pub open spec fn cleaned(s: Seq<Bus>) -> Seq<Bus> {
    drop_folded(drop_repeats(s))
}

/// Whether the ping after `i` repeats its geometry without being a payment.
pub open spec fn repeats_plainly(s: Seq<Bus>, i: int) -> bool {
    s[i + 1].wkt@ == s[i].wkt@ && !is_payment(s[i + 1])
}

/// No two neighbours share a geometry unless the later one is a payment.
pub open spec fn no_plain_repeat(s: Seq<Bus>) -> bool {
    forall|i: int| 0 <= i && i + 1 < s.len() ==> !#[trigger] repeats_plainly(s, i)
}

/// No ping folds into a following payment.
pub open spec fn no_fold(s: Seq<Bus>) -> bool {
    forall|i: int| 0 <= i && i + 1 < s.len() ==> !folds_into_payment(s, i)
}

/// Removes consecutive pings at an unchanged geometry, keeping payments.
pub fn remove_duplicates_except_payment(pings: &Vec<Bus>) -> (r: Vec<Bus>)
    ensures
        r@ == drop_repeats(pings@),
{
    let mut out: Vec<Bus> = Vec::new();
    let mut i: usize = 0;
    while i < pings.len()
        invariant
            i <= pings.len(),
            out@ == drop_repeats(pings@.subrange(0, i as int)),
        decreases pings.len() - i,
    {
        let p = &pings[i];
        let n = out.len();
        let repeat = n > 0 && out[n - 1].wkt == p.wkt && !payment_tagged(p);
        if !repeat {
            out.push(p.duplicate());
        }
        proof {
            assert(pings@.subrange(0, i + 1).drop_last() == pings@.subrange(0, i as int));
        }
        i += 1;
    }
    proof {
        assert(pings@.subrange(0, pings@.len() as int) == pings@);
    }
    out
}

/// Removes every ping that is directly followed by a payment at the same
/// geometry, so that the pair is represented by the payment alone.
pub fn remove_last_duplicates_in_busdata(pings: &Vec<Bus>) -> (r: Vec<Bus>)
    ensures
        r@ == drop_folded(pings@),
{
    let mut out: Vec<Bus> = Vec::new();
    let mut i: usize = 0;
    while i < pings.len()
        invariant
            i <= pings.len(),
            out@ == drop_folded_upto(pings@, i as int),
        decreases pings.len() - i,
    {
        let folds = i + 1 < pings.len() && pings[i + 1].wkt == pings[i].wkt
            && payment_tagged(&pings[i + 1]);
        if !folds {
            out.push(pings[i].duplicate());
        }
        i += 1;
    }
    out
}

/// Cleans one vehicle's ping stream: the repeat pass, then the fold pass.
pub fn clean_telemetry(pings: &Vec<Bus>) -> (r: Vec<Bus>)
    ensures
        r@ == cleaned(pings@),
        no_plain_repeat(r@),
        no_fold(r@),
{
    let first = remove_duplicates_except_payment(pings);
    let r = remove_last_duplicates_in_busdata(&first);
    proof {
        lemma_drop_repeats_shape(pings@);
        lemma_fold_shape(first@, first@.len() as int);
    }
    r
}

proof fn lemma_drop_repeats_shape(s: Seq<Bus>)
    ensures
        no_plain_repeat(drop_repeats(s)),
    decreases s.len(),
{
    if s.len() > 0 {
        let t = s.drop_last();
        lemma_drop_repeats_shape(t);
        let kept = drop_repeats(t);
        let p = s.last();
        if !(kept.len() > 0 && kept.last().wkt@ == p.wkt@ && !is_payment(p)) {
            let u = kept.push(p);
            assert forall|i: int| 0 <= i && i + 1 < u.len() implies !repeats_plainly(u, i) by {
                if i + 1 < kept.len() {
                    assert(u[i] == kept[i] && u[i + 1] == kept[i + 1]);
                    assert(!repeats_plainly(kept, i));
                } else {
                    assert(u[i] == kept.last() && u[i + 1] == p);
                }
            }
        }
    }
}

proof fn lemma_drop_repeats_keeps(s: Seq<Bus>)
    requires
        no_plain_repeat(s),
    ensures
        drop_repeats(s) == s,
    decreases s.len(),
{
    if s.len() > 0 {
        let t = s.drop_last();
        assert(no_plain_repeat(t)) by {
            assert forall|i: int| 0 <= i && i + 1 < t.len() implies !repeats_plainly(t, i) by {
                assert(t[i] == s[i] && t[i + 1] == s[i + 1]);
                assert(!repeats_plainly(s, i));
            }
        }
        lemma_drop_repeats_keeps(t);
        if t.len() > 0 {
            assert(t.last() == s[s.len() - 2]);
            assert(!repeats_plainly(s, s.len() - 2));
        }
        assert(t.push(s.last()) == s);
    }
}

proof fn lemma_drop_folded_keeps(s: Seq<Bus>, n: int)
    requires
        no_fold(s),
        0 <= n <= s.len(),
    ensures
        drop_folded_upto(s, n) == s.subrange(0, n),
    decreases n,
{
    if n > 0 {
        lemma_drop_folded_keeps(s, n - 1);
        if n < s.len() {
            assert(!folds_into_payment(s, n - 1));
        }
        assert(s.subrange(0, n - 1).push(s[n - 1]) == s.subrange(0, n));
    }
}

proof fn lemma_fold_shape(z: Seq<Bus>, n: int)
    requires
        no_plain_repeat(z),
        0 <= n <= z.len(),
    ensures
        no_plain_repeat(drop_folded_upto(z, n)),
        no_fold(drop_folded_upto(z, n)),
        n > 0 && !folds_into_payment(z, n - 1) ==> drop_folded_upto(z, n).len() > 0
            && drop_folded_upto(z, n).last() == z[n - 1],
        n > 0 && folds_into_payment(z, n - 1) && drop_folded_upto(z, n).len() > 0
            ==> drop_folded_upto(z, n).last().wkt@ != z[n - 1].wkt@,
    decreases n,
{
    if n > 0 {
        lemma_fold_shape(z, n - 1);
        let r = drop_folded_upto(z, n - 1);
        let q = z[n - 1];
        if n >= 2 {
            assert(!repeats_plainly(z, n - 2));
        }
        if !folds_into_payment(z, n - 1) && r.len() > 0 {
            let t = r.push(q);
            assert(n - 1 > 0);
            assert(t.last() == q);
            assert(t[t.len() - 2] == r.last());
            assert forall|i: int| 0 <= i && i + 1 < t.len() implies !repeats_plainly(t, i) by {
                if i + 1 < r.len() {
                    assert(t[i] == r[i] && t[i + 1] == r[i + 1]);
                    assert(!repeats_plainly(r, i));
                } else {
                    assert(t[i] == r.last() && t[i + 1] == q);
                }
            }
            assert forall|i: int| 0 <= i && i + 1 < t.len() implies !folds_into_payment(t, i) by {
                if i + 1 < r.len() {
                    assert(t[i] == r[i] && t[i + 1] == r[i + 1]);
                    assert(!folds_into_payment(r, i));
                }
            }
        }
    }
}

/// Cleaning is idempotent: a cleaned stream passes through both passes
/// unchanged.
pub proof fn lemma_clean_idempotent(s: Seq<Bus>)
    ensures
        cleaned(cleaned(s)) == cleaned(s),
{
    let z = drop_repeats(s);
    lemma_drop_repeats_shape(s);
    lemma_fold_shape(z, z.len() as int);
    let y = cleaned(s);
    lemma_drop_repeats_keeps(y);
    lemma_drop_folded_keeps(y, y.len() as int);
    assert(y.subrange(0, y.len() as int) == y);
}

} // verus!
