//! The planner: a pure, side-effect-free walk of an expression that produces
//! the minimal distinct set of store requests, together with one slot per
//! leaf mapping the leaf to the request that serves it.

use vstd::prelude::*;

use crate::expression::eval_for_measure_requests;
use crate::expression::requests_of;
use crate::expression::Expression;
use crate::expression::MeasureRequest;

verus! {

/// `s` with every later duplicate removed: the first occurrence of each
/// request survives, in first-occurrence order.
pub open spec fn dedup(s: Seq<MeasureRequest>) -> Seq<MeasureRequest>
    decreases s.len(),
{
    if s.len() == 0 {
        Seq::empty()
    } else {
        let d = dedup(s.drop_last());
        if d.contains(s.last()) {
            d
        } else {
            d.push(s.last())
        }
    }
}

/// Deduplication keeps exactly the members of the original sequence.
pub proof fn lemma_dedup_contains(s: Seq<MeasureRequest>, x: MeasureRequest)
    ensures
        dedup(s).contains(x) <==> s.contains(x),
    decreases s.len(),
{
    if s.len() == 0 {
    } else {
        let rest = s.drop_last();
        lemma_dedup_contains(rest, x);
        let d1 = dedup(rest);
        // membership in `s` is membership in `rest` or equality with the last
        if s.contains(x) {
            let i = choose|i: int| 0 <= i < s.len() && s[i] == x;
            if i < s.len() - 1 {
                assert(rest[i] == x);
                assert(rest.contains(x));
            }
        }
        if rest.contains(x) {
            let i = choose|i: int| 0 <= i < rest.len() && rest[i] == x;
            assert(s[i] == x);
            assert(s.contains(x));
        }
        if s.last() == x {
            assert(s[s.len() - 1] == x);
            assert(s.contains(x));
        }
        // and membership in `dedup(s)` follows the same split
        if !d1.contains(s.last()) {
            let d = d1.push(s.last());
            if d.contains(x) {
                let i = choose|i: int| 0 <= i < d.len() && d[i] == x;
                if i < d1.len() {
                    assert(d1[i] == x);
                    assert(d1.contains(x));
                }
            }
            if d1.contains(x) {
                let i = choose|i: int| 0 <= i < d1.len() && d1[i] == x;
                assert(d[i] == x);
                assert(d.contains(x));
            }
            assert(d[d1.len() as int] == s.last());
            assert(d.contains(s.last()));
        }
    }
}

/// Deduplication leaves no duplicates.
pub proof fn lemma_dedup_distinct(s: Seq<MeasureRequest>)
    ensures
        dedup(s).no_duplicates(),
    decreases s.len(),
{
    if s.len() == 0 {
    } else {
        let rest = s.drop_last();
        lemma_dedup_distinct(rest);
        let d1 = dedup(rest);
        if !d1.contains(s.last()) {
            let d = d1.push(s.last());
            assert forall|i: int, j: int|
                0 <= i < d.len() && 0 <= j < d.len() && i != j implies d[i] != d[j] by {
                if i < d1.len() && j < d1.len() {
                    assert(d[i] == d1[i]);
                    assert(d[j] == d1[j]);
                } else if j == d1.len() && i < d1.len() {
                    if d1[i] == s.last() {
                        assert(d1.contains(s.last()));
                    }
                } else if i == d1.len() && j < d1.len() {
                    if d1[j] == s.last() {
                        assert(d1.contains(s.last()));
                    }
                }
            }
        }
    }
}

/// A planned evaluation: the distinct requests to issue, and, for every leaf
/// of the tree in depth-first order, the index of the request that serves it.
pub struct Plan {
    pub requests: Vec<MeasureRequest>,
    pub slots: Vec<usize>,
}

/// What the planner promises: the requests are the leaf requests of `exp`
/// with duplicates removed, first occurrence first, and slot `j` names the
/// request that serves leaf `j`.
pub open spec fn plan_matches(
    exp: Expression,
    requests: Seq<MeasureRequest>,
    slots: Seq<usize>,
) -> bool {
    &&& requests == dedup(requests_of(exp))
    &&& slots.len() == requests_of(exp).len()
    &&& forall|j: int|
        0 <= j < slots.len() ==> ((#[trigger] slots[j]) as int) < requests.len() && requests[
            slots[j] as int
        ] == requests_of(exp)[j]
}

/// The index of an equal request already planned, if any.
fn find_request(requests: &Vec<MeasureRequest>, req: &MeasureRequest) -> (r: Option<usize>)
    ensures
        match r {
            Some(i) => i < requests@.len() && requests@[i as int] == *req,
            None => forall|j: int| 0 <= j < requests@.len() ==> (#[trigger] requests@[j]) != *req,
        },
{
    let mut i: usize = 0;
    while i < requests.len()
        invariant
            i <= requests@.len(),
            forall|j: int| 0 <= j < i ==> (#[trigger] requests@[j]) != *req,
        decreases requests@.len() - i,
    {
        if requests[i] == *req {
            return Some(i);
        }
        i = i + 1;
    }
    None
}

/// Plans an expression: walks it once, emits each leaf's request in
/// depth-first order, and merges structurally identical requests into one,
/// recording for every leaf the index of the request that serves it. Pure:
/// the store is never touched, and the result is a function of the
/// expression alone.
pub fn plan(exp: &Expression) -> (p: Plan)
    ensures
        plan_matches(*exp, p.requests@, p.slots@),
{
    let flat = eval_for_measure_requests(exp);
    let mut requests: Vec<MeasureRequest> = Vec::new();
    let mut slots: Vec<usize> = Vec::new();
    let mut k: usize = 0;
    while k < flat.len()
        invariant
            k <= flat@.len(),
            flat@ == requests_of(*exp),
            requests@ == dedup(flat@.take(k as int)),
            slots@.len() == k,
            forall|j: int|
                0 <= j < k ==> ((#[trigger] slots@[j]) as int) < requests@.len() && requests@[
                    slots@[j] as int
                ] == flat@[j],
        decreases flat@.len() - k,
    {
        proof {
            assert(flat@.take(k as int + 1).drop_last() =~= flat@.take(k as int));
            assert(flat@.take(k as int + 1).last() == flat@[k as int]);
        }
        let req = flat[k];
        match find_request(&requests, &req) {
            Some(i) => {
                proof {
                    assert(requests@[i as int] == flat@[k as int]);
                    assert(requests@.contains(flat@[k as int]));
                }
                slots.push(i);
            }
            None => {
                proof {
                    if requests@.contains(flat@[k as int]) {
                        let w = choose|w: int|
                            0 <= w < requests@.len() && requests@[w] == flat@[k as int];
                        assert(requests@[w] == flat@[k as int]);
                        assert(false);
                    }
                }
                requests.push(req);
                slots.push(requests.len() - 1);
            }
        }
        k = k + 1;
    }
    proof {
        assert(flat@.take(flat@.len() as int) =~= flat@);
    }
    Plan { requests, slots }
}

/// Planning is idempotent: any two outcomes that satisfy the planner's
/// contract for the same expression are identical, requests and slots alike.
/// Together with [`plan`]'s contract this says that planning the same tree
/// twice yields structurally identical request sets, without any store call.
pub proof fn lemma_planning_deterministic(
    exp: Expression,
    r1: Seq<MeasureRequest>,
    s1: Seq<usize>,
    r2: Seq<MeasureRequest>,
    s2: Seq<usize>,
)
    requires
        plan_matches(exp, r1, s1),
        plan_matches(exp, r2, s2),
    ensures
        r1 == r2,
        s1 == s2,
{
    lemma_dedup_distinct(requests_of(exp));
    assert forall|j: int| 0 <= j < s1.len() implies s1[j] == s2[j] by {
        assert(r1[s1[j] as int] == requests_of(exp)[j]);
        assert(r2[s2[j] as int] == requests_of(exp)[j]);
        assert(r1[s2[j] as int] == r1[s1[j] as int]);
    }
    assert(s1 =~= s2);
}

} // verus!
