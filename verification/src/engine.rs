//! The evaluation pipeline: one strict pass of plan, resolve, reduce, then a
//! check of the result against the caller's expectation. No stage is
//! re-entered and the first error anywhere aborts the whole evaluation.

use vstd::prelude::*;

use crate::expression::requests_of;
use crate::expression::ErrorKind;
use crate::expression::EvaluatedValue;
use crate::expression::ExpectedType;
use crate::expression::Expression;
use crate::expression::ValueModel;
use crate::plan::lemma_dedup_contains;
use crate::plan::plan;
use crate::reduce::reduce_rec;
use crate::reduce::reduce_spec;
use crate::reduce::slots_serve;
use crate::resolve::request_resolves;
use crate::resolve::resolve_requests;
use crate::store::MeasureStore;

verus! {

/// Whether a value has the expected top-level type.
pub open spec fn type_matches(v: ValueModel, t: ExpectedType) -> bool {
    match (v, t) {
        (ValueModel::Scalar(_), ExpectedType::Scalar) => true,
        (ValueModel::Bool(_), ExpectedType::Bool) => true,
        _ => false,
    }
}

/// Whether every leaf request of the tree resolves against the store.
pub open spec fn all_leaves_resolve(store: MeasureStore, exp: Expression) -> bool {
    forall|j: int|
        0 <= j < requests_of(exp).len() ==> request_resolves(store, #[trigger] requests_of(exp)[j])
}

/// What an evaluation returns. Resolution happens before reduction, so if
/// any leaf's data is missing the whole evaluation fails with `NotFound`;
/// otherwise the result is the tree's reduced value, checked against the
/// caller's expectation.
pub open spec fn eval_full(
    store: MeasureStore,
    exp: Expression,
    expected: ExpectedType,
) -> Result<ValueModel, ErrorKind> {
    if !all_leaves_resolve(store, exp) {
        Err(ErrorKind::NotFound)
    } else {
        match reduce_spec(store, exp) {
            Ok(v) => if type_matches(v, expected) {
                Ok(v)
            } else {
                Err(ErrorKind::TypeMismatch)
            },
            Err(e) => Err(e),
        }
    }
}

/// Evaluates an expression against the store: plans the distinct requests,
/// resolves them all, reduces the tree with the resolved values, and checks
/// the result against the caller's expectation. Returns exactly what
/// [`eval_full`] describes; evaluating the same tree against the same store
/// again returns the same answer.
pub fn evaluate(store: &MeasureStore, exp: &Expression, expected: ExpectedType) -> (r: Result<
    EvaluatedValue,
    ErrorKind,
>)
    ensures
        match r {
            Ok(v) => eval_full(*store, *exp, expected) == Ok::<ValueModel, ErrorKind>(v@),
            Err(e) => eval_full(*store, *exp, expected) == Err::<ValueModel, ErrorKind>(e),
        },
{
    let p = plan(exp);
    match resolve_requests(store, &p.requests) {
        Err(e) => {
            proof {
                let i = choose|i: int|
                    0 <= i < p.requests@.len() && !request_resolves(
                        *store,
                        #[trigger] p.requests@[i],
                    );
                assert(p.requests@.contains(p.requests@[i]));
                lemma_dedup_contains(requests_of(*exp), p.requests@[i]);
                assert(requests_of(*exp).contains(p.requests@[i]));
                let j = choose|j: int|
                    0 <= j < requests_of(*exp).len() && requests_of(*exp)[j] == p.requests@[i];
                assert(!request_resolves(*store, requests_of(*exp)[j]));
                assert(!all_leaves_resolve(*store, *exp));
            }
            Err(e)
        }
        Ok(values) => {
            proof {
                assert forall|j: int|
                    0 <= j < requests_of(*exp).len() implies request_resolves(
                    *store,
                    #[trigger] requests_of(*exp)[j],
                ) by {
                    assert(p.requests@[p.slots@[j] as int] == requests_of(*exp)[j]);
                    assert(request_resolves(*store, p.requests@[p.slots@[j] as int]));
                }
                assert(slots_serve(*store, requests_of(*exp), p.slots@, 0, values@));
            }
            let mut slot: usize = 0;
            let rr = reduce_rec(Ghost(*store), exp, &p.slots, &values, &mut slot);
            match rr {
                Err(e) => Err(e),
                Ok(v) => {
                    let ok = match (&v, &expected) {
                        (EvaluatedValue::Scalar(_), ExpectedType::Scalar) => true,
                        (EvaluatedValue::Bool(_), ExpectedType::Bool) => true,
                        _ => false,
                    };
                    if ok {
                        Ok(v)
                    } else {
                        Err(ErrorKind::TypeMismatch)
                    }
                }
            }
        }
    }
}

} // verus!
