//! The resolver: answers every planned request from the store before any
//! reduction happens. Requests are independent of one another; each outcome
//! lands in its own slot of the result, indexed by the planner's assignment,
//! so the final value cannot depend on completion order. The first failure
//! aborts the whole resolution.

use vstd::prelude::*;

use crate::expression::ErrorKind;
use crate::expression::EvaluatedValue;
use crate::expression::MeasureRequest;
use crate::expression::ValueModel;
use crate::store::range_model;
use crate::store::single_model;
use crate::store::MeasureStore;

verus! {

/// Whether a request selects anything: a single-point request resolves when
/// its anchor selects a point; a range request always resolves (an empty
/// series is a valid answer).
pub open spec fn request_resolves(store: MeasureStore, req: MeasureRequest) -> bool {
    match req {
        MeasureRequest::Single { sensor, at } => single_model(store.points_of(sensor), at)
            is Some,
        MeasureRequest::Range { .. } => true,
    }
}

/// The value a request yields: the selected point's value for a single-point
/// request, the selected series for a range request. Only meaningful when
/// the request resolves.
pub open spec fn resolved_model(store: MeasureStore, req: MeasureRequest) -> ValueModel {
    match req {
        MeasureRequest::Single { sensor, at } => match single_model(
            store.points_of(sensor),
            at,
        ) {
            Some(p) => ValueModel::Scalar(p.value),
            None => ValueModel::Scalar(0),
        },
        MeasureRequest::Range { sensor, from, to } => ValueModel::Series(
            range_model(store.points_of(sensor), from, to),
        ),
    }
}

/// Resolves every planned request, in order, against the store. Each result
/// is written into its own slot; the first single-point request whose anchor
/// selects nothing aborts the whole resolution with `NotFound`.
pub fn resolve_requests(store: &MeasureStore, reqs: &Vec<MeasureRequest>) -> (r: Result<
    Vec<EvaluatedValue>,
    ErrorKind,
>)
    ensures
        match r {
            Ok(vals) => vals@.len() == reqs@.len() && forall|i: int|
                0 <= i < reqs@.len() ==> request_resolves(*store, #[trigger] reqs@[i]) && vals@[i]@
                    == resolved_model(*store, reqs@[i]),
            Err(e) => e == ErrorKind::NotFound && exists|i: int|
                0 <= i < reqs@.len() && !request_resolves(*store, #[trigger] reqs@[i]),
        },
{
    let mut vals: Vec<EvaluatedValue> = Vec::new();
    let mut i: usize = 0;
    while i < reqs.len()
        invariant
            i <= reqs@.len(),
            vals@.len() == i,
            forall|j: int|
                0 <= j < i ==> request_resolves(*store, #[trigger] reqs@[j]) && vals@[j]@
                    == resolved_model(*store, reqs@[j]),
        decreases reqs@.len() - i,
    {
        match reqs[i] {
            MeasureRequest::Single { sensor, at } => {
                match store.resolve_single(sensor, &at) {
                    Ok(p) => {
                        vals.push(EvaluatedValue::Scalar(p.value));
                    }
                    Err(e) => {
                        proof {
                            assert(!request_resolves(*store, reqs@[i as int]));
                        }
                        return Err(e);
                    }
                }
            }
            MeasureRequest::Range { sensor, from, to } => {
                match store.resolve_range(sensor, &from, &to) {
                    Ok(pts) => {
                        vals.push(EvaluatedValue::Series(pts));
                    }
                    Err(e) => {
                        proof {
                            assert(false);
                        }
                        return Err(e);
                    }
                }
            }
        }
        i = i + 1;
    }
    Ok(vals)
}

} // verus!
