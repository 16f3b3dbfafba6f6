//! The reducer: the second walk of the tree. Every leaf takes the value the
//! resolver put into its slot; every arithmetic or boolean node folds its
//! operands left to right with the typed semantics below.

use vstd::prelude::*;

use crate::expression::requests_of;
use crate::expression::requests_of_list;
use crate::expression::ArithOp;
use crate::expression::BoolOp;
use crate::expression::ErrorKind;
use crate::expression::EvaluatedValue;
use crate::expression::Expression;
use crate::expression::MeasureRequest;
use crate::expression::MeasurementPoint;
use crate::expression::ValueModel;
use crate::resolve::request_resolves;
use crate::resolve::resolved_model;
use crate::store::range_model;
use crate::store::single_model;
use crate::store::MeasureStore;

verus! {

/// One arithmetic step: `a op b`, checked. A zero divisor is reported the
/// moment it is seen; a result outside the representable range is an
/// overflow.
pub open spec fn apply_arith(op: ArithOp, a: i64, b: i64) -> Result<i64, ErrorKind> {
    match op {
        ArithOp::Add => match a.checked_add(b) {
            Some(c) => Ok(c),
            None => Err(ErrorKind::Overflow),
        },
        ArithOp::Subtract => match a.checked_sub(b) {
            Some(c) => Ok(c),
            None => Err(ErrorKind::Overflow),
        },
        ArithOp::Multiply => match a.checked_mul(b) {
            Some(c) => Ok(c),
            None => Err(ErrorKind::Overflow),
        },
        ArithOp::Divide => if b == 0 {
            Err(ErrorKind::DivisionByZero)
        } else {
            match a.checked_div(b) {
                Some(c) => Ok(c),
                None => Err(ErrorKind::Overflow),
            }
        },
    }
}

/// One comparison.
pub open spec fn compare(op: BoolOp, a: i64, b: i64) -> bool {
    match op {
        BoolOp::GT => a > b,
        BoolOp::LT => a < b,
        BoolOp::EQ => a == b,
    }
}

/// The reduced values of the first `n` operands, in operand order.
pub open spec fn kids(store: MeasureStore, exps: Seq<Expression>, n: int) -> Seq<
    Result<ValueModel, ErrorKind>,
>
    decreases exps, 1int, n,
{
    if n <= 0 || n > exps.len() {
        Seq::empty()
    } else {
        kids(store, exps, n - 1).push(reduce_spec(store, exps[n - 1]))
    }
}

/// Folds the operand values from position `i` onward onto the accumulator,
/// left to right: the first operand error propagates, a non-scalar operand
/// is a type mismatch, and each step applies the checked operator.
pub open spec fn arith_fold(
    op: ArithOp,
    acc: i64,
    ks: Seq<Result<ValueModel, ErrorKind>>,
    i: int,
) -> Result<i64, ErrorKind>
    decreases ks.len() - i,
{
    if i < 0 || i >= ks.len() {
        Ok(acc)
    } else {
        match ks[i] {
            Err(e) => Err(e),
            Ok(v) => match v {
                ValueModel::Scalar(x) => match apply_arith(op, acc, x) {
                    Ok(acc2) => arith_fold(op, acc2, ks, i + 1),
                    Err(e) => Err(e),
                },
                _ => Err(ErrorKind::TypeMismatch),
            },
        }
    }
}

/// An arithmetic node's value: the first operand starts the fold, so a
/// single operand passes through unchanged, whatever the operator.
pub open spec fn arith_result(op: ArithOp, ks: Seq<Result<ValueModel, ErrorKind>>) -> Result<
    ValueModel,
    ErrorKind,
> {
    if ks.len() == 0 {
        Err(ErrorKind::InvalidArity)
    } else {
        match ks[0] {
            Err(e) => Err(e),
            Ok(v) => match v {
                ValueModel::Scalar(x) => match arith_fold(op, x, ks, 1) {
                    Ok(acc) => Ok(ValueModel::Scalar(acc)),
                    Err(e) => Err(e),
                },
                _ => Err(ErrorKind::TypeMismatch),
            },
        }
    }
}

/// Conjoins the comparisons of consecutive operand pairs from position `i`
/// onward, `prev` being the operand before position `i`. Every operand is
/// examined: an error or a non-scalar anywhere wins over a comparison
/// result.
pub open spec fn bool_fold(
    op: BoolOp,
    prev: i64,
    ks: Seq<Result<ValueModel, ErrorKind>>,
    i: int,
) -> Result<bool, ErrorKind>
    decreases ks.len() - i,
{
    if i < 0 || i >= ks.len() {
        Ok(true)
    } else {
        match ks[i] {
            Err(e) => Err(e),
            Ok(v) => match v {
                ValueModel::Scalar(x) => match bool_fold(op, x, ks, i + 1) {
                    Ok(b) => Ok(compare(op, prev, x) && b),
                    Err(e) => Err(e),
                },
                _ => Err(ErrorKind::TypeMismatch),
            },
        }
    }
}

/// A boolean node's value.
pub open spec fn bool_result(op: BoolOp, ks: Seq<Result<ValueModel, ErrorKind>>) -> Result<
    ValueModel,
    ErrorKind,
> {
    if ks.len() == 0 {
        Err(ErrorKind::InvalidArity)
    } else {
        match ks[0] {
            Err(e) => Err(e),
            Ok(v) => match v {
                ValueModel::Scalar(x) => match bool_fold(op, x, ks, 1) {
                    Ok(b) => Ok(ValueModel::Bool(b)),
                    Err(e) => Err(e),
                },
                _ => Err(ErrorKind::TypeMismatch),
            },
        }
    }
}

/// The value of an expression over the store, as pure tree semantics:
/// constants are scalars, leaves resolve against the store, and nodes fold
/// their operands. An arithmetic node needs at least one operand, a boolean
/// node at least two.
pub open spec fn reduce_spec(store: MeasureStore, exp: Expression) -> Result<ValueModel, ErrorKind>
    decreases exp, 0int, 0int,
{
    match exp {
        Expression::Const(v) => Ok(ValueModel::Scalar(v)),
        Expression::Measurement { sensor, at } => match single_model(
            store.points_of(sensor),
            at,
        ) {
            Some(p) => Ok(ValueModel::Scalar(p.value)),
            None => Err(ErrorKind::NotFound),
        },
        Expression::MeasurementRange { sensor, from, to } => Ok(
            ValueModel::Series(range_model(store.points_of(sensor), from, to)),
        ),
        Expression::Abo(op, exps) => if exps@.len() == 0 {
            Err(ErrorKind::InvalidArity)
        } else {
            arith_result(op, kids(store, exps@, exps@.len() as int))
        },
        Expression::Bo(op, exps) => if exps@.len() < 2 {
            Err(ErrorKind::InvalidArity)
        } else {
            bool_result(op, kids(store, exps@, exps@.len() as int))
        },
    }
}

/// The operand-value sequence has one entry per operand.
pub proof fn lemma_kids_len(store: MeasureStore, exps: Seq<Expression>, n: int)
    requires
        0 <= n <= exps.len(),
    ensures
        kids(store, exps, n).len() == n,
    decreases n,
{
    if n > 0 {
        lemma_kids_len(store, exps, n - 1);
    }
}

/// Each entry of the operand-value sequence is its operand's reduced value.
pub proof fn lemma_kids_index(store: MeasureStore, exps: Seq<Expression>, n: int, k: int)
    requires
        0 <= k < n,
        n <= exps.len(),
    ensures
        kids(store, exps, n)[k] == reduce_spec(store, exps[k]),
    decreases n,
{
    lemma_kids_len(store, exps, n - 1);
    if k < n - 1 {
        lemma_kids_index(store, exps, n - 1, k);
    }
}

/// Operand `k`'s requests sit inside the full request list, right after
/// those of the operands before it.
pub proof fn lemma_requests_list_at(exps: Seq<Expression>, k: int, n: int)
    requires
        0 <= k < n,
        n <= exps.len(),
    ensures
        requests_of_list(exps, k).len() + requests_of(exps[k]).len() <= requests_of_list(
            exps,
            n,
        ).len(),
        forall|j: int|
            0 <= j < requests_of(exps[k]).len() ==> requests_of_list(exps, n)[requests_of_list(
                exps,
                k,
            ).len() + j] == #[trigger] requests_of(exps[k])[j],
    decreases n,
{
    if k == n - 1 {
    } else {
        lemma_requests_list_at(exps, k, n - 1);
        let shorter = requests_of_list(exps, n - 1);
        assert forall|j: int|
            0 <= j < requests_of(exps[k]).len() implies requests_of_list(exps, n)[
            requests_of_list(exps, k).len() + j] == #[trigger] requests_of(exps[k])[j] by {
            assert(requests_of_list(exps, n)[requests_of_list(exps, k).len() + j] == shorter[
                requests_of_list(exps, k).len() + j]);
        }
    }
}

/// The precondition of the reducer's walk: starting at `base`, the slots map
/// each of the requests `reqs`, in order, to a resolved value of the store.
pub open spec fn slots_serve(
    store: MeasureStore,
    reqs: Seq<MeasureRequest>,
    slots: Seq<usize>,
    base: int,
    values: Seq<EvaluatedValue>,
) -> bool {
    &&& 0 <= base
    &&& base + reqs.len() <= slots.len()
    &&& forall|j: int|
        0 <= j < reqs.len() ==> ((slots[base + j] as int) < values.len() && request_resolves(
            store,
            #[trigger] reqs[j],
        ) && values[slots[base + j] as int]@ == resolved_model(store, reqs[j]))
}

/// One checked arithmetic step.
fn apply_arith_exec(op: &ArithOp, a: i64, b: i64) -> (r: Result<i64, ErrorKind>)
    ensures
        r == apply_arith(*op, a, b),
{
    match op {
        ArithOp::Add => match a.checked_add(b) {
            Some(c) => Ok(c),
            None => Err(ErrorKind::Overflow),
        },
        ArithOp::Subtract => match a.checked_sub(b) {
            Some(c) => Ok(c),
            None => Err(ErrorKind::Overflow),
        },
        ArithOp::Multiply => match a.checked_mul(b) {
            Some(c) => Ok(c),
            None => Err(ErrorKind::Overflow),
        },
        ArithOp::Divide => if b == 0 {
            Err(ErrorKind::DivisionByZero)
        } else {
            match a.checked_div(b) {
                Some(c) => Ok(c),
                None => Err(ErrorKind::Overflow),
            }
        },
    }
}

/// One comparison.
fn compare_exec(op: &BoolOp, a: i64, b: i64) -> (r: bool)
    ensures
        r == compare(*op, a, b),
{
    match op {
        BoolOp::GT => a > b,
        BoolOp::LT => a < b,
        BoolOp::EQ => a == b,
    }
}

/// A copy of a series.
fn copy_points(pts: &Vec<MeasurementPoint>) -> (r: Vec<MeasurementPoint>)
    ensures
        r@ == pts@,
{
    let mut out: Vec<MeasurementPoint> = Vec::new();
    let mut k: usize = 0;
    while k < pts.len()
        invariant
            k <= pts@.len(),
            out@ == pts@.take(k as int),
        decreases pts@.len() - k,
    {
        out.push(pts[k]);
        proof {
            assert(pts@.take(k as int + 1) =~= pts@.take(k as int).push(pts@[k as int]));
        }
        k = k + 1;
    }
    proof {
        assert(pts@.take(pts@.len() as int) =~= pts@);
    }
    out
}

/// A copy of a resolved value, view-equal to the original.
fn leaf_copy(values: &Vec<EvaluatedValue>, i: usize) -> (r: EvaluatedValue)
    requires
        i < values@.len(),
    ensures
        r@ == values@[i as int]@,
{
    match &values[i] {
        EvaluatedValue::Scalar(x) => EvaluatedValue::Scalar(*x),
        EvaluatedValue::Series(pts) => EvaluatedValue::Series(copy_points(pts)),
        EvaluatedValue::Bool(b) => EvaluatedValue::Bool(*b),
    }
}

/// Reduces `exp` with the resolver's values: leaf `j` of the subtree (in
/// depth-first order) takes the value in slot `base + j`, and `slot`
/// advances past the subtree's leaves.
#[verifier::loop_isolation(false)]
pub(crate) fn reduce_rec(
    store: Ghost<MeasureStore>,
    exp: &Expression,
    slots: &Vec<usize>,
    values: &Vec<EvaluatedValue>,
    slot: &mut usize,
) -> (r: Result<EvaluatedValue, ErrorKind>)
    requires
        slots_serve(store@, requests_of(*exp), slots@, *old(slot) as int, values@),
    ensures
        match r {
            Ok(v) => reduce_spec(store@, *exp) == Ok::<ValueModel, ErrorKind>(v@) && *final(slot)
                as int == *old(slot) + requests_of(*exp).len(),
            Err(e) => reduce_spec(store@, *exp) == Err::<ValueModel, ErrorKind>(e),
        },
    decreases *exp, 0int, 0int,
{
    let ghost base0: int = *slot as int;
    match exp {
        Expression::Const(v) => Ok(EvaluatedValue::Scalar(*v)),
        Expression::Measurement { sensor, at } => {
            proof {
                assert(requests_of(*exp)[0] == MeasureRequest::Single {
                    sensor: *sensor,
                    at: *at,
                });
                assert(request_resolves(store@, requests_of(*exp)[0]));
            }
            let i = slots[*slot];
            let out = leaf_copy(values, i);
            proof {
                assert(slots.len() == slots@.len());
            }
            *slot = *slot + 1;
            Ok(out)
        }
        Expression::MeasurementRange { sensor, from, to } => {
            proof {
                assert(requests_of(*exp)[0] == MeasureRequest::Range {
                    sensor: *sensor,
                    from: *from,
                    to: *to,
                });
                assert(request_resolves(store@, requests_of(*exp)[0]));
            }
            let i = slots[*slot];
            let out = leaf_copy(values, i);
            proof {
                assert(slots.len() == slots@.len());
            }
            *slot = *slot + 1;
            Ok(out)
        }
        Expression::Abo(op, exps) => {
            let n = exps.len();
            if n == 0 {
                return Err(ErrorKind::InvalidArity);
            }
            let ghost n_int: int = exps@.len() as int;
            let ghost kfull = kids(store@, exps@, n_int);
            proof {
                lemma_kids_len(store@, exps@, n_int);
                lemma_requests_list_at(exps@, 0, n_int);
                assert(requests_of_list(exps@, 0) =~= Seq::<MeasureRequest>::empty());
                assert forall|j: int|
                    0 <= j < requests_of(exps@[0]).len() implies ((slots@[base0 + j] as int)
                    < values@.len() && request_resolves(store@, #[trigger] requests_of(exps@[0])[j])
                    && values@[slots@[base0 + j] as int]@ == resolved_model(
                    store@,
                    requests_of(exps@[0])[j],
                )) by {
                    assert(requests_of(*exp)[j] == requests_of(exps@[0])[j]);
                    assert(request_resolves(store@, requests_of(*exp)[j]));
                }
            }
            let r0 = reduce_rec(store, &exps[0], slots, values, slot);
            proof {
                lemma_kids_index(store@, exps@, n_int, 0);
            }
            let mut acc: i64;
            match r0 {
                Err(e) => {
                    return Err(e);
                }
                Ok(v0) => match v0 {
                    EvaluatedValue::Scalar(x) => {
                        acc = x;
                    }
                    _ => {
                        return Err(ErrorKind::TypeMismatch);
                    }
                },
            }
            proof {
                assert(requests_of_list(exps@, 1) =~= requests_of_list(exps@, 0) + requests_of(
                    exps@[0],
                ));
            }
            let mut k: usize = 1;
            while k < n
                invariant
                    1 <= k <= n,
                    *slot as int == base0 + requests_of_list(exps@, k as int).len(),
                    arith_result(*op, kfull) == (match arith_fold(*op, acc, kfull, k as int) {
                        Ok(a) => Ok::<ValueModel, ErrorKind>(ValueModel::Scalar(a)),
                        Err(e) => Err::<ValueModel, ErrorKind>(e),
                    }),
                decreases n - k,
            {
                proof {
                    lemma_requests_list_at(exps@, k as int, n_int);
                    assert forall|j: int|
                        0 <= j < requests_of(exps@[k as int]).len() implies ((slots@[*slot + j]
                        as int) < values@.len() && request_resolves(
                        store@,
                        #[trigger] requests_of(exps@[k as int])[j],
                    ) && values@[slots@[*slot + j] as int]@ == resolved_model(
                        store@,
                        requests_of(exps@[k as int])[j],
                    )) by {
                        let jj = requests_of_list(exps@, k as int).len() + j;
                        assert(requests_of(*exp)[jj] == requests_of(exps@[k as int])[j]);
                        assert(request_resolves(store@, requests_of(*exp)[jj]));
                    }
                }
                let rk = reduce_rec(store, &exps[k], slots, values, slot);
                proof {
                    lemma_kids_index(store@, exps@, n_int, k as int);
                    assert(requests_of_list(exps@, k as int + 1) =~= requests_of_list(
                        exps@,
                        k as int,
                    ) + requests_of(exps@[k as int]));
                }
                match rk {
                    Err(e) => {
                        return Err(e);
                    }
                    Ok(vk) => match vk {
                        EvaluatedValue::Scalar(x) => {
                            match apply_arith_exec(op, acc, x) {
                                Ok(a2) => {
                                    acc = a2;
                                }
                                Err(e) => {
                                    return Err(e);
                                }
                            }
                        }
                        _ => {
                            return Err(ErrorKind::TypeMismatch);
                        }
                    },
                }
                k = k + 1;
            }
            Ok(EvaluatedValue::Scalar(acc))
        }
        Expression::Bo(op, exps) => {
            let n = exps.len();
            if n < 2 {
                return Err(ErrorKind::InvalidArity);
            }
            let ghost n_int: int = exps@.len() as int;
            let ghost kfull = kids(store@, exps@, n_int);
            proof {
                lemma_kids_len(store@, exps@, n_int);
                lemma_requests_list_at(exps@, 0, n_int);
                assert(requests_of_list(exps@, 0) =~= Seq::<MeasureRequest>::empty());
                assert forall|j: int|
                    0 <= j < requests_of(exps@[0]).len() implies ((slots@[base0 + j] as int)
                    < values@.len() && request_resolves(store@, #[trigger] requests_of(exps@[0])[j])
                    && values@[slots@[base0 + j] as int]@ == resolved_model(
                    store@,
                    requests_of(exps@[0])[j],
                )) by {
                    assert(requests_of(*exp)[j] == requests_of(exps@[0])[j]);
                    assert(request_resolves(store@, requests_of(*exp)[j]));
                }
            }
            let r0 = reduce_rec(store, &exps[0], slots, values, slot);
            proof {
                lemma_kids_index(store@, exps@, n_int, 0);
            }
            let mut prev: i64;
            match r0 {
                Err(e) => {
                    return Err(e);
                }
                Ok(v0) => match v0 {
                    EvaluatedValue::Scalar(x) => {
                        prev = x;
                    }
                    _ => {
                        return Err(ErrorKind::TypeMismatch);
                    }
                },
            }
            proof {
                assert(requests_of_list(exps@, 1) =~= requests_of_list(exps@, 0) + requests_of(
                    exps@[0],
                ));
            }
            let mut bacc: bool = true;
            let mut k: usize = 1;
            while k < n
                invariant
                    1 <= k <= n,
                    *slot as int == base0 + requests_of_list(exps@, k as int).len(),
                    bool_result(*op, kfull) == (match bool_fold(*op, prev, kfull, k as int) {
                        Ok(b) => Ok::<ValueModel, ErrorKind>(ValueModel::Bool(bacc && b)),
                        Err(e) => Err::<ValueModel, ErrorKind>(e),
                    }),
                decreases n - k,
            {
                proof {
                    lemma_requests_list_at(exps@, k as int, n_int);
                    assert forall|j: int|
                        0 <= j < requests_of(exps@[k as int]).len() implies ((slots@[*slot + j]
                        as int) < values@.len() && request_resolves(
                        store@,
                        #[trigger] requests_of(exps@[k as int])[j],
                    ) && values@[slots@[*slot + j] as int]@ == resolved_model(
                        store@,
                        requests_of(exps@[k as int])[j],
                    )) by {
                        let jj = requests_of_list(exps@, k as int).len() + j;
                        assert(requests_of(*exp)[jj] == requests_of(exps@[k as int])[j]);
                        assert(request_resolves(store@, requests_of(*exp)[jj]));
                    }
                }
                let rk = reduce_rec(store, &exps[k], slots, values, slot);
                proof {
                    lemma_kids_index(store@, exps@, n_int, k as int);
                    assert(requests_of_list(exps@, k as int + 1) =~= requests_of_list(
                        exps@,
                        k as int,
                    ) + requests_of(exps@[k as int]));
                }
                match rk {
                    Err(e) => {
                        return Err(e);
                    }
                    Ok(vk) => match vk {
                        EvaluatedValue::Scalar(x) => {
                            let c = compare_exec(op, prev, x);
                            bacc = bacc && c;
                            prev = x;
                        }
                        _ => {
                            return Err(ErrorKind::TypeMismatch);
                        }
                    },
                }
                k = k + 1;
            }
            Ok(EvaluatedValue::Bool(bacc))
        }
    }
}

} // verus!
