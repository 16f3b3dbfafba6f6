//! The expression language: moments, temporal anchors, operators, the
//! expression tree itself, and the store requests its leaves give rise to.

use vstd::prelude::*;

verus! {

/// An absolute instant: a signed offset in milliseconds from the Unix epoch.
/// There is no timezone; comparing moments is integer comparison.
#[derive(Clone, Copy, Debug, PartialEq, Eq, Structural)]
pub struct Moment {
    pub time: i64,
}

/// How a single point of a sensor's series is selected.
#[derive(Clone, Copy, Debug, PartialEq, Eq, Structural)]
pub enum At {
    /// The latest point strictly before the moment.
    Before(Moment),
    /// The earliest point strictly after the moment.
    After(Moment),
    /// The point nearest to the moment; an exact tie is broken towards the
    /// smaller timestamp.
    Closest(Moment),
    /// The point whose timestamp equals the moment exactly.
    At(Moment),
    /// The point with the minimum timestamp; ties go to the earliest stored.
    First,
    /// The point with the maximum timestamp; ties go to the latest stored.
    Last,
}

/// An n-ary arithmetic operator, folded left to right over its operands.
#[derive(Clone, Copy, Debug, PartialEq, Eq, Structural)]
pub enum ArithOp {
    Add,
    Subtract,
    Multiply,
    Divide,
}

/// A comparison applied to every consecutive pair of operands; the results
/// are conjoined.
#[derive(Clone, Copy, Debug, PartialEq, Eq, Structural)]
pub enum BoolOp {
    GT,
    LT,
    EQ,
}

/// One sample of a sensor: a timestamp and the value measured then.
#[derive(Clone, Copy, Debug, PartialEq, Eq, Structural)]
pub struct MeasurementPoint {
    pub timestamp: i64,
    pub value: i64,
}

/// The expression tree. Operand order is significant for the non-commutative
/// operators (`Subtract`, `Divide`, `GT`, `LT`). A tree is immutable once
/// constructed and carries no identity beyond its position.
#[derive(Debug, PartialEq)]
pub enum Expression {
    /// A scalar literal.
    Const(i64),
    /// A single-point lookup: produces a scalar.
    Measurement { sensor: i64, at: At },
    /// A range lookup: produces a series of points between the two resolved
    /// bounds, inclusive.
    MeasurementRange { sensor: i64, from: At, to: At },
    /// An arithmetic node over zero or more operands.
    Abo(ArithOp, Vec<Expression>),
    /// A boolean node over zero or more operands.
    Bo(BoolOp, Vec<Expression>),
}

/// One store request planned for a leaf of the tree.
#[derive(Clone, Copy, Debug, PartialEq, Eq, Structural)]
pub enum MeasureRequest {
    Single { sensor: i64, at: At },
    Range { sensor: i64, from: At, to: At },
}

/// The typed result flowing out of reduction.
#[derive(Debug, PartialEq)]
pub enum EvaluatedValue {
    Scalar(i64),
    Series(Vec<MeasurementPoint>),
    Bool(bool),
}

/// The mathematical model of an [`EvaluatedValue`]: a series is a sequence.
pub enum ValueModel {
    Scalar(i64),
    Series(Seq<MeasurementPoint>),
    Bool(bool),
}

impl View for EvaluatedValue {
    type V = ValueModel;

    open spec fn view(&self) -> ValueModel {
        match self {
            EvaluatedValue::Scalar(x) => ValueModel::Scalar(*x),
            EvaluatedValue::Series(pts) => ValueModel::Series(pts@),
            EvaluatedValue::Bool(b) => ValueModel::Bool(*b),
        }
    }
}

/// What the caller of an evaluation expects back.
#[derive(Clone, Copy, Debug, PartialEq, Eq, Structural)]
pub enum ExpectedType {
    Scalar,
    Bool,
}

/// Why an evaluation failed. Every stage fails fast: the first error aborts
/// the whole evaluation. `StoreError`, `Timeout` and `Cancelled` are part of
/// the error vocabulary of store collaborators; the in-memory store in this
/// crate never raises them.
#[derive(Clone, Copy, Debug, PartialEq, Eq, Structural)]
pub enum ErrorKind {
    /// An anchor or leaf had no resolvable data.
    NotFound,
    /// An operand or the top-level expectation had the wrong type.
    TypeMismatch,
    /// Zero operands to an arithmetic node, or fewer than two to a boolean one.
    InvalidArity,
    /// A divisor after the first operand was exactly zero.
    DivisionByZero,
    /// An arithmetic step left the representable range.
    Overflow,
    /// The store collaborator itself failed.
    StoreError,
    /// The evaluation deadline was exceeded.
    Timeout,
    /// The evaluation was cancelled.
    Cancelled,
}

/// The store requests of every leaf of `exp`, in depth-first order, one per
/// leaf: duplicates are kept (the planner deduplicates them later).
pub open spec fn requests_of(exp: Expression) -> Seq<MeasureRequest>
    decreases exp, 0int, 0int,
{
    match exp {
        Expression::Const(_) => Seq::empty(),
        Expression::Measurement { sensor, at } => seq![MeasureRequest::Single { sensor, at }],
        Expression::MeasurementRange { sensor, from, to } => seq![
            MeasureRequest::Range { sensor, from, to },
        ],
        Expression::Abo(_, exps) => requests_of_list(exps@, exps@.len() as int),
        Expression::Bo(_, exps) => requests_of_list(exps@, exps@.len() as int),
    }
}

/// The concatenated requests of the first `n` expressions of `exps`.
pub open spec fn requests_of_list(exps: Seq<Expression>, n: int) -> Seq<MeasureRequest>
    decreases exps, 1int, n,
{
    if n <= 0 || n > exps.len() {
        Seq::empty()
    } else {
        requests_of_list(exps, n - 1) + requests_of(exps[n - 1])
    }
}

/// Walks the tree depth-first and emits one request per `Measurement` or
/// `MeasurementRange` leaf, in leaf order.
pub fn eval_for_measure_requests(exp: &Expression) -> (r: Vec<MeasureRequest>)
    ensures
        r@ == requests_of(*exp),
    decreases *exp, 0int,
{
    match exp {
        Expression::Const(_) => {
            let r: Vec<MeasureRequest> = Vec::new();
            proof {
                assert(r@ =~= requests_of(*exp));
            }
            r
        }
        Expression::Measurement { sensor, at } => {
            let mut r: Vec<MeasureRequest> = Vec::new();
            r.push(MeasureRequest::Single { sensor: *sensor, at: *at });
            proof {
                assert(r@ =~= requests_of(*exp));
            }
            r
        }
        Expression::MeasurementRange { sensor, from, to } => {
            let mut r: Vec<MeasureRequest> = Vec::new();
            r.push(MeasureRequest::Range { sensor: *sensor, from: *from, to: *to });
            proof {
                assert(r@ =~= requests_of(*exp));
            }
            r
        }
        Expression::Abo(_, exps) => requests_of_children(exps),
        Expression::Bo(_, exps) => requests_of_children(exps),
    }
}

/// The requests of a node's operand list, concatenated in operand order.
fn requests_of_children(exps: &Vec<Expression>) -> (r: Vec<MeasureRequest>)
    ensures
        r@ == requests_of_list(exps@, exps@.len() as int),
    decreases exps@, 1int,
{
    let mut r: Vec<MeasureRequest> = Vec::new();
    let mut k: usize = 0;
    while k < exps.len()
        invariant
            k <= exps@.len(),
            r@ == requests_of_list(exps@, k as int),
        decreases exps@.len() - k,
    {
        let mut part = eval_for_measure_requests(&exps[k]);
        r.append(&mut part);
        k = k + 1;
    }
    r
}

} // verus!
