//! The engine's laws, stated over the spec-level evaluator that
//! [`crate::engine::evaluate`] is proven to implement. Each proof here holds
//! for every store and every choice of the quantified scalars.

use vstd::prelude::*;

use crate::engine::eval_full;
use crate::expression::requests_of;
use crate::expression::requests_of_list;
use crate::expression::ArithOp;
use crate::expression::At;
use crate::expression::BoolOp;
use crate::expression::ErrorKind;
use crate::expression::ExpectedType;
use crate::expression::Expression;
use crate::expression::MeasurementPoint;
use crate::expression::ValueModel;
use crate::reduce::apply_arith;
use crate::reduce::arith_fold;
use crate::reduce::bool_fold;
use crate::reduce::compare;
use crate::reduce::kids;
use crate::reduce::reduce_spec;
use crate::store::range_model;
use crate::store::single_model;
use crate::store::MeasureStore;

verus! {

/// The request list of a constant-only prefix is empty.
proof fn lemma_const_list_empty(s: Seq<Expression>, n: int)
    requires
        n <= s.len(),
        forall|i: int| 0 <= i < s.len() ==> (#[trigger] s[i]) is Const,
    ensures
        requests_of_list(s, n).len() == 0,
    decreases n,
{
    if n > 0 {
        lemma_const_list_empty(s, n - 1);
        assert(s[n - 1] is Const);
        assert(requests_of(s[n - 1]).len() == 0);
    }
}

/// A constant-only operand list plans no store request at all, so the
/// evaluation of such a node cannot depend on the store.
proof fn lemma_const_list_no_requests(exp: Expression, s: Seq<Expression>)
    requires
        forall|i: int| 0 <= i < s.len() ==> (#[trigger] s[i]) is Const,
        (exp matches Expression::Abo(_, exps) && exps@ == s) || (exp matches Expression::Bo(
            _,
            exps,
        ) && exps@ == s),
    ensures
        requests_of(exp).len() == 0,
{
    lemma_const_list_empty(s, s.len() as int);
}

/// The reduced operand values of a two-constant list.
proof fn lemma_kids_two(store: MeasureStore, s: Seq<Expression>, a: i64, b: i64)
    requires
        s =~= seq![Expression::Const(a), Expression::Const(b)],
    ensures
        kids(store, s, 2) =~= seq![
            Ok::<ValueModel, ErrorKind>(ValueModel::Scalar(a)),
            Ok::<ValueModel, ErrorKind>(ValueModel::Scalar(b)),
        ],
{
    assert(s[0] == Expression::Const(a));
    assert(s[1] == Expression::Const(b));
    assert(reduce_spec(store, s[0]) == Ok::<ValueModel, ErrorKind>(ValueModel::Scalar(a)));
    assert(reduce_spec(store, s[1]) == Ok::<ValueModel, ErrorKind>(ValueModel::Scalar(b)));
    assert(kids(store, s, 0) =~= Seq::<Result<ValueModel, ErrorKind>>::empty());
    assert(kids(store, s, 1) =~= seq![Ok::<ValueModel, ErrorKind>(ValueModel::Scalar(a))]);
}

/// The reduced operand values of a three-constant list.
proof fn lemma_kids_three(store: MeasureStore, s: Seq<Expression>, a: i64, b: i64, c: i64)
    requires
        s =~= seq![Expression::Const(a), Expression::Const(b), Expression::Const(c)],
    ensures
        kids(store, s, 3) =~= seq![
            Ok::<ValueModel, ErrorKind>(ValueModel::Scalar(a)),
            Ok::<ValueModel, ErrorKind>(ValueModel::Scalar(b)),
            Ok::<ValueModel, ErrorKind>(ValueModel::Scalar(c)),
        ],
{
    assert(s[0] == Expression::Const(a));
    assert(s[1] == Expression::Const(b));
    assert(s[2] == Expression::Const(c));
    assert(reduce_spec(store, s[0]) == Ok::<ValueModel, ErrorKind>(ValueModel::Scalar(a)));
    assert(reduce_spec(store, s[1]) == Ok::<ValueModel, ErrorKind>(ValueModel::Scalar(b)));
    assert(reduce_spec(store, s[2]) == Ok::<ValueModel, ErrorKind>(ValueModel::Scalar(c)));
    assert(kids(store, s, 0) =~= Seq::<Result<ValueModel, ErrorKind>>::empty());
    assert(kids(store, s, 1) =~= seq![Ok::<ValueModel, ErrorKind>(ValueModel::Scalar(a))]);
    assert(kids(store, s, 2) =~= seq![
        Ok::<ValueModel, ErrorKind>(ValueModel::Scalar(a)),
        Ok::<ValueModel, ErrorKind>(ValueModel::Scalar(b)),
    ]);
}

/// Adding a list of constants `[a, b, c]` evaluates to `a + b + c`, and
/// multiplying them to `a * b * c`, on any store, as long as the running
/// sums and products stay representable.
pub proof fn lemma_arith_three(store: MeasureStore, exp: Expression, a: i64, b: i64, c: i64)
    requires
        exp matches Expression::Abo(op, exps) && (op == ArithOp::Add || op == ArithOp::Multiply)
            && exps@ =~= seq![
            Expression::Const(a),
            Expression::Const(b),
            Expression::Const(c),
        ],
        i64::MIN <= a as int + b as int <= i64::MAX,
        i64::MIN <= a as int + b as int + c as int <= i64::MAX,
        i64::MIN <= a as int * b as int <= i64::MAX,
        i64::MIN <= a as int * b as int * c as int <= i64::MAX,
    ensures
        exp matches Expression::Abo(op, _) ==> eval_full(store, exp, ExpectedType::Scalar) == Ok::<
            ValueModel,
            ErrorKind,
        >(
            ValueModel::Scalar(
                if op == ArithOp::Add {
                    (a as int + b as int + c as int) as i64
                } else {
                    (a as int * b as int * c as int) as i64
                },
            ),
        ),
{
    match exp {
        Expression::Abo(op, exps) => {
            let s = exps@;
            lemma_const_list_no_requests(exp, s);
            lemma_kids_three(store, s, a, b, c);
            let ks = kids(store, s, 3);
            if op == ArithOp::Add {
                let ab = (a as int + b as int) as i64;
                let abc = (a as int + b as int + c as int) as i64;
                assert(apply_arith(op, a, b) == Ok::<i64, ErrorKind>(ab));
                assert(apply_arith(op, ab, c) == Ok::<i64, ErrorKind>(abc));
                assert(arith_fold(op, abc, ks, 3) == Ok::<i64, ErrorKind>(abc));
                assert(arith_fold(op, ab, ks, 2) == Ok::<i64, ErrorKind>(abc));
                assert(arith_fold(op, a, ks, 1) == Ok::<i64, ErrorKind>(abc));
                assert(reduce_spec(store, exp) == Ok::<ValueModel, ErrorKind>(
                    ValueModel::Scalar(abc),
                ));
            } else {
                let ab = (a as int * b as int) as i64;
                let abc = (a as int * b as int * c as int) as i64;
                assert(apply_arith(op, a, b) == Ok::<i64, ErrorKind>(ab));
                assert(apply_arith(op, ab, c) == Ok::<i64, ErrorKind>(abc));
                assert(arith_fold(op, abc, ks, 3) == Ok::<i64, ErrorKind>(abc));
                assert(arith_fold(op, ab, ks, 2) == Ok::<i64, ErrorKind>(abc));
                assert(arith_fold(op, a, ks, 1) == Ok::<i64, ErrorKind>(abc));
                assert(reduce_spec(store, exp) == Ok::<ValueModel, ErrorKind>(
                    ValueModel::Scalar(abc),
                ));
            }
        }
        _ => {
        }
    }
}

/// Dividing `a` by `b` fails with `DivisionByZero` exactly when `b` is zero,
/// for every `a` and every store. When `b` is not zero the division never
/// reports `DivisionByZero`, whatever else it returns.
pub proof fn lemma_divide_by_zero(store: MeasureStore, exp: Expression, a: i64, b: i64)
    requires
        exp matches Expression::Abo(ArithOp::Divide, exps) && exps@ =~= seq![
            Expression::Const(a),
            Expression::Const(b),
        ],
    ensures
        eval_full(store, exp, ExpectedType::Scalar) == Err::<ValueModel, ErrorKind>(
            ErrorKind::DivisionByZero,
        ) <==> b == 0,
{
    match exp {
        Expression::Abo(op, exps) => {
            let s = exps@;
            lemma_const_list_no_requests(exp, s);
            lemma_kids_two(store, s, a, b);
            let ks = kids(store, s, 2);
            if b == 0 {
                assert(apply_arith(op, a, b) == Err::<i64, ErrorKind>(ErrorKind::DivisionByZero));
                assert(arith_fold(op, a, ks, 1) == Err::<i64, ErrorKind>(
                    ErrorKind::DivisionByZero,
                ));
                assert(reduce_spec(store, exp) == Err::<ValueModel, ErrorKind>(
                    ErrorKind::DivisionByZero,
                ));
            } else {
                match a.checked_div(b) {
                    Some(q) => {
                        assert(apply_arith(op, a, b) == Ok::<i64, ErrorKind>(q));
                        assert(arith_fold(op, q, ks, 2) == Ok::<i64, ErrorKind>(q));
                        assert(arith_fold(op, a, ks, 1) == Ok::<i64, ErrorKind>(q));
                        assert(reduce_spec(store, exp) == Ok::<ValueModel, ErrorKind>(
                            ValueModel::Scalar(q),
                        ));
                    }
                    None => {
                        assert(apply_arith(op, a, b) == Err::<i64, ErrorKind>(ErrorKind::Overflow));
                        assert(arith_fold(op, a, ks, 1) == Err::<i64, ErrorKind>(
                            ErrorKind::Overflow,
                        ));
                        assert(reduce_spec(store, exp) == Err::<ValueModel, ErrorKind>(
                            ErrorKind::Overflow,
                        ));
                    }
                }
            }
        }
        _ => {
        }
    }
}

/// `Bool(GT, [a, b])` evaluates to `true` exactly when `a > b`, on any
/// store; the same shape holds for `LT` and `EQ` with their comparisons.
pub proof fn lemma_bool_pair(store: MeasureStore, exp: Expression, a: i64, b: i64)
    requires
        exp matches Expression::Bo(op, exps) && exps@ =~= seq![
            Expression::Const(a),
            Expression::Const(b),
        ],
    ensures
        exp matches Expression::Bo(op, _) ==> eval_full(store, exp, ExpectedType::Bool) == Ok::<
            ValueModel,
            ErrorKind,
        >(
            ValueModel::Bool(
                match op {
                    BoolOp::GT => a > b,
                    BoolOp::LT => a < b,
                    BoolOp::EQ => a == b,
                },
            ),
        ),
{
    match exp {
        Expression::Bo(op, exps) => {
            let s = exps@;
            lemma_const_list_no_requests(exp, s);
            lemma_kids_two(store, s, a, b);
            let ks = kids(store, s, 2);
            assert(bool_fold(op, b, ks, 2) == Ok::<bool, ErrorKind>(true));
            assert(bool_fold(op, a, ks, 1) == Ok::<bool, ErrorKind>(compare(op, a, b)));
            assert(reduce_spec(store, exp) == Ok::<ValueModel, ErrorKind>(
                ValueModel::Bool(compare(op, a, b)),
            ));
        }
        _ => {
        }
    }
}

/// Chaining `Bool(LT, [a, b, c])` evaluates to `true` exactly when `a < b`
/// and `b < c`: consecutive pairs are compared and the results conjoined.
pub proof fn lemma_lt_chain(store: MeasureStore, exp: Expression, a: i64, b: i64, c: i64)
    requires
        exp matches Expression::Bo(BoolOp::LT, exps) && exps@ =~= seq![
            Expression::Const(a),
            Expression::Const(b),
            Expression::Const(c),
        ],
    ensures
        eval_full(store, exp, ExpectedType::Bool) == Ok::<ValueModel, ErrorKind>(
            ValueModel::Bool(a < b && b < c),
        ),
{
    match exp {
        Expression::Bo(op, exps) => {
            let s = exps@;
            lemma_const_list_no_requests(exp, s);
            lemma_kids_three(store, s, a, b, c);
            let ks = kids(store, s, 3);
            assert(bool_fold(op, c, ks, 3) == Ok::<bool, ErrorKind>(true));
            assert(bool_fold(op, b, ks, 2) == Ok::<bool, ErrorKind>(b < c));
            assert(bool_fold(op, a, ks, 1) == Ok::<bool, ErrorKind>((a < b) && (b < c)));
            assert(reduce_spec(store, exp) == Ok::<ValueModel, ErrorKind>(
                ValueModel::Bool(a < b && b < c),
            ));
        }
        _ => {
        }
    }
}

/// The sum of a sequence of scalars, left to right.
pub open spec fn sum_of(vs: Seq<i64>) -> int
    decreases vs.len(),
{
    if vs.len() == 0 {
        0
    } else {
        sum_of(vs.drop_last()) + vs.last()
    }
}

/// Every running sum of the list stays representable.
pub open spec fn prefix_sums_ok(vs: Seq<i64>) -> bool {
    forall|k: int| 1 <= k <= vs.len() ==> i64::MIN <= #[trigger] sum_of(vs.take(k)) <= i64::MAX
}

/// Folding addition over operand values `Scalar(vs[i])` from position `i`
/// onward turns a running sum into the total sum.
proof fn lemma_add_fold(ks: Seq<Result<ValueModel, ErrorKind>>, vs: Seq<i64>, acc: i64, i: int)
    requires
        ks.len() == vs.len(),
        1 <= i <= vs.len(),
        forall|j: int|
            0 <= j < vs.len() ==> ks[j] == Ok::<ValueModel, ErrorKind>(
                ValueModel::Scalar(#[trigger] vs[j]),
            ),
        acc as int == sum_of(vs.take(i)),
        prefix_sums_ok(vs),
    ensures
        arith_fold(ArithOp::Add, acc, ks, i) == Ok::<i64, ErrorKind>(sum_of(vs) as i64),
    decreases vs.len() - i,
{
    assert(vs.take(vs.len() as int) =~= vs);
    if i == vs.len() {
        assert(arith_fold(ArithOp::Add, acc, ks, i) == Ok::<i64, ErrorKind>(acc));
    } else {
        assert(vs.take(i + 1).drop_last() =~= vs.take(i));
        assert(vs.take(i + 1).last() == vs[i]);
        assert(sum_of(vs.take(i + 1)) == acc as int + vs[i]);
        assert(i64::MIN <= sum_of(vs.take(i + 1)) <= i64::MAX);
        let acc2 = (acc as int + vs[i] as int) as i64;
        assert(apply_arith(ArithOp::Add, acc, vs[i]) == Ok::<i64, ErrorKind>(acc2));
        lemma_add_fold(ks, vs, acc2, i + 1);
    }
}

/// For any non-empty list of scalar constants, adding them evaluates to
/// their sum, on any store, as long as every running sum stays
/// representable.
pub proof fn lemma_add_list(store: MeasureStore, exp: Expression, vs: Seq<i64>)
    requires
        vs.len() >= 1,
        prefix_sums_ok(vs),
        exp matches Expression::Abo(ArithOp::Add, exps) && exps@.len() == vs.len() && (forall|
            i: int,
        |
            0 <= i < vs.len() ==> exps@[i] == Expression::Const(#[trigger] vs[i])),
    ensures
        eval_full(store, exp, ExpectedType::Scalar) == Ok::<ValueModel, ErrorKind>(
            ValueModel::Scalar(sum_of(vs) as i64),
        ),
{
    match exp {
        Expression::Abo(op, exps) => {
            let s = exps@;
            let n = s.len() as int;
            assert forall|i: int| 0 <= i < s.len() implies (#[trigger] s[i]) is Const by {
                assert(s[i] == Expression::Const(vs[i]));
            }
            lemma_const_list_no_requests(exp, s);
            let ks = kids(store, s, n);
            crate::reduce::lemma_kids_len(store, s, n);
            assert forall|j: int|
                0 <= j < n implies ks[j] == Ok::<ValueModel, ErrorKind>(
                ValueModel::Scalar(#[trigger] vs[j]),
            ) by {
                crate::reduce::lemma_kids_index(store, s, n, j);
                assert(s[j] == Expression::Const(vs[j]));
            }
            assert(vs.take(1) =~= seq![vs[0]]);
            assert(vs.take(1).drop_last() =~= Seq::<i64>::empty());
            assert(sum_of(vs.take(1).drop_last()) == 0);
            assert(sum_of(vs.take(1)) == vs[0] as int);
            assert(ks[0] == Ok::<ValueModel, ErrorKind>(ValueModel::Scalar(vs[0])));
            lemma_add_fold(ks, vs, vs[0], 1);
            assert(reduce_spec(store, exp) == Ok::<ValueModel, ErrorKind>(
                ValueModel::Scalar(sum_of(vs) as i64),
            ));
        }
        _ => {
        }
    }
}

/// On a sensor with no stored points, every single-point anchor resolves to
/// nothing — so `First`, `Last`, `At`, `Before`, `After` and `Closest` all
/// fail with `NotFound` — while a range over the same sensor yields the
/// empty series, successfully.
pub proof fn lemma_empty_sensor(store: MeasureStore, sensor: i64, at: At, from: At, to: At)
    requires
        store.points_of(sensor).len() == 0,
    ensures
        single_model(store.points_of(sensor), at) is None,
        range_model(store.points_of(sensor), from, to) =~= Seq::<MeasurementPoint>::empty(),
{
}

} // verus!
