use measurelog::engine::evaluate;
use measurelog::expression::ArithOp;
use measurelog::expression::At;
use measurelog::expression::BoolOp;
use measurelog::expression::ErrorKind;
use measurelog::expression::EvaluatedValue;
use measurelog::expression::ExpectedType;
use measurelog::expression::Expression;
use measurelog::expression::Moment;
use measurelog::store::MeasureStore;

fn store_with_sensor_seven() -> MeasureStore {
    let mut st = MeasureStore::new();
    st.add_measurement(7, 10, 100);
    st.add_measurement(7, 20, 200);
    st.add_measurement(7, 30, 300);
    st
}

fn meas(sensor: i64, at: At) -> Expression {
    Expression::Measurement { sensor, at }
}

#[test]
fn scenario_sensor_gt_const() {
    let st = store_with_sensor_seven();
    let exp = Expression::Bo(
        BoolOp::GT,
        vec![meas(7, At::At(Moment { time: 20 })), Expression::Const(150)],
    );
    let r = evaluate(&st, &exp, ExpectedType::Bool);
    assert_eq!(r, Ok(EvaluatedValue::Bool(true)));
}

#[test]
fn scenario_first_plus_last() {
    let st = store_with_sensor_seven();
    let exp = Expression::Abo(ArithOp::Add, vec![meas(7, At::First), meas(7, At::Last)]);
    let r = evaluate(&st, &exp, ExpectedType::Scalar);
    assert_eq!(r, Ok(EvaluatedValue::Scalar(400)));
}

#[test]
fn scenario_missing_sensor() {
    let st = store_with_sensor_seven();
    let exp = Expression::Abo(ArithOp::Add, vec![meas(9, At::Last), Expression::Const(1)]);
    let r = evaluate(&st, &exp, ExpectedType::Scalar);
    assert_eq!(r, Err(ErrorKind::NotFound));
}

#[test]
fn add_three_constants() {
    let st = MeasureStore::new();
    let exp = Expression::Abo(
        ArithOp::Add,
        vec![Expression::Const(2), Expression::Const(3), Expression::Const(4)],
    );
    assert_eq!(evaluate(&st, &exp, ExpectedType::Scalar), Ok(EvaluatedValue::Scalar(9)));
}

#[test]
fn multiply_three_constants() {
    let st = MeasureStore::new();
    let exp = Expression::Abo(
        ArithOp::Multiply,
        vec![Expression::Const(2), Expression::Const(3), Expression::Const(4)],
    );
    assert_eq!(evaluate(&st, &exp, ExpectedType::Scalar), Ok(EvaluatedValue::Scalar(24)));
}

#[test]
fn add_longer_list() {
    let st = MeasureStore::new();
    let exp = Expression::Abo(
        ArithOp::Add,
        vec![
            Expression::Const(1),
            Expression::Const(2),
            Expression::Const(3),
            Expression::Const(4),
            Expression::Const(5),
        ],
    );
    assert_eq!(evaluate(&st, &exp, ExpectedType::Scalar), Ok(EvaluatedValue::Scalar(15)));
}

#[test]
fn subtract_folds_left_to_right() {
    let st = MeasureStore::new();
    let exp = Expression::Abo(
        ArithOp::Subtract,
        vec![Expression::Const(10), Expression::Const(3), Expression::Const(2)],
    );
    assert_eq!(evaluate(&st, &exp, ExpectedType::Scalar), Ok(EvaluatedValue::Scalar(5)));
}

#[test]
fn single_operand_passes_through() {
    let st = MeasureStore::new();
    let exp = Expression::Abo(ArithOp::Divide, vec![Expression::Const(5)]);
    assert_eq!(evaluate(&st, &exp, ExpectedType::Scalar), Ok(EvaluatedValue::Scalar(5)));
}

#[test]
fn divide_by_zero_fails() {
    let st = MeasureStore::new();
    let exp = Expression::Abo(ArithOp::Divide, vec![Expression::Const(7), Expression::Const(0)]);
    assert_eq!(evaluate(&st, &exp, ExpectedType::Scalar), Err(ErrorKind::DivisionByZero));
}

#[test]
fn divide_truncates_toward_zero() {
    let st = MeasureStore::new();
    let exp = Expression::Abo(ArithOp::Divide, vec![Expression::Const(7), Expression::Const(2)]);
    assert_eq!(evaluate(&st, &exp, ExpectedType::Scalar), Ok(EvaluatedValue::Scalar(3)));
    let exp2 = Expression::Abo(ArithOp::Divide, vec![Expression::Const(-7), Expression::Const(2)]);
    assert_eq!(evaluate(&st, &exp2, ExpectedType::Scalar), Ok(EvaluatedValue::Scalar(-3)));
}

#[test]
fn divide_overflow_is_reported() {
    let st = MeasureStore::new();
    let exp = Expression::Abo(
        ArithOp::Divide,
        vec![Expression::Const(i64::MIN), Expression::Const(-1)],
    );
    assert_eq!(evaluate(&st, &exp, ExpectedType::Scalar), Err(ErrorKind::Overflow));
}

#[test]
fn add_overflow_is_reported() {
    let st = MeasureStore::new();
    let exp = Expression::Abo(
        ArithOp::Add,
        vec![Expression::Const(i64::MAX), Expression::Const(1)],
    );
    assert_eq!(evaluate(&st, &exp, ExpectedType::Scalar), Err(ErrorKind::Overflow));
}

#[test]
fn gt_pair() {
    let st = MeasureStore::new();
    let t = Expression::Bo(BoolOp::GT, vec![Expression::Const(5), Expression::Const(3)]);
    assert_eq!(evaluate(&st, &t, ExpectedType::Bool), Ok(EvaluatedValue::Bool(true)));
    let f = Expression::Bo(BoolOp::GT, vec![Expression::Const(3), Expression::Const(5)]);
    assert_eq!(evaluate(&st, &f, ExpectedType::Bool), Ok(EvaluatedValue::Bool(false)));
}

#[test]
fn lt_chain_is_pairwise() {
    let st = MeasureStore::new();
    let t = Expression::Bo(
        BoolOp::LT,
        vec![Expression::Const(1), Expression::Const(2), Expression::Const(3)],
    );
    assert_eq!(evaluate(&st, &t, ExpectedType::Bool), Ok(EvaluatedValue::Bool(true)));
    let f = Expression::Bo(
        BoolOp::LT,
        vec![Expression::Const(1), Expression::Const(3), Expression::Const(2)],
    );
    assert_eq!(evaluate(&st, &f, ExpectedType::Bool), Ok(EvaluatedValue::Bool(false)));
}

#[test]
fn eq_chain() {
    let st = MeasureStore::new();
    let t = Expression::Bo(
        BoolOp::EQ,
        vec![Expression::Const(2), Expression::Const(2), Expression::Const(2)],
    );
    assert_eq!(evaluate(&st, &t, ExpectedType::Bool), Ok(EvaluatedValue::Bool(true)));
}

#[test]
fn empty_arith_is_invalid_arity() {
    let st = MeasureStore::new();
    let exp = Expression::Abo(ArithOp::Add, vec![]);
    assert_eq!(evaluate(&st, &exp, ExpectedType::Scalar), Err(ErrorKind::InvalidArity));
}

#[test]
fn one_operand_bool_is_invalid_arity() {
    let st = MeasureStore::new();
    let exp = Expression::Bo(BoolOp::GT, vec![Expression::Const(1)]);
    assert_eq!(evaluate(&st, &exp, ExpectedType::Bool), Err(ErrorKind::InvalidArity));
}

#[test]
fn bool_operand_in_arith_is_type_mismatch() {
    let st = MeasureStore::new();
    let exp = Expression::Abo(
        ArithOp::Add,
        vec![
            Expression::Const(1),
            Expression::Bo(BoolOp::GT, vec![Expression::Const(1), Expression::Const(0)]),
        ],
    );
    assert_eq!(evaluate(&st, &exp, ExpectedType::Scalar), Err(ErrorKind::TypeMismatch));
}

#[test]
fn series_operand_in_arith_is_type_mismatch() {
    let st = store_with_sensor_seven();
    let exp = Expression::Abo(
        ArithOp::Add,
        vec![
            Expression::MeasurementRange { sensor: 7, from: At::First, to: At::Last },
            Expression::Const(1),
        ],
    );
    assert_eq!(evaluate(&st, &exp, ExpectedType::Scalar), Err(ErrorKind::TypeMismatch));
}

#[test]
fn wrong_expectation_is_type_mismatch() {
    let st = MeasureStore::new();
    let exp = Expression::Const(5);
    assert_eq!(evaluate(&st, &exp, ExpectedType::Bool), Err(ErrorKind::TypeMismatch));
}

#[test]
fn missing_leaf_wins_over_division_by_zero() {
    // resolution runs before reduction, so missing data is reported even
    // when an earlier operand would divide by zero
    let st = MeasureStore::new();
    let exp = Expression::Abo(
        ArithOp::Divide,
        vec![
            Expression::Const(1),
            Expression::Const(0),
            Expression::Measurement { sensor: 9, at: At::Last },
        ],
    );
    assert_eq!(evaluate(&st, &exp, ExpectedType::Scalar), Err(ErrorKind::NotFound));
}

#[test]
fn evaluation_is_repeatable() {
    let st = store_with_sensor_seven();
    let exp = Expression::Abo(ArithOp::Add, vec![meas(7, At::First), meas(7, At::Last)]);
    let first = evaluate(&st, &exp, ExpectedType::Scalar);
    let second = evaluate(&st, &exp, ExpectedType::Scalar);
    assert_eq!(first, second);
}
