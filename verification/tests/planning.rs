use measurelog::expression::eval_for_measure_requests;
use measurelog::expression::ArithOp;
use measurelog::expression::At;
use measurelog::expression::BoolOp;
use measurelog::expression::Expression;
use measurelog::expression::MeasureRequest;
use measurelog::expression::Moment;
use measurelog::plan::plan;

fn meas(sensor: i64, at: At) -> Expression {
    Expression::Measurement { sensor, at }
}

#[test]
fn walker_emits_one_request_per_leaf_in_order() {
    let exp = Expression::Abo(
        ArithOp::Add,
        vec![
            meas(7, At::First),
            Expression::Bo(
                BoolOp::GT,
                vec![meas(8, At::At(Moment { time: 5 })), Expression::Const(1)],
            ),
            Expression::MeasurementRange { sensor: 7, from: At::First, to: At::Last },
        ],
    );
    let reqs = eval_for_measure_requests(&exp);
    assert_eq!(
        reqs,
        vec![
            MeasureRequest::Single { sensor: 7, at: At::First },
            MeasureRequest::Single { sensor: 8, at: At::At(Moment { time: 5 }) },
            MeasureRequest::Range { sensor: 7, from: At::First, to: At::Last },
        ]
    );
}

#[test]
fn constants_plan_nothing() {
    let exp = Expression::Abo(ArithOp::Add, vec![Expression::Const(1), Expression::Const(2)]);
    let p = plan(&exp);
    assert!(p.requests.is_empty());
    assert!(p.slots.is_empty());
}

#[test]
fn identical_leaves_share_one_request() {
    let exp = Expression::Abo(ArithOp::Add, vec![meas(7, At::First), meas(7, At::First)]);
    let p = plan(&exp);
    assert_eq!(p.requests, vec![MeasureRequest::Single { sensor: 7, at: At::First }]);
    assert_eq!(p.slots, vec![0, 0]);
}

#[test]
fn distinct_leaves_get_distinct_requests() {
    let exp = Expression::Abo(ArithOp::Add, vec![meas(7, At::First), meas(7, At::Last)]);
    let p = plan(&exp);
    assert_eq!(
        p.requests,
        vec![
            MeasureRequest::Single { sensor: 7, at: At::First },
            MeasureRequest::Single { sensor: 7, at: At::Last },
        ]
    );
    assert_eq!(p.slots, vec![0, 1]);
}

#[test]
fn planning_twice_yields_identical_plans() {
    let build = || {
        Expression::Abo(
            ArithOp::Add,
            vec![meas(7, At::First), meas(7, At::First), meas(9, At::Last)],
        )
    };
    let one = plan(&build());
    let two = plan(&build());
    assert_eq!(one.requests, two.requests);
    assert_eq!(one.slots, two.slots);
}
