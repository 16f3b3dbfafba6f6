use measurelog::clock::now;
use measurelog::expression::At;
use measurelog::expression::ErrorKind;
use measurelog::expression::MeasurementPoint;
use measurelog::expression::Moment;
use measurelog::records::User;
use measurelog::store::MeasureStore;

fn point(timestamp: i64, value: i64) -> MeasurementPoint {
    MeasurementPoint { timestamp, value }
}

#[test]
fn empty_sensor_anchors_fail_not_found() {
    let st = MeasureStore::new();
    let anchors = [
        At::First,
        At::Last,
        At::At(Moment { time: 5 }),
        At::Before(Moment { time: 5 }),
        At::After(Moment { time: 5 }),
        At::Closest(Moment { time: 5 }),
    ];
    for at in anchors.iter() {
        assert_eq!(st.resolve_single(3, at), Err(ErrorKind::NotFound));
    }
}

#[test]
fn empty_sensor_range_is_empty_success() {
    let st = MeasureStore::new();
    let r = st.resolve_range(3, &At::First, &At::Last);
    assert_eq!(r, Ok(vec![]));
}

#[test]
fn closest_tie_breaks_to_earlier_timestamp() {
    let mut st = MeasureStore::new();
    st.add_measurement(1, 10, 111);
    st.add_measurement(1, 20, 222);
    let r = st.resolve_single(1, &At::Closest(Moment { time: 15 }));
    assert_eq!(r, Ok(point(10, 111)));
}

#[test]
fn closest_prefers_strictly_nearer_point() {
    let mut st = MeasureStore::new();
    st.add_measurement(1, 10, 111);
    st.add_measurement(1, 20, 222);
    assert_eq!(st.resolve_single(1, &At::Closest(Moment { time: 16 })), Ok(point(20, 222)));
    assert_eq!(st.resolve_single(1, &At::Closest(Moment { time: 14 })), Ok(point(10, 111)));
}

#[test]
fn at_picks_exact_timestamp() {
    let mut st = MeasureStore::new();
    st.add_measurement(2, 10, 1);
    st.add_measurement(2, 20, 2);
    assert_eq!(st.resolve_single(2, &At::At(Moment { time: 20 })), Ok(point(20, 2)));
    assert_eq!(st.resolve_single(2, &At::At(Moment { time: 15 })), Err(ErrorKind::NotFound));
}

#[test]
fn before_picks_latest_strictly_below() {
    let mut st = MeasureStore::new();
    st.add_measurement(2, 10, 1);
    st.add_measurement(2, 20, 2);
    st.add_measurement(2, 30, 3);
    assert_eq!(st.resolve_single(2, &At::Before(Moment { time: 20 })), Ok(point(10, 1)));
    assert_eq!(st.resolve_single(2, &At::Before(Moment { time: 10 })), Err(ErrorKind::NotFound));
}

#[test]
fn after_picks_earliest_strictly_above() {
    let mut st = MeasureStore::new();
    st.add_measurement(2, 10, 1);
    st.add_measurement(2, 20, 2);
    st.add_measurement(2, 30, 3);
    assert_eq!(st.resolve_single(2, &At::After(Moment { time: 20 })), Ok(point(30, 3)));
    assert_eq!(st.resolve_single(2, &At::After(Moment { time: 30 })), Err(ErrorKind::NotFound));
}

#[test]
fn first_and_last_pick_extremes() {
    let mut st = MeasureStore::new();
    st.add_measurement(2, 20, 2);
    st.add_measurement(2, 10, 1);
    st.add_measurement(2, 30, 3);
    assert_eq!(st.resolve_single(2, &At::First), Ok(point(10, 1)));
    assert_eq!(st.resolve_single(2, &At::Last), Ok(point(30, 3)));
}

#[test]
fn equal_timestamps_keep_insertion_order() {
    let mut st = MeasureStore::new();
    st.add_measurement(4, 5, 1);
    st.add_measurement(4, 5, 2);
    assert_eq!(st.resolve_single(4, &At::First), Ok(point(5, 1)));
    assert_eq!(st.resolve_single(4, &At::Last), Ok(point(5, 2)));
}

#[test]
fn range_is_inclusive_and_ascending() {
    let mut st = MeasureStore::new();
    st.add_measurement(5, 30, 3);
    st.add_measurement(5, 10, 1);
    st.add_measurement(5, 20, 2);
    let all = st.resolve_range(5, &At::First, &At::Last);
    assert_eq!(all, Ok(vec![point(10, 1), point(20, 2), point(30, 3)]));
    let part = st.resolve_range(
        5,
        &At::At(Moment { time: 10 }),
        &At::At(Moment { time: 20 }),
    );
    assert_eq!(part, Ok(vec![point(10, 1), point(20, 2)]));
}

#[test]
fn reversed_range_is_empty() {
    let mut st = MeasureStore::new();
    st.add_measurement(5, 10, 1);
    st.add_measurement(5, 30, 3);
    let r = st.resolve_range(5, &At::Last, &At::First);
    assert_eq!(r, Ok(vec![]));
}

#[test]
fn unresolvable_bound_yields_empty_range() {
    let mut st = MeasureStore::new();
    st.add_measurement(5, 10, 1);
    let r = st.resolve_range(5, &At::Before(Moment { time: 10 }), &At::Last);
    assert_eq!(r, Ok(vec![]));
}

#[test]
fn insertion_out_of_order_is_stored_sorted() {
    let mut st = MeasureStore::new();
    st.add_measurement(6, 30, 3);
    st.add_measurement(6, 10, 1);
    st.add_measurement(6, 20, 2);
    assert_eq!(st.sensor_points(6), vec![point(10, 1), point(20, 2), point(30, 3)]);
}

#[test]
fn sensors_are_independent() {
    let mut st = MeasureStore::new();
    st.add_measurement(1, 10, 1);
    st.add_measurement(2, 20, 2);
    assert_eq!(st.sensor_points(1), vec![point(10, 1)]);
    assert_eq!(st.sensor_points(2), vec![point(20, 2)]);
    assert_eq!(st.sensor_points(3), vec![]);
}

#[test]
fn now_is_nonnegative() {
    let t = now();
    assert!(t.is_some());
    assert!(t.unwrap() >= 0);
}

#[test]
fn user_registration_check() {
    let pending = User {
        id: 1,
        name: String::from("ada"),
        hashwd: String::from("h"),
        salt: String::from("s"),
        email: String::from("ada@example.org"),
        registration_key: Some(String::from("key")),
    };
    assert!(!pending.is_registered());
    let done = User { registration_key: None, ..pending };
    assert!(done.is_registered());
}
