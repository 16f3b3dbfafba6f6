//! The in-memory measurement store: per-sensor series of timestamped points,
//! kept in ascending timestamp order (stable, so points with equal timestamps
//! keep their insertion order), and the resolution of temporal anchors and
//! ranges against a series.

use vstd::prelude::*;

use crate::expression::At;
use crate::expression::ErrorKind;
use crate::expression::MeasurementPoint;

verus! {

/// Timestamps never decrease along the sequence.
pub open spec fn sorted_by_time(pts: Seq<MeasurementPoint>) -> bool {
    forall|i: int, j: int|
        0 <= i <= j < pts.len() ==> pts[i].timestamp <= pts[j].timestamp
}

/// The distance between a timestamp and a moment.
pub open spec fn dist(ts: int, m: int) -> int {
    if ts >= m {
        ts - m
    } else {
        m - ts
    }
}

/// The least index whose point has timestamp exactly `m`, or -1 if none has.
pub open spec fn first_eq(pts: Seq<MeasurementPoint>, m: int) -> int
    decreases pts.len(),
{
    if pts.len() == 0 {
        -1
    } else if pts[0].timestamp == m {
        0
    } else {
        let r = first_eq(pts.drop_first(), m);
        if r < 0 {
            -1
        } else {
            r + 1
        }
    }
}

/// The greatest index whose point has timestamp strictly below `m`, or -1.
pub open spec fn last_below(pts: Seq<MeasurementPoint>, m: int) -> int
    decreases pts.len(),
{
    if pts.len() == 0 {
        -1
    } else if pts[pts.len() - 1].timestamp < m {
        pts.len() - 1
    } else {
        last_below(pts.drop_last(), m)
    }
}

/// The least index whose point has timestamp strictly above `m`, or -1.
pub open spec fn first_above(pts: Seq<MeasurementPoint>, m: int) -> int
    decreases pts.len(),
{
    if pts.len() == 0 {
        -1
    } else if pts[0].timestamp > m {
        0
    } else {
        let r = first_above(pts.drop_first(), m);
        if r < 0 {
            -1
        } else {
            r + 1
        }
    }
}

/// The index of the point nearest to `m`. A tie in distance is broken towards
/// the smaller timestamp, and a full tie towards the earlier index. Only
/// meaningful when the sequence is non-empty.
pub open spec fn closest_idx(pts: Seq<MeasurementPoint>, m: int) -> int
    decreases pts.len(),
{
    if pts.len() <= 1 {
        0
    } else {
        let r = closest_idx(pts.drop_last(), m);
        let l = pts.len() - 1;
        if dist(pts[l].timestamp as int, m) < dist(pts[r].timestamp as int, m) || (dist(
            pts[l].timestamp as int,
            m,
        ) == dist(pts[r].timestamp as int, m) && pts[l].timestamp < pts[r].timestamp) {
            l
        } else {
            r
        }
    }
}

/// The point a single-point anchor selects from a series, if any.
pub open spec fn single_model(pts: Seq<MeasurementPoint>, at: At) -> Option<MeasurementPoint> {
    match at {
        At::At(mo) => {
            let i = first_eq(pts, mo.time as int);
            if i < 0 {
                None
            } else {
                Some(pts[i])
            }
        }
        At::Before(mo) => {
            let i = last_below(pts, mo.time as int);
            if i < 0 {
                None
            } else {
                Some(pts[i])
            }
        }
        At::After(mo) => {
            let i = first_above(pts, mo.time as int);
            if i < 0 {
                None
            } else {
                Some(pts[i])
            }
        }
        At::Closest(mo) => {
            if pts.len() == 0 {
                None
            } else {
                Some(pts[closest_idx(pts, mo.time as int)])
            }
        }
        At::First => {
            if pts.len() == 0 {
                None
            } else {
                Some(pts[0])
            }
        }
        At::Last => {
            if pts.len() == 0 {
                None
            } else {
                Some(pts[pts.len() - 1])
            }
        }
    }
}

/// The subsequence of points whose timestamps lie in `[lo, hi]`, in stored
/// order.
pub open spec fn range_filter(pts: Seq<MeasurementPoint>, lo: int, hi: int) -> Seq<
    MeasurementPoint,
>
    decreases pts.len(),
{
    if pts.len() == 0 {
        Seq::empty()
    } else {
        let prefix = range_filter(pts.drop_last(), lo, hi);
        let l = pts[pts.len() - 1];
        if lo <= l.timestamp && l.timestamp <= hi {
            prefix.push(l)
        } else {
            prefix
        }
    }
}

/// The series a range lookup yields: both bounds resolve independently as
/// single-point anchors, and every point between their timestamps, inclusive,
/// is returned. A bound that does not resolve yields the empty series; an
/// empty result is success, not an error.
pub open spec fn range_model(pts: Seq<MeasurementPoint>, from: At, to: At) -> Seq<
    MeasurementPoint,
> {
    match (single_model(pts, from), single_model(pts, to)) {
        (Some(pf), Some(pt)) => range_filter(pts, pf.timestamp as int, pt.timestamp as int),
        _ => Seq::empty(),
    }
}

/// `p` placed after every stored point whose timestamp is at or below its
/// own: insertion keeps the series sorted and is stable for equal timestamps.
pub open spec fn insert_sorted(pts: Seq<MeasurementPoint>, p: MeasurementPoint) -> Seq<
    MeasurementPoint,
>
    decreases pts.len(),
{
    if pts.len() == 0 {
        seq![p]
    } else if pts[pts.len() - 1].timestamp <= p.timestamp {
        pts.push(p)
    } else {
        insert_sorted(pts.drop_last(), p).push(pts[pts.len() - 1])
    }
}

/// What `first_eq` returns: -1 exactly when no point has timestamp `m`, and
/// otherwise the least index that has.
pub proof fn lemma_first_eq(pts: Seq<MeasurementPoint>, m: int)
    ensures
        first_eq(pts, m) == -1 <==> (forall|j: int|
            0 <= j < pts.len() ==> pts[j].timestamp != m),
        first_eq(pts, m) != -1 ==> 0 <= first_eq(pts, m) < pts.len() && pts[first_eq(
            pts,
            m,
        )].timestamp == m && (forall|j: int| 0 <= j < first_eq(pts, m) ==> pts[j].timestamp != m),
    decreases pts.len(),
{
    if pts.len() == 0 {
    } else if pts[0].timestamp == m {
    } else {
        lemma_first_eq(pts.drop_first(), m);
        let rest = pts.drop_first();
        let r = first_eq(rest, m);
        if r < 0 {
            assert forall|j: int| 0 <= j < pts.len() implies pts[j].timestamp != m by {
                if j > 0 {
                    assert(rest[j - 1] == pts[j]);
                }
            }
        } else {
            assert(rest[r] == pts[r + 1]);
            assert forall|j: int| 0 <= j < first_eq(pts, m) implies pts[j].timestamp != m by {
                if j > 0 {
                    assert(rest[j - 1] == pts[j]);
                }
            }
        }
    }
}

/// What `last_below` returns: -1 exactly when no point lies strictly below
/// `m`, and otherwise the greatest index that does.
pub proof fn lemma_last_below(pts: Seq<MeasurementPoint>, m: int)
    ensures
        last_below(pts, m) == -1 <==> (forall|j: int|
            0 <= j < pts.len() ==> pts[j].timestamp >= m),
        last_below(pts, m) != -1 ==> 0 <= last_below(pts, m) < pts.len() && pts[last_below(
            pts,
            m,
        )].timestamp < m && (forall|j: int|
            last_below(pts, m) < j < pts.len() ==> pts[j].timestamp >= m),
    decreases pts.len(),
{
    if pts.len() == 0 {
    } else if pts[pts.len() - 1].timestamp < m {
    } else {
        lemma_last_below(pts.drop_last(), m);
        assert(forall|j: int| 0 <= j < pts.drop_last().len() ==> pts.drop_last()[j] == pts[j]);
    }
}

/// What `first_above` returns: -1 exactly when no point lies strictly above
/// `m`, and otherwise the least index that does.
pub proof fn lemma_first_above(pts: Seq<MeasurementPoint>, m: int)
    ensures
        first_above(pts, m) == -1 <==> (forall|j: int|
            0 <= j < pts.len() ==> pts[j].timestamp <= m),
        first_above(pts, m) != -1 ==> 0 <= first_above(pts, m) < pts.len() && pts[first_above(
            pts,
            m,
        )].timestamp > m && (forall|j: int|
            0 <= j < first_above(pts, m) ==> pts[j].timestamp <= m),
    decreases pts.len(),
{
    if pts.len() == 0 {
    } else if pts[0].timestamp > m {
    } else {
        lemma_first_above(pts.drop_first(), m);
        let rest = pts.drop_first();
        let r = first_above(rest, m);
        if r < 0 {
            assert forall|j: int| 0 <= j < pts.len() implies pts[j].timestamp <= m by {
                if j > 0 {
                    assert(rest[j - 1] == pts[j]);
                }
            }
        } else {
            assert(rest[r] == pts[r + 1]);
            assert forall|j: int| 0 <= j < first_above(pts, m) implies pts[j].timestamp <= m by {
                if j > 0 {
                    assert(rest[j - 1] == pts[j]);
                }
            }
        }
    }
}

/// The nearest-point tie-break, in full: `closest_idx` names a valid index,
/// no point is strictly nearer to `m`, an equal distance never comes with a
/// smaller timestamp, and an equal distance and timestamp never come at an
/// earlier index.
pub proof fn lemma_closest_idx(pts: Seq<MeasurementPoint>, m: int)
    requires
        pts.len() > 0,
    ensures
        0 <= closest_idx(pts, m) < pts.len(),
        forall|j: int|
            0 <= j < pts.len() ==> dist(pts[closest_idx(pts, m)].timestamp as int, m) <= dist(
                (#[trigger] pts[j]).timestamp as int,
                m,
            ),
        forall|j: int|
            0 <= j < pts.len() && dist((#[trigger] pts[j]).timestamp as int, m) == dist(
                pts[closest_idx(pts, m)].timestamp as int,
                m,
            ) ==> pts[closest_idx(pts, m)].timestamp <= pts[j].timestamp,
        forall|j: int|
            0 <= j < pts.len() && (#[trigger] pts[j]).timestamp == pts[closest_idx(
                pts,
                m,
            )].timestamp ==> closest_idx(pts, m) <= j,
    decreases pts.len(),
{
    if pts.len() <= 1 {
    } else {
        lemma_closest_idx(pts.drop_last(), m);
        assert(forall|j: int| 0 <= j < pts.drop_last().len() ==> pts.drop_last()[j] == pts[j]);
    }
}

/// On a sorted series the index selectors carry their temporal meaning:
/// `last_below` picks the greatest timestamp strictly below `m`, and
/// `first_above` the least timestamp strictly above it.
pub proof fn lemma_anchor_extremes(pts: Seq<MeasurementPoint>, m: int)
    requires
        sorted_by_time(pts),
    ensures
        last_below(pts, m) >= 0 ==> forall|j: int|
            0 <= j < pts.len() && (#[trigger] pts[j]).timestamp < m ==> pts[j].timestamp <= pts[
                last_below(pts, m)
            ].timestamp,
        first_above(pts, m) >= 0 ==> forall|j: int|
            0 <= j < pts.len() && (#[trigger] pts[j]).timestamp > m ==> pts[j].timestamp >= pts[
                first_above(pts, m)
            ].timestamp,
{
    lemma_last_below(pts, m);
    lemma_first_above(pts, m);
}

/// Inserting at a position whose left neighbours are at or below `p` and
/// whose right neighbours are strictly above it is exactly the stable sorted
/// insertion.
pub proof fn lemma_insert_sorted_at(pts: Seq<MeasurementPoint>, p: MeasurementPoint, j: int)
    requires
        sorted_by_time(pts),
        0 <= j <= pts.len(),
        j == pts.len() || pts[j].timestamp > p.timestamp,
        j == 0 || pts[j - 1].timestamp <= p.timestamp,
    ensures
        insert_sorted(pts, p) == pts.insert(j, p),
    decreases pts.len(),
{
    if pts.len() == 0 {
        assert(insert_sorted(pts, p) =~= pts.insert(0, p));
    } else if pts[pts.len() - 1].timestamp <= p.timestamp {
        assert(j == pts.len());
        assert(insert_sorted(pts, p) =~= pts.insert(pts.len() as int, p));
    } else {
        assert(j < pts.len());
        lemma_insert_sorted_at(pts.drop_last(), p, j);
        assert(insert_sorted(pts, p) =~= pts.insert(j, p));
    }
}

/// Such an insertion keeps the series sorted.
pub proof fn lemma_insert_at_keeps_sorted(pts: Seq<MeasurementPoint>, p: MeasurementPoint, j: int)
    requires
        sorted_by_time(pts),
        0 <= j <= pts.len(),
        j == pts.len() || pts[j].timestamp > p.timestamp,
        j == 0 || pts[j - 1].timestamp <= p.timestamp,
    ensures
        sorted_by_time(pts.insert(j, p)),
{
    let new = pts.insert(j, p);
    assert forall|a: int, b: int|
        0 <= a <= b < new.len() implies new[a].timestamp <= new[b].timestamp by {
        if a < j {
            assert(new[a] == pts[a]);
        } else if a > j {
            assert(new[a] == pts[a - 1]);
        }
        if b < j {
            assert(new[b] == pts[b]);
        } else if b > j {
            assert(new[b] == pts[b - 1]);
        }
    }
}

/// The distance between a timestamp and a moment, computed exactly in a
/// wider type.
fn dist_to(ts: i64, m: i64) -> (d: i128)
    ensures
        d == dist(ts as int, m as int),
{
    let a = ts as i128;
    let b = m as i128;
    if a >= b {
        a - b
    } else {
        b - a
    }
}

/// The least index whose point has timestamp exactly `m`, if any.
fn find_first_eq(pts: &Vec<MeasurementPoint>, m: i64) -> (r: Option<usize>)
    ensures
        match r {
            Some(i) => i < pts@.len() && first_eq(pts@, m as int) == i as int,
            None => first_eq(pts@, m as int) == -1,
        },
{
    let mut i: usize = 0;
    while i < pts.len()
        invariant
            i <= pts@.len(),
            forall|j: int| 0 <= j < i ==> (#[trigger] pts@[j]).timestamp != m,
        decreases pts@.len() - i,
    {
        if pts[i].timestamp == m {
            proof {
                lemma_first_eq(pts@, m as int);
            }
            return Some(i);
        }
        i = i + 1;
    }
    proof {
        lemma_first_eq(pts@, m as int);
    }
    None
}

/// The greatest index whose point has timestamp strictly below `m`, if any.
fn find_last_below(pts: &Vec<MeasurementPoint>, m: i64) -> (r: Option<usize>)
    ensures
        match r {
            Some(i) => i < pts@.len() && last_below(pts@, m as int) == i as int,
            None => last_below(pts@, m as int) == -1,
        },
{
    let mut i: usize = pts.len();
    while i > 0
        invariant
            i <= pts@.len(),
            forall|j: int| i <= j < pts@.len() ==> (#[trigger] pts@[j]).timestamp >= m,
        decreases i,
    {
        if pts[i - 1].timestamp < m {
            proof {
                lemma_last_below(pts@, m as int);
            }
            return Some(i - 1);
        }
        i = i - 1;
    }
    proof {
        lemma_last_below(pts@, m as int);
    }
    None
}

/// The least index whose point has timestamp strictly above `m`, if any.
fn find_first_above(pts: &Vec<MeasurementPoint>, m: i64) -> (r: Option<usize>)
    ensures
        match r {
            Some(i) => i < pts@.len() && first_above(pts@, m as int) == i as int,
            None => first_above(pts@, m as int) == -1,
        },
{
    let mut i: usize = 0;
    while i < pts.len()
        invariant
            i <= pts@.len(),
            forall|j: int| 0 <= j < i ==> (#[trigger] pts@[j]).timestamp <= m,
        decreases pts@.len() - i,
    {
        if pts[i].timestamp > m {
            proof {
                lemma_first_above(pts@, m as int);
            }
            return Some(i);
        }
        i = i + 1;
    }
    proof {
        lemma_first_above(pts@, m as int);
    }
    None
}

/// The index of the point nearest to `m`, with the documented tie-breaks.
fn find_closest(pts: &Vec<MeasurementPoint>, m: i64) -> (r: usize)
    requires
        pts@.len() > 0,
    ensures
        r < pts@.len(),
        r as int == closest_idx(pts@, m as int),
{
    let mut best: usize = 0;
    let mut i: usize = 1;
    proof {
        assert(pts@.take(1) =~= seq![pts@[0]]);
    }
    while i < pts.len()
        invariant
            1 <= i <= pts@.len(),
            best < i,
            best as int == closest_idx(pts@.take(i as int), m as int),
        decreases pts@.len() - i,
    {
        let db = dist_to(pts[best].timestamp, m);
        let dc = dist_to(pts[i].timestamp, m);
        proof {
            let prefix = pts@.take(i as int);
            let next = pts@.take(i as int + 1);
            assert(next.drop_last() =~= prefix);
            assert(next[i as int] == pts@[i as int]);
            assert(next[best as int] == pts@[best as int]);
            assert(prefix[best as int] == pts@[best as int]);
        }
        if dc < db || (dc == db && pts[i].timestamp < pts[best].timestamp) {
            best = i;
        }
        i = i + 1;
    }
    proof {
        assert(pts@.take(pts@.len() as int) =~= pts@);
    }
    best
}

/// One sensor's stored series.
struct SensorSeries {
    sensor: i64,
    points: Vec<MeasurementPoint>,
}

/// The least index of `entries` whose series belongs to `sensor`, or -1.
spec fn idx_of(entries: Seq<SensorSeries>, sensor: i64) -> int
    decreases entries.len(),
{
    if entries.len() == 0 {
        -1
    } else if entries[0].sensor == sensor {
        0
    } else {
        let r = idx_of(entries.drop_first(), sensor);
        if r < 0 {
            -1
        } else {
            r + 1
        }
    }
}

/// What `idx_of` returns: -1 exactly when no entry belongs to the sensor,
/// and otherwise the least index of one that does.
proof fn lemma_idx_of(entries: Seq<SensorSeries>, sensor: i64)
    ensures
        idx_of(entries, sensor) == -1 <==> (forall|j: int|
            0 <= j < entries.len() ==> (#[trigger] entries[j]).sensor != sensor),
        idx_of(entries, sensor) != -1 ==> 0 <= idx_of(entries, sensor) < entries.len() && entries[
            idx_of(entries, sensor)
        ].sensor == sensor && (forall|j: int|
            0 <= j < idx_of(entries, sensor) ==> (#[trigger] entries[j]).sensor != sensor),
    decreases entries.len(),
{
    if entries.len() == 0 {
    } else if entries[0].sensor == sensor {
    } else {
        lemma_idx_of(entries.drop_first(), sensor);
        let rest = entries.drop_first();
        let r = idx_of(rest, sensor);
        if r < 0 {
            assert forall|j: int|
                0 <= j < entries.len() implies (#[trigger] entries[j]).sensor != sensor by {
                if j > 0 {
                    assert(rest[j - 1] == entries[j]);
                }
            }
        } else {
            assert(rest[r] == entries[r + 1]);
            assert forall|j: int|
                0 <= j < idx_of(entries, sensor) implies (#[trigger] entries[j]).sensor
                    != sensor by {
                if j > 0 {
                    assert(rest[j - 1] == entries[j]);
                }
            }
        }
    }
}

/// The in-memory measurement store. It maps each sensor to its series of
/// points; a sensor that was never written has the empty series. The store
/// is the engine's only collaborator: the resolver reads it, nothing in the
/// engine writes it.
pub struct MeasureStore {
    sensors: Vec<SensorSeries>,
}

impl MeasureStore {
    /// The series stored for a sensor, as a mathematical sequence.
    pub closed spec fn points_of(self, sensor: i64) -> Seq<MeasurementPoint> {
        let i = idx_of(self.sensors@, sensor);
        if i < 0 {
            Seq::empty()
        } else {
            self.sensors@[i].points@
        }
    }

    /// Well-formed: one entry per sensor, every series sorted by timestamp.
    pub closed spec fn wf(self) -> bool {
        (forall|i: int, j: int|
            0 <= i < j < self.sensors@.len() ==> (#[trigger] self.sensors@[i]).sensor != (
            #[trigger] self.sensors@[j]).sensor) && (forall|i: int|
            0 <= i < self.sensors@.len() ==> sorted_by_time(
                (#[trigger] self.sensors@[i]).points@,
            ))
    }

    /// Every series of a well-formed store is sorted by timestamp.
    pub proof fn lemma_wf_sorted(self, sensor: i64)
        requires
            self.wf(),
        ensures
            sorted_by_time(self.points_of(sensor)),
    {
        lemma_idx_of(self.sensors@, sensor);
    }

    /// A store with no sensors and no points.
    pub fn new() -> (r: MeasureStore)
        ensures
            r.wf(),
            forall|s: i64| r.points_of(s) == Seq::<MeasurementPoint>::empty(),
    {
        MeasureStore { sensors: Vec::new() }
    }

    /// The index of the sensor's entry, if it has one.
    fn find_entry(&self, sensor: i64) -> (r: Option<usize>)
        ensures
            match r {
                Some(i) => i < self.sensors@.len() && idx_of(self.sensors@, sensor) == i as int,
                None => idx_of(self.sensors@, sensor) == -1,
            },
    {
        let mut i: usize = 0;
        while i < self.sensors.len()
            invariant
                i <= self.sensors@.len(),
                forall|j: int| 0 <= j < i ==> (#[trigger] self.sensors@[j]).sensor != sensor,
            decreases self.sensors@.len() - i,
        {
            if self.sensors[i].sensor == sensor {
                proof {
                    lemma_idx_of(self.sensors@, sensor);
                }
                return Some(i);
            }
            i = i + 1;
        }
        proof {
            lemma_idx_of(self.sensors@, sensor);
        }
        None
    }

    /// Resolves a single-point anchor against the sensor's series, exactly
    /// as [`single_model`] describes: the point at the moment, the latest
    /// strictly before it, the earliest strictly after it, the nearest (a
    /// distance tie goes to the smaller timestamp), the first or the last
    /// point. Fails with `NotFound` exactly when the anchor selects nothing.
    /// [`lemma_anchor_extremes`] and [`lemma_closest_idx`] spell out what the
    /// selected point extremizes on a well-formed store.
    pub fn resolve_single(&self, sensor: i64, at: &At) -> (r: Result<MeasurementPoint, ErrorKind>)
        ensures
            match r {
                Ok(p) => single_model(self.points_of(sensor), *at) == Some(p),
                Err(e) => e == ErrorKind::NotFound && single_model(self.points_of(sensor), *at)
                    is None,
            },
    {
        let found = self.find_entry(sensor);
        match found {
            None => {
                proof {
                    assert(self.points_of(sensor) =~= Seq::<MeasurementPoint>::empty());
                }
                Err(ErrorKind::NotFound)
            }
            Some(idx) => {
                let pts = &self.sensors[idx].points;
                proof {
                    assert(pts@ == self.points_of(sensor));
                }
                match at {
                    At::At(mo) => match find_first_eq(pts, mo.time) {
                        Some(i) => Ok(pts[i]),
                        None => Err(ErrorKind::NotFound),
                    },
                    At::Before(mo) => match find_last_below(pts, mo.time) {
                        Some(i) => Ok(pts[i]),
                        None => Err(ErrorKind::NotFound),
                    },
                    At::After(mo) => match find_first_above(pts, mo.time) {
                        Some(i) => Ok(pts[i]),
                        None => Err(ErrorKind::NotFound),
                    },
                    At::Closest(mo) => {
                        if pts.len() == 0 {
                            Err(ErrorKind::NotFound)
                        } else {
                            let i = find_closest(pts, mo.time);
                            Ok(pts[i])
                        }
                    }
                    At::First => {
                        if pts.len() == 0 {
                            Err(ErrorKind::NotFound)
                        } else {
                            Ok(pts[0])
                        }
                    }
                    At::Last => {
                        if pts.len() == 0 {
                            Err(ErrorKind::NotFound)
                        } else {
                            Ok(pts[pts.len() - 1])
                        }
                    }
                }
            }
        }
    }

    /// Resolves a range lookup, exactly as [`range_model`] describes: both
    /// bounds resolve independently as single-point anchors, and every stored
    /// point whose timestamp lies between theirs, inclusive, is returned in
    /// stored (ascending) order. A bound that resolves to nothing yields the
    /// empty series; an empty series is success, never an error.
    pub fn resolve_range(&self, sensor: i64, from: &At, to: &At) -> (r: Result<
        Vec<MeasurementPoint>,
        ErrorKind,
    >)
        ensures
            r is Ok,
            r matches Ok(v) ==> v@ == range_model(self.points_of(sensor), *from, *to),
    {
        let rf = self.resolve_single(sensor, from);
        let rt = self.resolve_single(sensor, to);
        match (rf, rt) {
            (Ok(a), Ok(b)) => {
                let lo = a.timestamp;
                let hi = b.timestamp;
                match self.find_entry(sensor) {
                    None => {
                        let out: Vec<MeasurementPoint> = Vec::new();
                        proof {
                            assert(self.points_of(sensor) =~= Seq::<MeasurementPoint>::empty());
                            assert(out@ =~= range_model(self.points_of(sensor), *from, *to));
                        }
                        Ok(out)
                    }
                    Some(idx) => {
                        let pts = &self.sensors[idx].points;
                        proof {
                            assert(pts@ == self.points_of(sensor));
                        }
                        let mut out: Vec<MeasurementPoint> = Vec::new();
                        let mut k: usize = 0;
                        while k < pts.len()
                            invariant
                                k <= pts@.len(),
                                out@ == range_filter(pts@.take(k as int), lo as int, hi as int),
                            decreases pts@.len() - k,
                        {
                            proof {
                                assert(pts@.take(k as int + 1).drop_last() =~= pts@.take(k as int));
                                assert(pts@.take(k as int + 1)[k as int] == pts@[k as int]);
                            }
                            let p = pts[k];
                            if lo <= p.timestamp && p.timestamp <= hi {
                                out.push(p);
                            }
                            k = k + 1;
                        }
                        proof {
                            assert(pts@.take(pts@.len() as int) =~= pts@);
                        }
                        Ok(out)
                    }
                }
            }
            _ => {
                let out: Vec<MeasurementPoint> = Vec::new();
                proof {
                    assert(out@ =~= range_model(self.points_of(sensor), *from, *to));
                }
                Ok(out)
            }
        }
    }

    /// A copy of the sensor's stored series, earliest first.
    pub fn sensor_points(&self, sensor: i64) -> (r: Vec<MeasurementPoint>)
        ensures
            r@ == self.points_of(sensor),
            self.wf() ==> sorted_by_time(r@),
    {
        proof {
            if self.wf() {
                self.lemma_wf_sorted(sensor);
            }
        }
        let mut out: Vec<MeasurementPoint> = Vec::new();
        match self.find_entry(sensor) {
            None => {
                proof {
                    assert(out@ =~= self.points_of(sensor));
                }
                out
            }
            Some(idx) => {
                let pts = &self.sensors[idx].points;
                let mut k: usize = 0;
                while k < pts.len()
                    invariant
                        k <= pts@.len(),
                        out@ == pts@.take(k as int),
                    decreases pts@.len() - k,
                {
                    out.push(pts[k]);
                    proof {
                        assert(pts@.take(k as int + 1) =~= pts@.take(k as int).push(
                            pts@[k as int],
                        ));
                    }
                    k = k + 1;
                }
                proof {
                    assert(pts@.take(pts@.len() as int) =~= pts@);
                    assert(pts@ == self.points_of(sensor));
                }
                out
            }
        }
    }

    /// Records one point. The sensor's series grows by the new point, placed
    /// after every stored point with a timestamp at or below the new one, so
    /// the series stays sorted and equal timestamps keep insertion order.
    /// Every other sensor's series is untouched.
    pub fn add_measurement(&mut self, sensor: i64, timestamp: i64, value: i64)
        requires
            old(self).wf(),
        ensures
            final(self).wf(),
            final(self).points_of(sensor) == insert_sorted(
                old(self).points_of(sensor),
                MeasurementPoint { timestamp, value },
            ),
            forall|s: i64|
                s != sensor ==> #[trigger] final(self).points_of(s) == old(self).points_of(s),
    {
        let p = MeasurementPoint { timestamp, value };
        let found = self.find_entry(sensor);
        proof {
            lemma_idx_of(self.sensors@, sensor);
        }
        match found {
            None => {
                let ghost olds = self.sensors@;
                let mut points: Vec<MeasurementPoint> = Vec::new();
                points.push(p);
                self.sensors.push(SensorSeries { sensor, points });
                proof {
                    let news = self.sensors@;
                    let last = olds.len() as int;
                    assert(forall|k: int| 0 <= k < last ==> news[k] == #[trigger] olds[k]);
                    // the new entry is the sensor's entry
                    lemma_idx_of(news, sensor);
                    let b = idx_of(news, sensor);
                    assert(news[last].sensor == sensor);
                    assert(b != -1);
                    if b < last {
                        assert(news[b] == olds[b]);
                        assert(false);
                    }
                    assert(b == last);
                    assert(news[b].points@ =~= seq![p]);
                    assert(insert_sorted(old(self).points_of(sensor), p) =~= seq![p]);
                    // every other sensor resolves as before
                    assert forall|s: i64|
                        s != sensor implies #[trigger] self.points_of(s) == old(self).points_of(
                        s,
                    ) by {
                        lemma_idx_of(olds, s);
                        lemma_idx_of(news, s);
                        let a = idx_of(olds, s);
                        let c = idx_of(news, s);
                        if a == -1 {
                            assert forall|k: int|
                                0 <= k < news.len() implies (#[trigger] news[k]).sensor != s by {
                                if k < last {
                                    assert(news[k] == olds[k]);
                                }
                            }
                            assert(c == -1);
                        } else {
                            assert(news[a] == olds[a]);
                            assert(news[a].sensor == s);
                            if c == -1 {
                                assert(false);
                            }
                            if c < a {
                                assert(news[c] == olds[c]);
                                assert(false);
                            }
                            if a < c {
                                assert(false);
                            }
                        }
                    }
                    // well-formed: the new entry's name is fresh, its series sorted
                    assert forall|a: int, b2: int|
                        0 <= a < b2 < news.len() implies (#[trigger] news[a]).sensor != (
                    #[trigger] news[b2]).sensor by {
                        if b2 < last {
                            assert(news[a] == olds[a]);
                            assert(news[b2] == olds[b2]);
                        } else {
                            assert(news[a] == olds[a]);
                        }
                    }
                    assert forall|a: int|
                        0 <= a < news.len() implies sorted_by_time(
                        (#[trigger] news[a]).points@,
                    ) by {
                        if a < last {
                            assert(news[a] == olds[a]);
                        }
                    }
                }
            }
            Some(i) => {
                let ghost olds = self.sensors@;
                let ghost oldpts = self.sensors@[i as int].points@;
                let mut entry = self.sensors.remove(i);
                let mut j: usize = entry.points.len();
                while j > 0 && entry.points[j - 1].timestamp > timestamp
                    invariant
                        j <= entry.points@.len(),
                        forall|k: int|
                            j <= k < entry.points@.len() ==> (#[trigger] entry.points@[k]).timestamp
                                > timestamp,
                    decreases j,
                {
                    j = j - 1;
                }
                proof {
                    assert(sorted_by_time(oldpts));
                    if j > 0 && j < entry.points@.len() {
                        assert(entry.points@[j as int].timestamp > timestamp);
                    }
                    lemma_insert_sorted_at(oldpts, p, j as int);
                    lemma_insert_at_keeps_sorted(oldpts, p, j as int);
                }
                entry.points.insert(j, p);
                self.sensors.insert(i, entry);
                proof {
                    let news = self.sensors@;
                    assert(news =~= olds.update(i as int, news[i as int]));
                    assert(news[i as int].sensor == sensor);
                    assert(news[i as int].points@ == insert_sorted(oldpts, p));
                    assert forall|s: i64| #[trigger] idx_of(news, s) == idx_of(olds, s) by {
                        lemma_idx_of(olds, s);
                        lemma_idx_of(news, s);
                        assert(forall|k: int|
                            0 <= k < news.len() ==> (#[trigger] news[k]).sensor == olds[k].sensor);
                        let a = idx_of(olds, s);
                        let b = idx_of(news, s);
                        if a == -1 {
                            assert forall|k: int|
                                0 <= k < news.len() implies (#[trigger] news[k]).sensor != s by {
                                assert(olds[k].sensor != s);
                            }
                            assert(b == -1);
                        } else {
                            assert(olds[a].sensor == s);
                            assert(news[a].sensor == s);
                            if b == -1 {
                                assert(false);
                            }
                            if b < a {
                                assert(olds[b].sensor != s);
                                assert(false);
                            }
                            if a < b {
                                assert(false);
                            }
                        }
                    }
                    assert(self.points_of(sensor) == insert_sorted(
                        old(self).points_of(sensor),
                        p,
                    ));
                    assert forall|s: i64|
                        s != sensor implies #[trigger] self.points_of(s) == old(self).points_of(
                        s,
                    ) by {
                        lemma_idx_of(olds, s);
                        if idx_of(olds, s) >= 0 {
                            assert(news[idx_of(olds, s)] == olds[idx_of(olds, s)]);
                        }
                    }
                    assert forall|a: int|
                        0 <= a < news.len() implies sorted_by_time(
                        (#[trigger] news[a]).points@,
                    ) by {
                        if a != i as int {
                            assert(news[a] == olds[a]);
                        }
                    }
                }
            }
        }
    }
}

} // verus!
