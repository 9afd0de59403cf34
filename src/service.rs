use vstd::prelude::*;
use crate::date::{CalendarDate, before, within, precedes, lemma_before_trichotomy};
use crate::model::WeatherData;

verus! {

/// The records of `rows` ascend strictly by day, so no day occurs twice.
pub open spec fn sorted_strict(rows: Seq<WeatherData>) -> bool {
    forall|i: int, j: int| 0 <= i < j < rows.len() ==> before(rows[i].time, rows[j].time)
}

pub open spec fn holds_day(rows: Seq<WeatherData>, t: CalendarDate) -> bool {
    exists|i: int| 0 <= i < rows.len() && (#[trigger] rows[i]).time == t
}

/// The record of each day that `rows` holds.
pub open spec fn records(rows: Seq<WeatherData>) -> Map<CalendarDate, WeatherData> {
    Map::new(
        |t: CalendarDate| holds_day(rows, t),
        |t: CalendarDate| rows[choose|i: int| 0 <= i < rows.len() && (#[trigger] rows[i]).time == t],
    )
}

/// `r` lists, ascending by day, exactly the records of `m` whose day lies in `[lo, hi]`.
pub open spec fn lists_window(
    m: Map<CalendarDate, WeatherData>,
    lo: CalendarDate,
    hi: CalendarDate,
    r: Seq<WeatherData>,
) -> bool {
    &&& sorted_strict(r)
    &&& forall|i: int|
        0 <= i < r.len() ==> within((#[trigger] r[i]).time, lo, hi) && m.contains_key(r[i].time)
            && m[r[i].time] == r[i]
    &&& forall|t: CalendarDate|
        within(t, lo, hi) && #[trigger] m.contains_key(t) ==> exists|i: int|
            0 <= i < r.len() && (#[trigger] r[i]).time == t
}

/// The store after upserting each of `ms` in turn, starting from `v`.
pub open spec fn after_upserts(
    v: Map<CalendarDate, WeatherData>,
    ms: Seq<WeatherData>,
) -> Map<CalendarDate, WeatherData>
    decreases ms.len(),
{
    if ms.len() == 0 {
        v
    } else {
        after_upserts(v, ms.drop_last()).insert(ms.last().time, ms.last())
    }
}

/// A window `[t, t]` lists the record of `t` alone, or nothing where `t` has none.
pub proof fn lemma_single_day_window(
    v: Map<CalendarDate, WeatherData>,
    t: CalendarDate,
    r: Seq<WeatherData>,
)
    requires
        lists_window(v, t, t, r),
    ensures
        v.contains_key(t) ==> r == seq![v[t]],
        !v.contains_key(t) ==> r.len() == 0,
{
    assert forall|i: int| 0 <= i < r.len() implies (#[trigger] r[i]).time == t by {
        lemma_before_trichotomy(r[i].time, t);
    }
    if r.len() > 1 {
        assert(before(r[0].time, r[1].time));
    }
    if v.contains_key(t) {
        let i = choose|i: int| 0 <= i < r.len() && (#[trigger] r[i]).time == t;
        assert(r =~= seq![v[t]]);
    } else if r.len() > 0 {
        assert(r[0].time == t);
    }
}

/// Stored, then read back: a single-day window on the day of `m` lists `m` alone.
pub proof fn lemma_round_trip(v: Map<CalendarDate, WeatherData>, m: WeatherData, r: Seq<WeatherData>)
    requires
        lists_window(v.insert(m.time, m), m.time, m.time, r),
    ensures
        r == seq![m],
{
    lemma_single_day_window(v.insert(m.time, m), m.time, r);
}

/// Two upserts on one day leave one record for that day, holding the second one.
pub proof fn lemma_overwrite(
    v: Map<CalendarDate, WeatherData>,
    first: WeatherData,
    second: WeatherData,
    r: Seq<WeatherData>,
)
    requires
        first.time == second.time,
        lists_window(
            v.insert(first.time, first).insert(second.time, second),
            second.time,
            second.time,
            r,
        ),
    ensures
        v.insert(first.time, first).insert(second.time, second) == v.insert(second.time, second),
        r == seq![second],
{
    assert(v.insert(first.time, first).insert(second.time, second) =~= v.insert(
        second.time,
        second,
    ));
    lemma_round_trip(v, second, r);
}

/// A window in which the store holds no day lists nothing, without failing.
pub proof fn lemma_empty_window(
    v: Map<CalendarDate, WeatherData>,
    lo: CalendarDate,
    hi: CalendarDate,
    r: Seq<WeatherData>,
)
    requires
        lists_window(v, lo, hi, r),
        forall|t: CalendarDate| within(t, lo, hi) ==> !v.contains_key(t),
    ensures
        r.len() == 0,
{
    if r.len() > 0 {
        assert(within(r[0].time, lo, hi));
    }
}

/// After a run of upserts, the record of each day is the last measurement of that
/// day in the run: upserts on distinct days all stay, and on one day the last wins.
pub proof fn lemma_last_write_wins(v: Map<CalendarDate, WeatherData>, ms: Seq<WeatherData>, i: int)
    requires
        0 <= i < ms.len(),
        forall|j: int| i < j < ms.len() ==> (#[trigger] ms[j]).time != ms[i].time,
    ensures
        after_upserts(v, ms).contains_key(ms[i].time),
        after_upserts(v, ms)[ms[i].time] == ms[i],
    decreases ms.len(),
{
    if i < ms.len() - 1 {
        let rest = ms.drop_last();
        assert forall|j: int| i < j < rest.len() implies (#[trigger] rest[j]).time != rest[i].time by {
            assert(rest[j] == ms[j]);
        }
        lemma_last_write_wins(v, rest, i);
        assert(ms.last() == ms[ms.len() - 1]);
    }
}

/// One more upsert extends the run: the store after `ms` then `m` is the store after
/// `ms` with `m` filed under its day.
pub proof fn lemma_upsert_step(v: Map<CalendarDate, WeatherData>, ms: Seq<WeatherData>, m: WeatherData)
    ensures
        after_upserts(v, ms.push(m)) == after_upserts(v, ms).insert(m.time, m),
{
    assert(ms.push(m).drop_last() =~= ms);
}

/// Upserts on distinct days commute: the order of insertion leaves no trace.
pub proof fn lemma_upserts_commute(v: Map<CalendarDate, WeatherData>, a: WeatherData, b: WeatherData)
    requires
        a.time != b.time,
    ensures
        v.insert(a.time, a).insert(b.time, b) == v.insert(b.time, b).insert(a.time, a),
{
    assert(v.insert(a.time, a).insert(b.time, b) =~= v.insert(b.time, b).insert(a.time, a));
}

proof fn lemma_window_prefix(
    v: Map<CalendarDate, WeatherData>,
    lo: CalendarDate,
    hi: CalendarDate,
    r1: Seq<WeatherData>,
    r2: Seq<WeatherData>,
    i: int,
)
    requires
        lists_window(v, lo, hi, r1),
        lists_window(v, lo, hi, r2),
        0 <= i <= r1.len(),
        i <= r2.len(),
    ensures
        forall|j: int| 0 <= j < i ==> r1[j] == r2[j],
    decreases i,
{
    if i > 0 {
        lemma_window_prefix(v, lo, hi, r1, r2, i - 1);
        let j = i - 1;
        let t1 = r1[j].time;
        let t2 = r2[j].time;
        lemma_before_trichotomy(t1, t2);
        if before(t1, t2) {
            assert(within(r1[j].time, lo, hi) && v.contains_key(t1));
            let k = choose|k: int| 0 <= k < r2.len() && (#[trigger] r2[k]).time == t1;
            if k < j {
                assert(r2[k] == r1[k]);
                assert(before(r1[k].time, r1[j].time));
            } else if k > j {
                assert(before(r2[j].time, r2[k].time));
            }
        } else if before(t2, t1) {
            assert(within(r2[j].time, lo, hi) && v.contains_key(t2));
            let k = choose|k: int| 0 <= k < r1.len() && (#[trigger] r1[k]).time == t2;
            if k < j {
                assert(r2[k] == r1[k]);
                assert(before(r2[k].time, r2[j].time));
            } else if k > j {
                assert(before(r1[j].time, r1[k].time));
            }
        }
        assert(r1[j] == v[t1]);
        assert(r2[j] == v[t2]);
    }
}

/// A window has one listing: the result of a range read depends on the stored
/// records alone, never on the order in which they were stored.
pub proof fn lemma_window_unique(
    v: Map<CalendarDate, WeatherData>,
    lo: CalendarDate,
    hi: CalendarDate,
    r1: Seq<WeatherData>,
    r2: Seq<WeatherData>,
)
    requires
        lists_window(v, lo, hi, r1),
        lists_window(v, lo, hi, r2),
    ensures
        r1 == r2,
{
    if r1.len() > r2.len() {
        lemma_window_prefix(v, lo, hi, r1, r2, r2.len() as int);
        let n = r2.len() as int;
        let t = r1[n].time;
        assert(within(r1[n].time, lo, hi) && v.contains_key(t));
        let k = choose|k: int| 0 <= k < r2.len() && (#[trigger] r2[k]).time == t;
        assert(r1[k] == r2[k]);
        assert(before(r1[k].time, r1[n].time));
    } else if r2.len() > r1.len() {
        lemma_window_prefix(v, lo, hi, r1, r2, r1.len() as int);
        let n = r1.len() as int;
        let t = r2[n].time;
        assert(within(r2[n].time, lo, hi) && v.contains_key(t));
        let k = choose|k: int| 0 <= k < r1.len() && (#[trigger] r1[k]).time == t;
        assert(r1[k] == r2[k]);
        assert(before(r2[k].time, r2[n].time));
    } else {
        lemma_window_prefix(v, lo, hi, r1, r2, r1.len() as int);
        assert(r1 =~= r2);
    }
}

/// Store failures. The in-memory store never fails; a store kept by a database
/// reports its failures with this type.
#[derive(Clone, Copy, Debug, PartialEq, Eq, Structural)]
pub enum WeatherServiceError {
    DatabaseError,
}

/// A key-ordered store of measurements with at most one record per day.
pub struct WeatherService {
    rows: Vec<WeatherData>,
}

impl View for WeatherService {
    type V = Map<CalendarDate, WeatherData>;

    closed spec fn view(&self) -> Map<CalendarDate, WeatherData> {
        records(self.rows@)
    }
}

proof fn lemma_records_at(rows: Seq<WeatherData>, i: int)
    requires
        sorted_strict(rows),
        0 <= i < rows.len(),
    ensures
        records(rows).contains_key(rows[i].time),
        records(rows)[rows[i].time] == rows[i],
{
    let t = rows[i].time;
    assert(holds_day(rows, t));
    let k = choose|k: int| 0 <= k < rows.len() && (#[trigger] rows[k]).time == t;
    if k < i {
        assert(before(rows[k].time, rows[i].time));
    } else if k > i {
        assert(before(rows[i].time, rows[k].time));
    }
}

impl WeatherService {
    pub closed spec fn wf(&self) -> bool {
        sorted_strict(self.rows@)
    }

    /// An empty store.
    pub fn new() -> (r: WeatherService)
        ensures
            r.wf(),
            r@ == Map::<CalendarDate, WeatherData>::empty(),
    {
        let r = WeatherService { rows: Vec::new() };
        assert(r@ =~= Map::<CalendarDate, WeatherData>::empty());
        r
    }

    /// Inserts the measurement, or replaces the readings of the record of the same day.
    pub fn create_measurement(&mut self, measurement: WeatherData)
        requires
            old(self).wf(),
        ensures
            final(self).wf(),
            final(self)@ == old(self)@.insert(measurement.time, measurement),
    {
        let ghost old_rows = self.rows@;
        let n = self.rows.len();
        let mut i: usize = 0;
        while i < n && precedes(&self.rows[i].time, &measurement.time)
            invariant
                n == self.rows.len(),
                i <= n,
                self.rows@ == old_rows,
                forall|j: int| 0 <= j < i ==> before(old_rows[j].time, measurement.time),
            decreases n - i,
        {
            i = i + 1;
        }
        let t = measurement.time;
        if i < n && self.rows[i].time == measurement.time {
            self.rows.set(i, measurement);
            proof {
                let rows = self.rows@;
                assert(sorted_strict(rows)) by {
                    assert forall|a: int, b: int| 0 <= a < b < rows.len() implies before(
                        rows[a].time,
                        rows[b].time,
                    ) by {
                        assert(before(old_rows[a].time, old_rows[b].time));
                    }
                }
                let want = records(old_rows).insert(t, measurement);
                assert forall|u: CalendarDate| #[trigger]
                    records(rows).contains_key(u) <==> want.contains_key(u) by {
                    if records(rows).contains_key(u) {
                        let k = choose|k: int| 0 <= k < rows.len() && (#[trigger] rows[k]).time == u;
                        if k != i {
                            assert(old_rows[k].time == u);
                        }
                    }
                    if want.contains_key(u) && u != t {
                        let k = choose|k: int|
                            0 <= k < old_rows.len() && (#[trigger] old_rows[k]).time == u;
                        assert(rows[k].time == u);
                    }
                    if u == t {
                        assert(rows[i as int].time == u);
                    }
                }
                assert forall|u: CalendarDate| #[trigger]
                    records(rows).contains_key(u) implies records(rows)[u] == want[u] by {
                    let k = choose|k: int| 0 <= k < rows.len() && (#[trigger] rows[k]).time == u;
                    lemma_records_at(rows, k);
                    if k != i {
                        assert(old_rows[k] == rows[k]);
                        lemma_records_at(old_rows, k);
                    }
                }
                assert(records(rows) =~= want);
            }
        } else {
            self.rows.insert(i, measurement);
            proof {
                let rows = self.rows@;
                assert(i < n ==> !before(old_rows[i as int].time, t));
                assert forall|a: int, b: int| 0 <= a < b < rows.len() implies before(
                    rows[a].time,
                    rows[b].time,
                ) by {
                    if b < i {
                    } else if b == i {
                    } else if a < i {
                        lemma_before_trichotomy(old_rows[i as int].time, t);
                        if b - 1 > i {
                            assert(before(old_rows[i as int].time, old_rows[b - 1].time));
                        }
                    } else if a == i {
                        lemma_before_trichotomy(old_rows[i as int].time, t);
                        if b - 1 > i {
                            assert(before(old_rows[i as int].time, old_rows[b - 1].time));
                        }
                    } else {
                        assert(before(old_rows[a - 1].time, old_rows[b - 1].time));
                    }
                }
                assert(sorted_strict(rows));
                let want = records(old_rows).insert(t, measurement);
                assert forall|u: CalendarDate| #[trigger]
                    records(rows).contains_key(u) <==> want.contains_key(u) by {
                    if records(rows).contains_key(u) {
                        let k = choose|k: int| 0 <= k < rows.len() && (#[trigger] rows[k]).time == u;
                        if k < i {
                            assert(old_rows[k].time == u);
                        } else if k > i {
                            assert(old_rows[k - 1].time == u);
                        }
                    }
                    if want.contains_key(u) && u != t {
                        let k = choose|k: int|
                            0 <= k < old_rows.len() && (#[trigger] old_rows[k]).time == u;
                        if k < i {
                            assert(rows[k].time == u);
                        } else {
                            assert(rows[k + 1].time == u);
                        }
                    }
                    if u == t {
                        assert(rows[i as int].time == u);
                    }
                }
                assert forall|u: CalendarDate| #[trigger]
                    records(rows).contains_key(u) implies records(rows)[u] == want[u] by {
                    let k = choose|k: int| 0 <= k < rows.len() && (#[trigger] rows[k]).time == u;
                    lemma_records_at(rows, k);
                    if k < i {
                        assert(old_rows[k] == rows[k]);
                        lemma_records_at(old_rows, k);
                        lemma_before_trichotomy(u, t);
                    } else if k > i {
                        assert(old_rows[k - 1] == rows[k]);
                        lemma_records_at(old_rows, k - 1);
                        lemma_before_trichotomy(u, t);
                    }
                }
                assert(records(rows) =~= want);
            }
        }
    }

    /// All records whose day lies in `[start, end]`, both ends included, ascending by day.
    /// A window that holds no record gives an empty list.
    pub fn fetch_range(&self, start: CalendarDate, end: CalendarDate) -> (r: Vec<WeatherData>)
        requires
            self.wf(),
        ensures
            lists_window(self@, start, end, r@),
    {
        let n = self.rows.len();
        let mut out: Vec<WeatherData> = Vec::new();
        let ghost mut idx: Seq<int> = Seq::empty();
        let mut i: usize = 0;
        while i < n
            invariant
                n == self.rows.len(),
                i <= n,
                sorted_strict(self.rows@),
                idx.len() == out@.len(),
                forall|a: int|
                    0 <= a < idx.len() ==> 0 <= #[trigger] idx[a] < i && self.rows@[idx[a]]
                        == out@[a] && within(out@[a].time, start, end),
                forall|a: int, b: int| 0 <= a < b < idx.len() ==> idx[a] < idx[b],
                forall|j: int|
                    0 <= j < i && within(#[trigger] self.rows@[j].time, start, end) ==> exists|
                        a: int,
                    | 0 <= a < idx.len() && idx[a] == j,
            decreases n - i,
        {
            let m = self.rows[i];
            let ghost idx0 = idx;
            if !precedes(&m.time, &start) && !precedes(&end, &m.time) {
                out.push(m);
                proof {
                    let a = idx.len() as int;
                    idx = idx.push(i as int);
                    assert(idx[a] == i);
                }
            }
            proof {
                assert forall|j: int|
                    0 <= j < i + 1 && within(#[trigger] self.rows@[j].time, start, end) implies exists|
                    a: int,
                | 0 <= a < idx.len() && idx[a] == j by {
                    if j < i {
                        let a = choose|a: int| 0 <= a < idx0.len() && idx0[a] == j;
                        assert(idx[a] == j);
                    } else {
                        assert(idx[idx.len() - 1] == j);
                    }
                }
            }
            i = i + 1;
        }
        proof {
            let rows = self.rows@;
            let r = out@;
            assert forall|a: int, b: int| 0 <= a < b < r.len() implies before(
                r[a].time,
                r[b].time,
            ) by {
                assert(idx[a] < idx[b]);
                assert(rows[idx[a]] == r[a]);
                assert(rows[idx[b]] == r[b]);
            }
            assert forall|a: int| 0 <= a < r.len() implies within((#[trigger] r[a]).time, start, end)
                && records(rows).contains_key(r[a].time) && records(rows)[r[a].time] == r[a] by {
                assert(rows[idx[a]] == r[a]);
                lemma_records_at(rows, idx[a]);
            }
            assert forall|t: CalendarDate|
                within(t, start, end) && #[trigger] records(rows).contains_key(t) implies exists|
                a: int,
            | 0 <= a < r.len() && (#[trigger] r[a]).time == t by {
                let k = choose|k: int| 0 <= k < rows.len() && (#[trigger] rows[k]).time == t;
                assert(within(rows[k].time, start, end));
                let a = choose|a: int| 0 <= a < idx.len() && idx[a] == k;
                assert(r[a] == rows[k]);
            }
        }
        out
    }
}

} // verus!
