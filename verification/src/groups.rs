//! The grouping layer: partitions an ordered task collection into named
//! buckets along three independent axes — workday versus holiday, day of
//! week, and the free-text group tag — and aggregates each bucket.
//!
//! Fixed axes (workday/holiday, day of week) always produce every bucket,
//! empty ones included, so a report's structure is stable across projects;
//! the free-text axis lists its labels in first-appearance order over the
//! sorted task list.
use vstd::prelude::*;

use crate::analyzer::{
    aggregate, art_valid, arts_valid, stats_ok, AnalysisResultTask, TasksAnalysisResult,
};
use crate::model::{
    date_days, date_valid, spec_date_days, spec_is_holiday, timestamp_valid, Date, HolidayTable,
    Project, MAX_TASKS,
};

verus! {

/// The subsequence of `s` whose elements satisfy `pred`, in order.
pub open spec fn filter_arts(
    s: Seq<AnalysisResultTask>,
    pred: spec_fn(AnalysisResultTask) -> bool,
) -> Seq<AnalysisResultTask>
    decreases s.len(),
{
    if s.len() == 0 {
        Seq::empty()
    } else {
        let rest = filter_arts(s.drop_last(), pred);
        if pred(s.last()) {
            rest.push(s.last())
        } else {
            rest
        }
    }
}

fn clone_opt_string(s: &Option<String>) -> (r: Option<String>)
    ensures
        r == *s,
{
    match s {
        Option::Some(x) => Option::Some(x.clone()),
        Option::None => Option::None,
    }
}

fn clone_project(p: &Project) -> (r: Project)
    ensures
        r == *p,
{
    Project { id: p.id.clone(), name: p.name.clone() }
}

fn clone_opt_project(p: &Option<Project>) -> (r: Option<Project>)
    ensures
        r == *p,
{
    match p {
        Option::Some(x) => Option::Some(clone_project(x)),
        Option::None => Option::None,
    }
}

/// A field-for-field copy; a bucket may hold a task that the whole-set
/// statistics also hold.
fn clone_task(t: &AnalysisResultTask) -> (r: AnalysisResultTask)
    ensures
        r == *t,
{
    AnalysisResultTask {
        id: t.id.clone(),
        name: t.name.clone(),
        group: clone_opt_string(&t.group),
        project: clone_opt_project(&t.project),
        comment: clone_opt_string(&t.comment),
        estimated_time: t.estimated_time,
        time_gap_ratio: t.time_gap_ratio,
        begin_time: t.begin_time,
        end_time: t.end_time,
        timespan: t.timespan,
    }
}

/// Workday-axis membership: the task's begin date is not in the table.
pub open spec fn workday_pred(h: HolidayTable) -> spec_fn(AnalysisResultTask) -> bool {
    |t: AnalysisResultTask| !spec_is_holiday(&h, t.begin_time.date)
}

pub open spec fn holiday_pred(h: HolidayTable) -> spec_fn(AnalysisResultTask) -> bool {
    |t: AnalysisResultTask| spec_is_holiday(&h, t.begin_time.date)
}

/// Day of week of a date, 0 = Sunday through 6 = Saturday.
pub open spec fn spec_weekday(d: Date) -> int {
    (spec_date_days(d) + 719163) % 7
}

pub fn weekday_index(d: &Date) -> (r: u8)
    requires
        date_valid(*d),
    ensures
        r as int == spec_weekday(*d),
        r < 7,
{
    let days = date_days(d);
    let off: u64 = (days + 719163) as u64;
    (off % 7) as u8
}

pub open spec fn weekday_pred(w: int) -> spec_fn(AnalysisResultTask) -> bool {
    |t: AnalysisResultTask| spec_weekday(t.begin_time.date) == w
}

pub open spec fn spec_weekday_label(w: int) -> Seq<char> {
    if w == 0 {
        "Sun"@
    } else if w == 1 {
        "Mon"@
    } else if w == 2 {
        "Tue"@
    } else if w == 3 {
        "Wed"@
    } else if w == 4 {
        "Thu"@
    } else if w == 5 {
        "Fri"@
    } else {
        "Sat"@
    }
}

fn weekday_label(w: u8) -> (r: String)
    requires
        w < 7,
    ensures
        r@ == spec_weekday_label(w as int),
{
    let l: &str = if w == 0 {
        "Sun"
    } else if w == 1 {
        "Mon"
    } else if w == 2 {
        "Tue"
    } else if w == 3 {
        "Wed"
    } else if w == 4 {
        "Thu"
    } else if w == 5 {
        "Fri"
    } else {
        "Sat"
    };
    l.to_owned()
}

/// The label the free-text axis gives a task: its group tag, or the
/// placeholder for a task without one.
pub open spec fn spec_group_label(t: AnalysisResultTask) -> Seq<char> {
    match t.group {
        Option::Some(g) => g@,
        Option::None => "-"@,
    }
}

pub open spec fn label_pred(l: Seq<char>) -> spec_fn(AnalysisResultTask) -> bool {
    |t: AnalysisResultTask| spec_group_label(t) == l
}

/// The distinct labels of the free-text axis, in first-appearance order.
pub open spec fn spec_labels(s: Seq<AnalysisResultTask>) -> Seq<Seq<char>>
    decreases s.len(),
{
    if s.len() == 0 {
        Seq::empty()
    } else {
        let rest = spec_labels(s.drop_last());
        if rest.contains(spec_group_label(s.last())) {
            rest
        } else {
            rest.push(spec_group_label(s.last()))
        }
    }
}

fn group_label(t: &AnalysisResultTask) -> (r: String)
    ensures
        r@ == spec_group_label(*t),
{
    match &t.group {
        Option::Some(g) => g.clone(),
        Option::None => "-".to_owned(),
    }
}

/// Select the tasks on a workday (`holiday` false) or on a holiday
/// (`holiday` true).
pub fn filter_by_holiday(
    tasks: &Vec<AnalysisResultTask>,
    hol: &HolidayTable,
    holiday: bool,
) -> (r: Vec<AnalysisResultTask>)
    requires
        arts_valid(tasks@),
    ensures
        r@ == if holiday {
            filter_arts(tasks@, holiday_pred(*hol))
        } else {
            filter_arts(tasks@, workday_pred(*hol))
        },
        r@.len() <= tasks@.len(),
        arts_valid(r@),
{
    let ghost s = tasks@;
    let ghost pred = if holiday {
        holiday_pred(*hol)
    } else {
        workday_pred(*hol)
    };
    proof {
        assert(s.subrange(0, 0) =~= Seq::<AnalysisResultTask>::empty());
        assert(s.subrange(0, s.len() as int) =~= s);
    }
    let mut r: Vec<AnalysisResultTask> = Vec::new();
    let mut i: usize = 0;
    let n = tasks.len();
    while i < n
        invariant
            0 <= i <= n,
            n == s.len(),
            s == tasks@,
            arts_valid(s),
            pred == if holiday { holiday_pred(*hol) } else { workday_pred(*hol) },
            r@ == filter_arts(s.subrange(0, i as int), pred),
            r@.len() <= i,
            arts_valid(r@),
        decreases n - i,
    {
        proof {
            assert(s.subrange(0, i as int + 1).drop_last() =~= s.subrange(0, i as int));
            assert(s.subrange(0, i as int + 1).last() == s[i as int]);
            assert(art_valid(s[i as int]));
        }
        let h = hol.is_holiday(&tasks[i].begin_time.date);
        if h == holiday {
            r.push(clone_task(&tasks[i]));
        }
        i = i + 1;
    }
    r
}

/// Select the tasks beginning on day-of-week `w`.
pub fn filter_by_weekday(tasks: &Vec<AnalysisResultTask>, w: u8) -> (r: Vec<AnalysisResultTask>)
    requires
        arts_valid(tasks@),
        w < 7,
    ensures
        r@ == filter_arts(tasks@, weekday_pred(w as int)),
        r@.len() <= tasks@.len(),
        arts_valid(r@),
{
    let ghost s = tasks@;
    proof {
        assert(s.subrange(0, 0) =~= Seq::<AnalysisResultTask>::empty());
        assert(s.subrange(0, s.len() as int) =~= s);
    }
    let mut r: Vec<AnalysisResultTask> = Vec::new();
    let mut i: usize = 0;
    let n = tasks.len();
    while i < n
        invariant
            0 <= i <= n,
            n == s.len(),
            s == tasks@,
            arts_valid(s),
            w < 7,
            r@ == filter_arts(s.subrange(0, i as int), weekday_pred(w as int)),
            r@.len() <= i,
            arts_valid(r@),
        decreases n - i,
    {
        proof {
            assert(s.subrange(0, i as int + 1).drop_last() =~= s.subrange(0, i as int));
            assert(s.subrange(0, i as int + 1).last() == s[i as int]);
            assert(art_valid(s[i as int]));
        }
        let wi = weekday_index(&tasks[i].begin_time.date);
        if wi == w {
            r.push(clone_task(&tasks[i]));
        }
        i = i + 1;
    }
    r
}

/// Select the tasks carrying free-text label `l`.
pub fn filter_by_label(tasks: &Vec<AnalysisResultTask>, l: &String) -> (r: Vec<
    AnalysisResultTask,
>)
    requires
        arts_valid(tasks@),
    ensures
        r@ == filter_arts(tasks@, label_pred(l@)),
        r@.len() <= tasks@.len(),
        arts_valid(r@),
{
    let ghost s = tasks@;
    proof {
        assert(s.subrange(0, 0) =~= Seq::<AnalysisResultTask>::empty());
        assert(s.subrange(0, s.len() as int) =~= s);
    }
    let mut r: Vec<AnalysisResultTask> = Vec::new();
    let mut i: usize = 0;
    let n = tasks.len();
    while i < n
        invariant
            0 <= i <= n,
            n == s.len(),
            s == tasks@,
            arts_valid(s),
            r@ == filter_arts(s.subrange(0, i as int), label_pred(l@)),
            r@.len() <= i,
            arts_valid(r@),
        decreases n - i,
    {
        proof {
            assert(s.subrange(0, i as int + 1).drop_last() =~= s.subrange(0, i as int));
            assert(s.subrange(0, i as int + 1).last() == s[i as int]);
            assert(art_valid(s[i as int]));
        }
        let tl = group_label(&tasks[i]);
        if tl == *l {
            r.push(clone_task(&tasks[i]));
        }
        i = i + 1;
    }
    r
}

/// The workday/holiday axis: both buckets, always, in this order.
pub fn day_buckets(
    tasks: &Vec<AnalysisResultTask>,
    hol: &HolidayTable,
    value: Option<i64>,
) -> (r: Vec<(String, TasksAnalysisResult)>)
    requires
        arts_valid(tasks@),
        tasks@.len() <= MAX_TASKS,
    ensures
        r@.len() == 2,
        r@[0].0@ == "workday"@,
        stats_ok(r@[0].1, filter_arts(tasks@, workday_pred(*hol)), value),
        r@[1].0@ == "holiday"@,
        stats_ok(r@[1].1, filter_arts(tasks@, holiday_pred(*hol)), value),
{
    let work = filter_by_holiday(tasks, hol, false);
    let holi = filter_by_holiday(tasks, hol, true);
    let mut r: Vec<(String, TasksAnalysisResult)> = Vec::new();
    r.push(("workday".to_owned(), aggregate(work, value)));
    r.push(("holiday".to_owned(), aggregate(holi, value)));
    r
}

/// The day-of-week axis: seven buckets, Sunday first, always all present.
pub fn weekday_buckets(tasks: &Vec<AnalysisResultTask>, value: Option<i64>) -> (r: Vec<
    (String, TasksAnalysisResult),
>)
    requires
        arts_valid(tasks@),
        tasks@.len() <= MAX_TASKS,
    ensures
        r@.len() == 7,
        forall|j: int|
            0 <= j < 7 ==> (#[trigger] r@[j]).0@ == spec_weekday_label(j) && stats_ok(
                r@[j].1,
                filter_arts(tasks@, weekday_pred(j)),
                value,
            ),
{
    let mut r: Vec<(String, TasksAnalysisResult)> = Vec::new();
    let mut w: u8 = 0;
    while w < 7
        invariant
            w <= 7,
            arts_valid(tasks@),
            tasks@.len() <= MAX_TASKS,
            r@.len() == w as int,
            forall|j: int|
                0 <= j < w as int ==> (#[trigger] r@[j]).0@ == spec_weekday_label(j) && stats_ok(
                    r@[j].1,
                    filter_arts(tasks@, weekday_pred(j)),
                    value,
                ),
        decreases 7 - w,
    {
        let bucket = filter_by_weekday(tasks, w);
        r.push((weekday_label(w), aggregate(bucket, value)));
        w = w + 1;
    }
    r
}

/// The free-text axis: one bucket per distinct label, in first-appearance
/// order over the (already sorted) task list.
pub fn group_buckets(tasks: &Vec<AnalysisResultTask>, value: Option<i64>) -> (r: Vec<
    (String, TasksAnalysisResult),
>)
    requires
        arts_valid(tasks@),
        tasks@.len() <= MAX_TASKS,
    ensures
        r@.len() == spec_labels(tasks@).len(),
        forall|j: int|
            0 <= j < r@.len() ==> (#[trigger] r@[j]).0@ == spec_labels(tasks@)[j] && stats_ok(
                r@[j].1,
                filter_arts(tasks@, label_pred(spec_labels(tasks@)[j])),
                value,
            ),
{
    let ghost s = tasks@;
    proof {
        assert(s.subrange(0, 0) =~= Seq::<AnalysisResultTask>::empty());
        assert(s.subrange(0, s.len() as int) =~= s);
    }
    let mut labels: Vec<String> = Vec::new();
    let mut i: usize = 0;
    let n = tasks.len();
    while i < n
        invariant
            0 <= i <= n,
            n == s.len(),
            s == tasks@,
            labels@.len() == spec_labels(s.subrange(0, i as int)).len(),
            forall|j: int|
                0 <= j < labels@.len() ==> (#[trigger] labels@[j])@ == spec_labels(
                    s.subrange(0, i as int),
                )[j],
        decreases n - i,
    {
        let ghost prefix = s.subrange(0, i as int);
        proof {
            assert(s.subrange(0, i as int + 1).drop_last() =~= prefix);
            assert(s.subrange(0, i as int + 1).last() == s[i as int]);
        }
        let l = group_label(&tasks[i]);
        let mut seen = false;
        let mut j: usize = 0;
        while j < labels.len()
            invariant
                0 <= j <= labels@.len(),
                seen == exists|k: int| 0 <= k < j as int && (#[trigger] labels@[k])@ == l@,
            decreases labels@.len() - j,
        {
            if labels[j] == l {
                seen = true;
                proof {
                    assert(labels@[j as int]@ == l@);
                }
            }
            j = j + 1;
        }
        proof {
            if seen {
                let k = choose|k: int| 0 <= k < labels@.len() && (#[trigger] labels@[k])@ == l@;
                assert(spec_labels(prefix)[k] == l@);
                assert(spec_labels(prefix).contains(spec_group_label(s[i as int])));
            } else {
                if spec_labels(prefix).contains(spec_group_label(s[i as int])) {
                    let k = choose|k: int|
                        0 <= k < spec_labels(prefix).len()
                            && spec_labels(prefix)[k] == spec_group_label(s[i as int]);
                    assert(labels@[k]@ == l@);
                }
            }
        }
        if !seen {
            labels.push(l);
        }
        i = i + 1;
    }
    let mut r: Vec<(String, TasksAnalysisResult)> = Vec::new();
    let mut j: usize = 0;
    let m = labels.len();
    while j < m
        invariant
            0 <= j <= m,
            m == labels@.len(),
            arts_valid(tasks@),
            tasks@.len() <= MAX_TASKS,
            labels@.len() == spec_labels(tasks@).len(),
            forall|k: int|
                0 <= k < labels@.len() ==> (#[trigger] labels@[k])@ == spec_labels(tasks@)[k],
            r@.len() == j as int,
            forall|k: int|
                0 <= k < j as int ==> (#[trigger] r@[k]).0@ == spec_labels(tasks@)[k] && stats_ok(
                    r@[k].1,
                    filter_arts(tasks@, label_pred(spec_labels(tasks@)[k])),
                    value,
                ),
        decreases m - j,
    {
        let l = labels[j].clone();
        let bucket = filter_by_label(tasks, &l);
        r.push((l, aggregate(bucket, value)));
        j = j + 1;
    }
    r
}

} // verus!
