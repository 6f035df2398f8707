//! The analysis engine: selects one project's analyzable tasks, orders them
//! by start time, and derives the statistic bundle.
use vstd::prelude::*;

use crate::model::{
    task_valid, tasks_valid, timestamp_valid, spec_ts_minutes, ts_minutes, Project, Task,
    Timestamp, MAX_ABS_TIMESPAN, MAX_ABS_TS_MINUTES, MAX_TASKS,
};
use crate::numbers::{div_trunc, spec_div_trunc, Ratio, RootRatio};
use crate::sorting::{
    i64_le, lemma_stable_sort_ensures, sort_i64, stable_insert, stable_sort, usable_order,
};

verus! {

/// A task known to be analyzable: both timestamps present, with its computed
/// timespan in minutes and, when an estimate exists, the exact ratio of
/// actual to estimated time.
#[derive(Debug)]
pub struct AnalysisResultTask {
    pub id: String,
    pub name: String,
    pub group: Option<String>,
    pub project: Option<Project>,
    pub comment: Option<String>,
    pub estimated_time: Option<i64>,
    pub time_gap_ratio: Option<Ratio>,
    pub begin_time: Timestamp,
    pub end_time: Timestamp,
    pub timespan: i64,
}

/// Internal consistency of an analyzed task: timestamps are valid, the
/// timespan is exactly the minute difference, and the gap ratio is present
/// exactly when an estimate is, as that estimate's exact quotient.
pub open spec fn art_valid(t: AnalysisResultTask) -> bool {
    &&& timestamp_valid(t.begin_time)
    &&& timestamp_valid(t.end_time)
    &&& t.timespan == spec_ts_minutes(t.end_time) - spec_ts_minutes(t.begin_time)
    &&& -MAX_ABS_TIMESPAN <= t.timespan <= MAX_ABS_TIMESPAN
    &&& (t.estimated_time is Some ==> 0 < t.estimated_time->0 <= MAX_ABS_TIMESPAN)
    &&& t.time_gap_ratio == match t.estimated_time {
        Option::None => Option::<Ratio>::None,
        Option::Some(e) => Option::Some(Ratio { num: t.timespan, den: e }),
    }
}

pub open spec fn arts_valid(s: Seq<AnalysisResultTask>) -> bool {
    forall|i: int| 0 <= i < s.len() ==> art_valid(#[trigger] s[i])
}

/// Does the task belong to the requested project?
pub open spec fn spec_matches(t: Task, pid: Seq<char>) -> bool {
    t.project is Some && t.project->0.id@ == pid
}

/// Is the task analyzable (both timestamps present)?
pub open spec fn spec_analyzable(t: Task) -> bool {
    t.begin_time is Some && t.end_time is Some
}

pub open spec fn spec_keep(t: Task, pid: Seq<char>) -> bool {
    spec_matches(t, pid) && spec_analyzable(t)
}

/// The analyzed form of an analyzable task.
pub open spec fn spec_to_analyzed(t: Task) -> AnalysisResultTask {
    let ts = spec_ts_minutes(t.end_time->0) - spec_ts_minutes(t.begin_time->0);
    AnalysisResultTask {
        id: t.id,
        name: t.name,
        group: t.group,
        project: t.project,
        comment: t.comment,
        estimated_time: t.estimated_time,
        time_gap_ratio: match t.estimated_time {
            Option::None => Option::None,
            Option::Some(e) => Option::Some(Ratio { num: ts as i64, den: e }),
        },
        begin_time: t.begin_time->0,
        end_time: t.end_time->0,
        timespan: ts as i64,
    }
}

/// The kept-and-converted subsequence of a task list, in input order.
pub open spec fn spec_filter_map(s: Seq<Task>, pid: Seq<char>) -> Seq<AnalysisResultTask>
    decreases s.len(),
{
    if s.len() == 0 {
        Seq::empty()
    } else {
        let rest = spec_filter_map(s.drop_last(), pid);
        if spec_keep(s.last(), pid) {
            rest.push(spec_to_analyzed(s.last()))
        } else {
            rest
        }
    }
}

/// Tasks are ordered by start time, ascending.
pub open spec fn task_le() -> spec_fn(AnalysisResultTask, AnalysisResultTask) -> bool {
    |a: AnalysisResultTask, b: AnalysisResultTask|
        spec_ts_minutes(a.begin_time) <= spec_ts_minutes(b.begin_time)
}

/// The whole selection step: filter to one project's analyzable tasks,
/// convert, and stable-sort by start time.
pub open spec fn spec_selected(s: Seq<Task>, pid: Seq<char>) -> Seq<AnalysisResultTask> {
    stable_sort(spec_filter_map(s, pid), task_le())
}

/// The name carried by the first task (in input order) that belongs to the
/// project, whether or not that task is analyzable.
pub open spec fn spec_first_match_name(s: Seq<Task>, pid: Seq<char>) -> Option<Seq<char>>
    decreases s.len(),
{
    if s.len() == 0 {
        Option::None
    } else if spec_matches(s.first(), pid) {
        Option::Some(s.first().project->0.name@)
    } else {
        spec_first_match_name(s.drop_first(), pid)
    }
}

/// The name lookup fails exactly when no task at all references the project.
pub proof fn lemma_first_match_name_none(s: Seq<Task>, pid: Seq<char>)
    ensures
        spec_first_match_name(s, pid) is None <==> forall|i: int|
            0 <= i < s.len() ==> !spec_matches(#[trigger] s[i], pid),
    decreases s.len(),
{
    if s.len() > 0 {
        lemma_first_match_name_none(s.drop_first(), pid);
        if spec_first_match_name(s, pid) is None {
            assert forall|i: int| 0 <= i < s.len() implies !spec_matches(#[trigger] s[i], pid) by {
                if i > 0 {
                    assert(s.drop_first()[i - 1] == s[i]);
                }
            }
        } else {
            if !spec_matches(s.first(), pid) {
                let i = choose|i: int|
                    0 <= i < s.drop_first().len() && spec_matches(s.drop_first()[i], pid);
                assert(s[i + 1] == s.drop_first()[i]);
            }
        }
    }
}

/// Convert an analyzable, valid task.
fn to_analyzed(t: Task) -> (r: AnalysisResultTask)
    requires
        task_valid(t),
        spec_analyzable(t),
    ensures
        r == spec_to_analyzed(t),
        art_valid(r),
{
    let begin = match &t.begin_time {
        Option::Some(b) => *b,
        Option::None => unreached(),
    };
    let end = match &t.end_time {
        Option::Some(e) => *e,
        Option::None => unreached(),
    };
    let ts = ts_minutes(&end) - ts_minutes(&begin);
    let gap = match &t.estimated_time {
        Option::None => Option::None,
        Option::Some(e) => Option::Some(Ratio { num: ts, den: *e }),
    };
    AnalysisResultTask {
        id: t.id,
        name: t.name,
        group: t.group,
        project: t.project,
        comment: t.comment,
        estimated_time: t.estimated_time,
        time_gap_ratio: gap,
        begin_time: begin,
        end_time: end,
        timespan: ts,
    }
}

/// Keep the requested project's analyzable tasks, in input order.
pub fn filter_tasks(tasks: Vec<Task>, project_id: &String) -> (r: Vec<AnalysisResultTask>)
    requires
        tasks_valid(tasks@),
    ensures
        r@ == spec_filter_map(tasks@, project_id@),
        arts_valid(r@),
        r@.len() <= tasks@.len(),
{
    let mut tasks = tasks;
    let ghost orig = tasks@;
    let mut r: Vec<AnalysisResultTask> = Vec::new();
    let ghost k: int = 0;
    proof {
        assert(orig.subrange(0, 0) =~= Seq::<Task>::empty());
        assert(orig.subrange(0, orig.len() as int) =~= orig);
    }
    while tasks.len() > 0
        invariant
            0 <= k <= orig.len(),
            tasks@ == orig.subrange(k, orig.len() as int),
            tasks_valid(orig),
            r@ == spec_filter_map(orig.subrange(0, k), project_id@),
            arts_valid(r@),
            r@.len() <= k,
        decreases tasks@.len(),
    {
        let t = tasks.remove(0);
        proof {
            assert(t == orig[k]);
            assert(orig.subrange(k, orig.len() as int).remove(0)
                =~= orig.subrange(k + 1, orig.len() as int));
            assert(orig.subrange(0, k + 1).drop_last() =~= orig.subrange(0, k));
            assert(orig.subrange(0, k + 1).last() == orig[k]);
        }
        let keep = match &t.project {
            Option::Some(p) => p.id == *project_id,
            Option::None => false,
        };
        if keep && t.begin_time.is_some() && t.end_time.is_some() {
            r.push(to_analyzed(t));
        }
        proof {
            k = k + 1;
        }
    }
    r
}

/// Stable sort by start time.
pub fn sort_tasks(v: Vec<AnalysisResultTask>) -> (r: Vec<AnalysisResultTask>)
    requires
        arts_valid(v@),
    ensures
        r@ == stable_sort(v@, task_le()),
        arts_valid(r@),
        r@.len() == v@.len(),
{
    let mut v = v;
    let ghost orig = v@;
    let mut r: Vec<AnalysisResultTask> = Vec::new();
    let ghost k: int = 0;
    proof {
        assert(orig.subrange(0, 0) =~= Seq::<AnalysisResultTask>::empty());
        assert(orig.subrange(0, orig.len() as int) =~= orig);
    }
    while v.len() > 0
        invariant
            0 <= k <= orig.len(),
            v@ == orig.subrange(k, orig.len() as int),
            arts_valid(orig),
            r@ == stable_sort(orig.subrange(0, k), task_le()),
            arts_valid(r@),
            r@.len() == k,
        decreases v@.len(),
    {
        let x = v.remove(0);
        proof {
            assert(x == orig[k]);
            assert(orig.subrange(k, orig.len() as int).remove(0)
                =~= orig.subrange(k + 1, orig.len() as int));
        }
        let xb = ts_minutes(&x.begin_time);
        let mut pos: usize = r.len();
        proof {
            assert(r@.subrange(0, pos as int) =~= r@);
            assert(r@.subrange(pos as int, r@.len() as int)
                =~= Seq::<AnalysisResultTask>::empty());
            assert(stable_insert(r@.subrange(0, pos as int), x, task_le())
                + r@.subrange(pos as int, r@.len() as int)
                =~= stable_insert(r@, x, task_le()));
        }
        loop
            invariant
                pos <= r@.len(),
                arts_valid(r@),
                xb == spec_ts_minutes(x.begin_time),
                stable_insert(r@.subrange(0, pos as int), x, task_le())
                    + r@.subrange(pos as int, r@.len() as int)
                    == stable_insert(r@, x, task_le()),
            ensures
                pos <= r@.len(),
                stable_insert(r@.subrange(0, pos as int), x, task_le())
                    + r@.subrange(pos as int, r@.len() as int)
                    == stable_insert(r@, x, task_le()),
                pos == 0 || spec_ts_minutes(r@[pos as int - 1].begin_time)
                    <= spec_ts_minutes(x.begin_time),
            decreases pos,
        {
            if pos == 0 {
                break;
            }
            let prev = ts_minutes(&r[pos - 1].begin_time);
            if prev <= xb {
                break;
            }
            proof {
                let pre = r@.subrange(0, pos as int);
                let pre1 = r@.subrange(0, pos as int - 1);
                assert(pre.last() == r@[pos as int - 1]);
                assert(pre.drop_last() =~= pre1);
                assert(stable_insert(pre, x, task_le())
                    == stable_insert(pre1, x, task_le()).push(r@[pos as int - 1]));
                assert(stable_insert(pre1, x, task_le()).push(r@[pos as int - 1])
                    + r@.subrange(pos as int, r@.len() as int)
                    =~= stable_insert(pre1, x, task_le())
                    + r@.subrange(pos as int - 1, r@.len() as int));
            }
            pos = pos - 1;
        }
        proof {
            let pre = r@.subrange(0, pos as int);
            assert(stable_insert(pre, x, task_le()) == pre.push(x));
            assert(pre.push(x) + r@.subrange(pos as int, r@.len() as int)
                =~= r@.insert(pos as int, x));
            assert(orig.subrange(0, k + 1).drop_last() =~= orig.subrange(0, k));
            assert(orig.subrange(0, k + 1).last() == orig[k]);
        }
        r.insert(pos, x);
        proof {
            k = k + 1;
        }
    }
    r
}

/// The project-name lookup of the selection step: the name on the first task
/// in input order that belongs to the project; `None` when no task does.
pub fn project_name(tasks: &Vec<Task>, project_id: &String) -> (r: Option<String>)
    ensures
        match r {
            Option::Some(name) => spec_first_match_name(tasks@, project_id@)
                == Option::Some(name@),
            Option::None => spec_first_match_name(tasks@, project_id@) is None,
        },
{
    let n = tasks.len();
    let mut i: usize = 0;
    proof {
        assert(tasks@.subrange(0, tasks@.len() as int) =~= tasks@);
    }
    while i < n
        invariant
            0 <= i <= n,
            n == tasks@.len(),
            spec_first_match_name(tasks@, project_id@)
                == spec_first_match_name(tasks@.subrange(i as int, n as int), project_id@),
        decreases n - i,
    {
        let ghost suffix = tasks@.subrange(i as int, n as int);
        proof {
            assert(suffix.first() == tasks@[i as int]);
            assert(suffix.drop_first() =~= tasks@.subrange(i as int + 1, n as int));
        }
        match &tasks[i].project {
            Option::Some(p) => {
                if p.id == *project_id {
                    return Option::Some(p.name.clone());
                }
            },
            Option::None => {},
        }
        i = i + 1;
    }
    Option::None
}

/// Sum of the estimates present, in minutes; a task without one adds 0.
pub open spec fn sum_est(s: Seq<AnalysisResultTask>) -> int
    decreases s.len(),
{
    if s.len() == 0 {
        0
    } else {
        sum_est(s.drop_last()) + (match s.last().estimated_time {
            Option::Some(e) => e as int,
            Option::None => 0,
        })
    }
}

/// Sum of all timespans, in minutes.
pub open spec fn sum_ts(s: Seq<AnalysisResultTask>) -> int
    decreases s.len(),
{
    if s.len() == 0 {
        0
    } else {
        sum_ts(s.drop_last()) + s.last().timespan
    }
}

/// Largest per-task timespan; 0 for an empty collection.
pub open spec fn spec_max_ts(s: Seq<AnalysisResultTask>) -> int
    decreases s.len(),
{
    if s.len() == 0 {
        0
    } else if s.len() == 1 {
        s.last().timespan as int
    } else if s.last().timespan > spec_max_ts(s.drop_last()) {
        s.last().timespan as int
    } else {
        spec_max_ts(s.drop_last())
    }
}

/// Smallest per-task timespan; 0 for an empty collection.
pub open spec fn spec_min_ts(s: Seq<AnalysisResultTask>) -> int
    decreases s.len(),
{
    if s.len() == 0 {
        0
    } else if s.len() == 1 {
        s.last().timespan as int
    } else if s.last().timespan < spec_min_ts(s.drop_last()) {
        s.last().timespan as int
    } else {
        spec_min_ts(s.drop_last())
    }
}

pub open spec fn timespans(s: Seq<AnalysisResultTask>) -> Seq<i64> {
    s.map_values(|t: AnalysisResultTask| t.timespan)
}

/// The median used here: the upper-middle element of the ascending timespans
/// (index `len / 2`), not an average of the two central ones; 0 when empty.
pub open spec fn spec_median(s: Seq<AnalysisResultTask>) -> int {
    if s.len() == 0 {
        0
    } else {
        stable_sort(timespans(s), i64_le())[s.len() as int / 2] as int
    }
}

/// Whole days spanned from the first task's begin to the last task's end,
/// rounding the minute difference toward zero; 0 when empty. Two tasks on
/// one day span 0 days, which later makes the per-day average non-finite.
pub open spec fn spec_work_days(s: Seq<AnalysisResultTask>) -> int {
    if s.len() == 0 {
        0
    } else {
        spec_div_trunc(
            spec_ts_minutes(s.last().end_time) - spec_ts_minutes(s.first().begin_time),
            1440,
        )
    }
}

/// Total work time over days spanned, as an exact quotient; the denominator
/// is 0 (non-finite) exactly when no full day was spanned.
pub open spec fn spec_per_day(s: Seq<AnalysisResultTask>) -> Ratio {
    Ratio { num: sum_ts(s) as i64, den: spec_work_days(s) as i64 }
}

/// Total over estimated: absent exactly when nothing was estimated.
pub open spec fn spec_gap_ratio(s: Seq<AnalysisResultTask>) -> Option<Ratio> {
    if sum_est(s) == 0 {
        Option::None
    } else {
        Option::Some(Ratio { num: sum_ts(s) as i64, den: sum_est(s) as i64 })
    }
}

/// Sum of squared deviations of each timespan from the per-day average,
/// scaled by the day count so everything stays an integer: the summand is
/// `(timespan_i * wd - tw)^2`, i.e. `wd^2` times `(timespan_i - tw/wd)^2`.
pub open spec fn sum_sqdev(s: Seq<AnalysisResultTask>, wd: int, tw: int) -> int
    decreases s.len(),
{
    if s.len() == 0 {
        0
    } else {
        let d = (s.last().timespan as int) * wd - tw;
        sum_sqdev(s.drop_last(), wd, tw) + d * d
    }
}

/// Population standard deviation of the timespans around the per-day
/// average, kept under the square root as an exact quotient
/// `sum_sqdev / (wd^2 * n)`; non-finite (zero denominator) when the
/// collection is empty or spans no full day.
pub open spec fn spec_deviation(s: Seq<AnalysisResultTask>) -> RootRatio {
    let n = s.len() as int;
    let wd = spec_work_days(s);
    let tw = sum_ts(s);
    if n == 0 || wd == 0 {
        RootRatio { num: 0, den: 0 }
    } else {
        RootRatio { num: sum_sqdev(s, wd, tw) as i128, den: (wd * wd * n) as i128 }
    }
}

/// Work time per externally supplied unit: present exactly when the caller
/// supplied a non-zero reference value.
pub open spec fn spec_per_value(s: Seq<AnalysisResultTask>, value: Option<i64>) -> Option<Ratio> {
    match value {
        Option::None => Option::None,
        Option::Some(v) => if v == 0 {
            Option::None
        } else {
            Option::Some(Ratio { num: sum_ts(s) as i64, den: v })
        },
    }
}

/// Bounds that keep the sums inside machine integers.
pub proof fn lemma_sum_bounds(s: Seq<AnalysisResultTask>)
    requires
        arts_valid(s),
    ensures
        -(s.len() as int * MAX_ABS_TIMESPAN) <= sum_ts(s) <= s.len() as int * MAX_ABS_TIMESPAN,
        0 <= sum_est(s) <= s.len() as int * MAX_ABS_TIMESPAN,
    decreases s.len(),
{
    if s.len() > 0 {
        let d = s.drop_last();
        assert(arts_valid(d)) by {
            assert(forall|i: int| 0 <= i < d.len() ==> d[i] == s[i]);
        }
        lemma_sum_bounds(d);
        assert(art_valid(s.last()));
    }
}

/// The statistic bundle over one ordered task collection.
#[derive(Debug)]
pub struct TasksAnalysisResult {
    pub total_estimated_time: i64,
    pub total_work_time: i64,
    pub total_time_gap_ratio: Option<Ratio>,
    pub work_days: i64,
    pub work_time_per_day: Ratio,
    pub work_time_per_day_max: i64,
    pub work_time_per_day_min: i64,
    pub work_time_per_day_median: i64,
    pub work_time_per_day_deviation: RootRatio,
    pub work_time_per_value: Option<Ratio>,
    pub tasks: Vec<AnalysisResultTask>,
}

/// Every field of the bundle, pinned to its mathematical definition over the
/// task sequence and the external reference value.
pub open spec fn stats_ok(
    r: TasksAnalysisResult,
    s: Seq<AnalysisResultTask>,
    value: Option<i64>,
) -> bool {
    &&& r.total_estimated_time as int == sum_est(s)
    &&& r.total_work_time as int == sum_ts(s)
    &&& r.total_time_gap_ratio == spec_gap_ratio(s)
    &&& r.work_days as int == spec_work_days(s)
    &&& r.work_time_per_day == spec_per_day(s)
    &&& r.work_time_per_day_max as int == spec_max_ts(s)
    &&& r.work_time_per_day_min as int == spec_min_ts(s)
    &&& r.work_time_per_day_median as int == spec_median(s)
    &&& r.work_time_per_day_deviation == spec_deviation(s)
    &&& r.work_time_per_value == spec_per_value(s, value)
    &&& r.tasks@ == s
}

pub proof fn lemma_i64_le_usable()
    ensures
        usable_order(i64_le()),
{
}

pub proof fn lemma_task_le_usable()
    ensures
        usable_order(task_le()),
{
}

/// One project's analyzable tasks, ordered by start time, with the external
/// reference value they are analyzed against.
#[derive(Debug)]
pub struct Tasks {
    pub tasks: Vec<AnalysisResultTask>,
    pub value: Option<i64>,
}

pub open spec fn tasks_wf(t: Tasks) -> bool {
    &&& arts_valid(t.tasks@)
    &&& t.tasks@.len() <= MAX_TASKS
}

impl Tasks {
    /// Select, convert and order the tasks of one project.
    pub fn new(tasks: Vec<Task>, project_id: &String, value: Option<i64>) -> (r: Tasks)
        requires
            tasks_valid(tasks@),
            tasks@.len() <= MAX_TASKS,
        ensures
            r.tasks@ == spec_selected(tasks@, project_id@),
            r.value == value,
            tasks_wf(r),
    {
        let ghost orig = tasks@;
        let filtered = filter_tasks(tasks, project_id);
        let sorted = sort_tasks(filtered);
        Tasks { tasks: sorted, value }
    }

    pub fn total_estimated_time(&self) -> (r: i64)
        requires
            tasks_wf(*self),
        ensures
            r as int == sum_est(self.tasks@),
            0 <= r <= 140_902_400_000_000,
    {
        let ghost s = self.tasks@;
        proof {
            assert(s.subrange(0, 0) =~= Seq::<AnalysisResultTask>::empty());
            assert(s.subrange(0, s.len() as int) =~= s);
        }
        let mut acc: i64 = 0;
        let mut i: usize = 0;
        let n = self.tasks.len();
        while i < n
            invariant
                0 <= i <= n,
                n == s.len(),
                s == self.tasks@,
                tasks_wf(*self),
                acc as int == sum_est(s.subrange(0, i as int)),
                0 <= acc <= i as int * MAX_ABS_TIMESPAN,
            decreases n - i,
        {
            proof {
                assert(s.subrange(0, i as int + 1).drop_last() =~= s.subrange(0, i as int));
                assert(s.subrange(0, i as int + 1).last() == s[i as int]);
                assert(art_valid(s[i as int]));
            }
            match &self.tasks[i].estimated_time {
                Option::Some(e) => {
                    acc = acc + *e;
                },
                Option::None => {},
            }
            i = i + 1;
        }
        acc
    }

    pub fn total_work_time(&self) -> (r: i64)
        requires
            tasks_wf(*self),
        ensures
            r as int == sum_ts(self.tasks@),
            -140_902_400_000_000 <= r <= 140_902_400_000_000,
    {
        let ghost s = self.tasks@;
        proof {
            assert(s.subrange(0, 0) =~= Seq::<AnalysisResultTask>::empty());
            assert(s.subrange(0, s.len() as int) =~= s);
        }
        let mut acc: i64 = 0;
        let mut i: usize = 0;
        let n = self.tasks.len();
        while i < n
            invariant
                0 <= i <= n,
                n == s.len(),
                s == self.tasks@,
                tasks_wf(*self),
                acc as int == sum_ts(s.subrange(0, i as int)),
                -(i as int * MAX_ABS_TIMESPAN) <= acc <= i as int * MAX_ABS_TIMESPAN,
            decreases n - i,
        {
            proof {
                assert(s.subrange(0, i as int + 1).drop_last() =~= s.subrange(0, i as int));
                assert(s.subrange(0, i as int + 1).last() == s[i as int]);
                assert(art_valid(s[i as int]));
            }
            acc = acc + self.tasks[i].timespan;
            i = i + 1;
        }
        acc
    }

    pub fn work_days(&self) -> (r: i64)
        requires
            tasks_wf(*self),
        ensures
            r as int == spec_work_days(self.tasks@),
            -6_000_000 <= r <= 6_000_000,
    {
        let n = self.tasks.len();
        if n == 0 {
            return 0;
        }
        proof {
            assert(art_valid(self.tasks@[0]));
            assert(art_valid(self.tasks@[n as int - 1]));
        }
        let b = ts_minutes(&self.tasks[0].begin_time);
        let e = ts_minutes(&self.tasks[n - 1].end_time);
        let d = e - b;
        let r = div_trunc(d, 1440);
        proof {
            let di = d as int;
            if di >= 0 {
                vstd::arithmetic::div_mod::lemma_div_is_ordered(di, 2 * MAX_ABS_TS_MINUTES, 1440);
                assert(2 * MAX_ABS_TS_MINUTES / 1440 < 6_000_000);
            } else {
                vstd::arithmetic::div_mod::lemma_div_is_ordered(-di, 2 * MAX_ABS_TS_MINUTES, 1440);
                assert(2 * MAX_ABS_TS_MINUTES / 1440 < 6_000_000);
            }
        }
        r
    }

    pub fn work_time_per_day(&self) -> (r: Ratio)
        requires
            tasks_wf(*self),
        ensures
            r == spec_per_day(self.tasks@),
    {
        Ratio { num: self.total_work_time(), den: self.work_days() }
    }

    pub fn work_time_per_day_max(&self) -> (r: i64)
        requires
            tasks_wf(*self),
        ensures
            r as int == spec_max_ts(self.tasks@),
    {
        let ghost s = self.tasks@;
        let n = self.tasks.len();
        if n == 0 {
            return 0;
        }
        proof {
            assert(s.subrange(0, 1).last() == s[0]);
            assert(s.subrange(0, s.len() as int) =~= s);
        }
        let mut acc: i64 = self.tasks[0].timespan;
        let mut i: usize = 1;
        while i < n
            invariant
                1 <= i <= n,
                n == s.len(),
                s == self.tasks@,
                acc as int == spec_max_ts(s.subrange(0, i as int)),
            decreases n - i,
        {
            proof {
                assert(s.subrange(0, i as int + 1).drop_last() =~= s.subrange(0, i as int));
                assert(s.subrange(0, i as int + 1).last() == s[i as int]);
            }
            if self.tasks[i].timespan > acc {
                acc = self.tasks[i].timespan;
            }
            i = i + 1;
        }
        acc
    }

    pub fn work_time_per_day_min(&self) -> (r: i64)
        requires
            tasks_wf(*self),
        ensures
            r as int == spec_min_ts(self.tasks@),
    {
        let ghost s = self.tasks@;
        let n = self.tasks.len();
        if n == 0 {
            return 0;
        }
        proof {
            assert(s.subrange(0, 1).last() == s[0]);
            assert(s.subrange(0, s.len() as int) =~= s);
        }
        let mut acc: i64 = self.tasks[0].timespan;
        let mut i: usize = 1;
        while i < n
            invariant
                1 <= i <= n,
                n == s.len(),
                s == self.tasks@,
                acc as int == spec_min_ts(s.subrange(0, i as int)),
            decreases n - i,
        {
            proof {
                assert(s.subrange(0, i as int + 1).drop_last() =~= s.subrange(0, i as int));
                assert(s.subrange(0, i as int + 1).last() == s[i as int]);
            }
            if self.tasks[i].timespan < acc {
                acc = self.tasks[i].timespan;
            }
            i = i + 1;
        }
        acc
    }

    pub fn work_time_per_day_median(&self) -> (r: i64)
        requires
            tasks_wf(*self),
        ensures
            r as int == spec_median(self.tasks@),
    {
        let ghost s = self.tasks@;
        let n = self.tasks.len();
        if n == 0 {
            return 0;
        }
        proof {
            assert(s.subrange(0, 0) =~= Seq::<AnalysisResultTask>::empty());
            assert(timespans(s.subrange(0, 0)) =~= Seq::<i64>::empty());
            assert(s.subrange(0, s.len() as int) =~= s);
        }
        let mut v: Vec<i64> = Vec::new();
        let mut i: usize = 0;
        while i < n
            invariant
                0 <= i <= n,
                n == s.len(),
                s == self.tasks@,
                v@ == timespans(s.subrange(0, i as int)),
            decreases n - i,
        {
            proof {
                assert(timespans(s.subrange(0, i as int + 1))
                    =~= timespans(s.subrange(0, i as int)).push(s[i as int].timespan));
            }
            v.push(self.tasks[i].timespan);
            i = i + 1;
        }
        let sorted = sort_i64(v);
        proof {
            lemma_i64_le_usable();
            lemma_stable_sort_ensures(timespans(s), i64_le());
        }
        sorted[n / 2]
    }

    pub fn work_time_per_day_deviation(&self) -> (r: RootRatio)
        requires
            tasks_wf(*self),
        ensures
            r == spec_deviation(self.tasks@),
    {
        let ghost s = self.tasks@;
        let n = self.tasks.len();
        let wd = self.work_days();
        if n == 0 || wd == 0 {
            return RootRatio { num: 0, den: 0 };
        }
        let tw = self.total_work_time();
        proof {
            assert(s.subrange(0, 0) =~= Seq::<AnalysisResultTask>::empty());
            assert(s.subrange(0, s.len() as int) =~= s);
        }
        let mut acc: i128 = 0;
        let mut i: usize = 0;
        while i < n
            invariant
                0 <= i <= n,
                n == s.len(),
                s == self.tasks@,
                tasks_wf(*self),
                wd as int == spec_work_days(s),
                -6_000_000 <= wd <= 6_000_000,
                wd != 0,
                tw as int == sum_ts(s),
                -140_902_400_000_000 <= tw <= 140_902_400_000_000,
                acc as int == sum_sqdev(s.subrange(0, i as int), wd as int, tw as int),
                0 <= acc <= i as int * 2_725_000_000_000_000_000_000_000_000_000_000,
            decreases n - i,
        {
            proof {
                assert(s.subrange(0, i as int + 1).drop_last() =~= s.subrange(0, i as int));
                assert(s.subrange(0, i as int + 1).last() == s[i as int]);
                assert(art_valid(s[i as int]));
            }
            let ts = self.tasks[i].timespan;
            proof {
                assert(-52_000_000_000_000_000 <= ts as int * wd as int <= 52_000_000_000_000_000)
                    by (nonlinear_arith)
                    requires
                        -8_600_000_000 <= ts as int <= 8_600_000_000,
                        -6_000_000 <= wd as int <= 6_000_000,
                ;
            }
            let d: i64 = ts * wd - tw;
            proof {
                assert(
                    0 <= (d as int) * (d as int)
                        <= 2_725_000_000_000_000_000_000_000_000_000_000
                ) by (nonlinear_arith)
                    requires
                        -52_200_000_000_000_000 <= d as int <= 52_200_000_000_000_000,
                ;
            }
            let sq: i128 = (d as i128) * (d as i128);
            acc = acc + sq;
            i = i + 1;
        }
        proof {
            assert(0 < (wd as int) * (wd as int) <= 36_000_000_000_000
                && 0 < (wd as int) * (wd as int) * (n as int) <= 590_000_000_000_000_000)
                by (nonlinear_arith)
                requires
                    -6_000_000 <= wd as int <= 6_000_000,
                    wd != 0,
                    0 < n as int <= 16384,
            ;
        }
        RootRatio { num: acc, den: (wd as i128) * (wd as i128) * (n as i128) }
    }

    pub fn work_time_per_value(&self) -> (r: Option<Ratio>)
        requires
            tasks_wf(*self),
        ensures
            r == spec_per_value(self.tasks@, self.value),
    {
        match self.value {
            Option::None => Option::None,
            Option::Some(v) => {
                if v == 0 {
                    Option::None
                } else {
                    Option::Some(Ratio { num: self.total_work_time(), den: v })
                }
            },
        }
    }

    /// Derive the whole statistic bundle; the ordered task list moves into
    /// the result unchanged.
    pub fn analyze(self) -> (r: TasksAnalysisResult)
        requires
            tasks_wf(self),
        ensures
            stats_ok(r, self.tasks@, self.value),
    {
        let total_work_time = self.total_work_time();
        let total_estimated_time = self.total_estimated_time();
        let total_time_gap_ratio = if total_estimated_time == 0 {
            Option::None
        } else {
            Option::Some(Ratio { num: total_work_time, den: total_estimated_time })
        };
        TasksAnalysisResult {
            total_estimated_time,
            total_work_time,
            total_time_gap_ratio,
            work_days: self.work_days(),
            work_time_per_day: self.work_time_per_day(),
            work_time_per_day_max: self.work_time_per_day_max(),
            work_time_per_day_min: self.work_time_per_day_min(),
            work_time_per_day_median: self.work_time_per_day_median(),
            work_time_per_day_deviation: self.work_time_per_day_deviation(),
            work_time_per_value: self.work_time_per_value(),
            tasks: self.tasks,
        }
    }
}

/// The aggregator of the statistics layer: a pure function of the ordered
/// task collection and the external reference value.
pub fn aggregate(tasks: Vec<AnalysisResultTask>, value: Option<i64>) -> (r: TasksAnalysisResult)
    requires
        arts_valid(tasks@),
        tasks@.len() <= MAX_TASKS,
    ensures
        stats_ok(r, tasks@, value),
{
    let t = Tasks { tasks, value };
    t.analyze()
}

} // verus!
