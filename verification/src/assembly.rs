//! Result assembly: resolve the project's name, run the selection, the
//! whole-set aggregation and the three grouping axes, and combine them into
//! one reportable structure. Fails only when no task references the
//! requested project; no partial result is ever produced.
use vstd::prelude::*;

use crate::analyzer::{
    aggregate, spec_first_match_name, spec_selected, stats_ok, project_name, Tasks,
    TasksAnalysisResult,
};
use crate::groups::{
    day_buckets, filter_arts, group_buckets, holiday_pred, label_pred, spec_labels,
    spec_weekday_label, weekday_buckets, weekday_pred, workday_pred,
};
use crate::model::{tasks_valid, HolidayTable, Task, MAX_TASKS};

verus! {

/// The whole report for one project: its name, the external reference
/// value, the whole-set statistics, and the per-axis grouped statistics.
#[derive(Debug)]
pub struct AnalysisResult {
    pub project_name: String,
    pub value: Option<i64>,
    pub all: TasksAnalysisResult,
    pub day: Vec<(String, TasksAnalysisResult)>,
    pub weekday: Vec<(String, TasksAnalysisResult)>,
    pub group: Vec<(String, TasksAnalysisResult)>,
}

/// Everything `analyze` promises of a produced report, over the selected
/// (filtered, converted, ordered) task sequence.
pub open spec fn analysis_ok(
    r: AnalysisResult,
    tasks: Seq<Task>,
    pid: Seq<char>,
    value: Option<i64>,
    hol: HolidayTable,
) -> bool {
    let sel = spec_selected(tasks, pid);
    &&& spec_first_match_name(tasks, pid) == Option::Some(r.project_name@)
    &&& r.value == value
    &&& stats_ok(r.all, sel, value)
    &&& r.day@.len() == 2
    &&& r.day@[0].0@ == "workday"@
    &&& stats_ok(r.day@[0].1, filter_arts(sel, workday_pred(hol)), value)
    &&& r.day@[1].0@ == "holiday"@
    &&& stats_ok(r.day@[1].1, filter_arts(sel, holiday_pred(hol)), value)
    &&& r.weekday@.len() == 7
    &&& forall|j: int|
        0 <= j < 7 ==> (#[trigger] r.weekday@[j]).0@ == spec_weekday_label(j) && stats_ok(
            r.weekday@[j].1,
            filter_arts(sel, weekday_pred(j)),
            value,
        )
    &&& r.group@.len() == spec_labels(sel).len()
    &&& forall|j: int|
        0 <= j < r.group@.len() ==> (#[trigger] r.group@[j]).0@ == spec_labels(sel)[j]
            && stats_ok(r.group@[j].1, filter_arts(sel, label_pred(spec_labels(sel)[j])), value)
}

/// Analyze one project's tasks. Returns `None` exactly when no task in the
/// input references `project_id` (whether or not it is analyzable); any
/// other input, however degenerate, produces a full report.
pub fn analyze(
    tasks: Vec<Task>,
    project_id: &str,
    value: Option<i64>,
    holidays: &HolidayTable,
) -> (r: Option<AnalysisResult>)
    requires
        tasks_valid(tasks@),
        tasks@.len() <= MAX_TASKS,
    ensures
        match r {
            Option::Some(res) => analysis_ok(res, tasks@, project_id@, value, *holidays),
            Option::None => spec_first_match_name(tasks@, project_id@) is None,
        },
{
    let pid: String = project_id.to_owned();
    let name = match project_name(&tasks, &pid) {
        Option::Some(n) => n,
        Option::None => {
            return Option::None;
        },
    };
    let selected = Tasks::new(tasks, &pid, value);
    let sel_tasks = selected.tasks;
    let day = day_buckets(&sel_tasks, holidays, value);
    let weekday = weekday_buckets(&sel_tasks, value);
    let group = group_buckets(&sel_tasks, value);
    let all = aggregate(sel_tasks, value);
    Option::Some(AnalysisResult { project_name: name, value, all, day, weekday, group })
}

} // verus!
