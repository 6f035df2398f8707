//! The laws the library states about itself, each proved from the public
//! contracts: when the gap ratio is absent, that the assembled task list is
//! canonical under permutation of the input, that the workday/holiday axis
//! is an exact partition, that aggregation is deterministic, and that every
//! deviation the aggregator produces is renderable.
use vstd::prelude::*;

use crate::analyzer::{
    arts_valid, art_valid, lemma_task_le_usable, spec_deviation, spec_filter_map, spec_gap_ratio,
    spec_selected, spec_to_analyzed, spec_work_days, spec_keep, stats_ok, sum_est,
    sum_sqdev, sum_ts, task_le, AnalysisResultTask, TasksAnalysisResult,
};
use crate::groups::{filter_arts, holiday_pred, workday_pred};
use crate::model::{
    lemma_ts_minutes_bound, spec_is_holiday, spec_ts_minutes, HolidayTable, Task,
    MAX_ABS_TS_MINUTES, MAX_TASKS,
};
use crate::sorting::{lemma_sorted_unique, lemma_stable_sort_ensures, stable_sort};

verus! {

/// The total gap ratio is absent exactly when the total estimated time is
/// zero — never zero, never an infinity.
pub proof fn law_gap_ratio_absent_iff(s: Seq<AnalysisResultTask>)
    ensures
        spec_gap_ratio(s) is None <==> sum_est(s) == 0,
{
}

/// Filtering distributes over concatenation.
proof fn lemma_filter_map_concat(u: Seq<Task>, v: Seq<Task>, pid: Seq<char>)
    ensures
        spec_filter_map(u + v, pid) == spec_filter_map(u, pid) + spec_filter_map(v, pid),
    decreases v.len(),
{
    if v.len() == 0 {
        assert(u + v =~= u);
        assert(spec_filter_map(u, pid) + spec_filter_map(v, pid) =~= spec_filter_map(u, pid));
    } else {
        lemma_filter_map_concat(u, v.drop_last(), pid);
        assert((u + v).drop_last() =~= u + v.drop_last());
        assert((u + v).last() == v.last());
        if spec_keep(v.last(), pid) {
            assert((spec_filter_map(u, pid) + spec_filter_map(v.drop_last(), pid)).push(
                spec_to_analyzed(v.last()),
            ) =~= spec_filter_map(u, pid) + spec_filter_map(v.drop_last(), pid).push(
                spec_to_analyzed(v.last()),
            ));
        }
    }
}

/// A permutation of the input tasks filters to a permutation of the
/// analyzed tasks.
proof fn lemma_filter_map_multiset(s1: Seq<Task>, s2: Seq<Task>, pid: Seq<char>)
    requires
        s1.to_multiset() == s2.to_multiset(),
    ensures
        spec_filter_map(s1, pid).to_multiset() == spec_filter_map(s2, pid).to_multiset(),
    decreases s1.len(),
{
    broadcast use vstd::seq_lib::group_to_multiset_ensures;
    broadcast use vstd::seq_lib::lemma_multiset_commutative;
    broadcast use vstd::multiset::group_multiset_axioms;

    s1.to_multiset_ensures();
    s2.to_multiset_ensures();
    if s1.len() == 0 {
        assert(s2.len() == 0);
    } else {
        let x = s1.last();
        assert(s1.contains(x));
        assert(s2.to_multiset().count(x) > 0);
        assert(s2.contains(x));
        let j = choose|j: int| 0 <= j < s2.len() && s2[j] == x;
        let s2r = s2.remove(j);
        let d1 = s1.drop_last();
        assert(s1.remove(s1.len() - 1) =~= d1);
        assert(d1.to_multiset() =~= s1.to_multiset().remove(x));
        assert(s2r.to_multiset() =~= s2.to_multiset().remove(x));
        lemma_filter_map_multiset(d1, s2r, pid);
        // split s2 around position j
        let a = s2.subrange(0, j);
        let b = s2.subrange(j + 1, s2.len() as int);
        let xs = seq![x];
        assert(s2 =~= (a + xs) + b);
        assert(s2r =~= a + b);
        lemma_filter_map_concat(a + xs, b, pid);
        lemma_filter_map_concat(a, xs, pid);
        lemma_filter_map_concat(a, b, pid);
        assert(xs.drop_last() =~= Seq::<Task>::empty());
        assert(xs.last() == x);
        assert(spec_filter_map(Seq::<Task>::empty(), pid) =~= Seq::<AnalysisResultTask>::empty());
        let fx = spec_filter_map(xs, pid);
        let fa = spec_filter_map(a, pid);
        let fb = spec_filter_map(b, pid);
        assert(spec_filter_map(s2, pid).to_multiset() =~= fa.to_multiset().add(
            fx.to_multiset(),
        ).add(fb.to_multiset()));
        assert(spec_filter_map(s2r, pid).to_multiset() =~= fa.to_multiset().add(fb.to_multiset()));
        // filtering s1 drops or converts exactly its last element
        if spec_keep(x, pid) {
            assert(fx =~= Seq::<AnalysisResultTask>::empty().push(spec_to_analyzed(x)));
            assert(spec_filter_map(s1, pid) == spec_filter_map(d1, pid).push(
                spec_to_analyzed(x),
            ));
            assert(spec_filter_map(s1, pid).to_multiset() =~= spec_filter_map(
                d1,
                pid,
            ).to_multiset().insert(spec_to_analyzed(x)));
            assert(spec_filter_map(s2, pid).to_multiset() =~= spec_filter_map(
                s2r,
                pid,
            ).to_multiset().insert(spec_to_analyzed(x)));
        } else {
            assert(fx =~= Seq::<AnalysisResultTask>::empty());
            assert(spec_filter_map(s1, pid) == spec_filter_map(d1, pid));
            assert(spec_filter_map(s2, pid).to_multiset() =~= spec_filter_map(
                s2r,
                pid,
            ).to_multiset());
        }
    }
}

/// The begin times of the project's analyzable tasks are pairwise distinct
/// in `s`: no two different analyzed tasks start at the same minute.
pub open spec fn distinct_begin_times(f: Seq<AnalysisResultTask>) -> bool {
    forall|a: AnalysisResultTask, b: AnalysisResultTask|
        #[trigger] f.contains(a) && #[trigger] f.contains(b) && spec_ts_minutes(a.begin_time)
            == spec_ts_minutes(b.begin_time) ==> a == b
}

/// Sorting is stable and total: however the same task set is permuted in
/// the export, the assembled task list of the report is identical — as long
/// as no two of the project's analyzable tasks share a begin time (with a
/// shared begin time, the stable order keeps each input's own arrival
/// order, and two arrivals may differ).
pub proof fn law_selection_canonical(s1: Seq<Task>, s2: Seq<Task>, pid: Seq<char>)
    requires
        s1.to_multiset() == s2.to_multiset(),
        distinct_begin_times(spec_filter_map(s1, pid)),
    ensures
        spec_selected(s1, pid) == spec_selected(s2, pid),
{
    broadcast use vstd::seq_lib::group_to_multiset_ensures;

    lemma_task_le_usable();
    lemma_filter_map_multiset(s1, s2, pid);
    let f1 = spec_filter_map(s1, pid);
    let f2 = spec_filter_map(s2, pid);
    lemma_stable_sort_ensures(f1, task_le());
    lemma_stable_sort_ensures(f2, task_le());
    let r1 = stable_sort(f1, task_le());
    let r2 = stable_sort(f2, task_le());
    assert forall|a: AnalysisResultTask| #[trigger] r1.contains(a) implies f1.contains(a) by {
        assert(r1.to_multiset().count(a) > 0);
        assert(f1.to_multiset().count(a) > 0);
    }
    assert forall|a: AnalysisResultTask, b: AnalysisResultTask|
        #[trigger] r1.contains(a) && #[trigger] r1.contains(b) && task_le()(a, b) && task_le()(
            b,
            a,
        ) implies a == b by {
        assert(f1.contains(a));
        assert(f1.contains(b));
        assert(spec_ts_minutes(a.begin_time) == spec_ts_minutes(b.begin_time));
    }
    lemma_sorted_unique(r1, r2, task_le());
}

/// Every task the filter keeps belongs to the requested project.
proof fn lemma_filter_map_matches(s: Seq<Task>, pid: Seq<char>)
    ensures
        forall|i: int|
            0 <= i < spec_filter_map(s, pid).len() ==> (#[trigger] spec_filter_map(s, pid)[i])
                .project is Some && spec_filter_map(s, pid)[i].project->0.id@ == pid,
    decreases s.len(),
{
    if s.len() > 0 {
        lemma_filter_map_matches(s.drop_last(), pid);
        let f = spec_filter_map(s, pid);
        let fd = spec_filter_map(s.drop_last(), pid);
        assert forall|i: int| 0 <= i < f.len() implies (#[trigger] f[i]).project is Some && f[i]
            .project->0.id@ == pid by {
            if spec_keep(s.last(), pid) && i == f.len() - 1 {
                assert(f[i] == spec_to_analyzed(s.last()));
            } else {
                assert(f[i] == fd[i]);
            }
        }
    }
}

/// The report's task list is ordered by begin time, ascending, and every
/// task in it belongs to the requested project.
pub proof fn law_selected_tasks_ordered_and_owned(s: Seq<Task>, pid: Seq<char>)
    ensures
        vstd::relations::sorted_by(spec_selected(s, pid), task_le()),
        forall|i: int|
            0 <= i < spec_selected(s, pid).len() ==> (#[trigger] spec_selected(s, pid)[i])
                .project is Some && spec_selected(s, pid)[i].project->0.id@ == pid,
{
    broadcast use vstd::seq_lib::group_to_multiset_ensures;

    lemma_task_le_usable();
    lemma_filter_map_matches(s, pid);
    let f = spec_filter_map(s, pid);
    lemma_stable_sort_ensures(f, task_le());
    let sel = spec_selected(s, pid);
    assert forall|i: int| 0 <= i < sel.len() implies (#[trigger] sel[i]).project is Some && sel[i]
        .project->0.id@ == pid by {
        assert(sel.to_multiset().count(sel[i]) > 0);
        assert(f.to_multiset().count(sel[i]) > 0);
        assert(f.contains(sel[i]));
        let k = choose|k: int| 0 <= k < f.len() && f[k] == sel[i];
        assert(f[k].project is Some && f[k].project->0.id@ == pid);
    }
}

/// Elements of a filtered collection satisfy the predicate and come from
/// the original collection.
pub proof fn lemma_filter_arts_membership(
    s: Seq<AnalysisResultTask>,
    pred: spec_fn(AnalysisResultTask) -> bool,
)
    ensures
        forall|i: int|
            0 <= i < filter_arts(s, pred).len() ==> pred(#[trigger] filter_arts(s, pred)[i])
                && s.contains(filter_arts(s, pred)[i]),
    decreases s.len(),
{
    if s.len() > 0 {
        lemma_filter_arts_membership(s.drop_last(), pred);
        let f = filter_arts(s, pred);
        let fd = filter_arts(s.drop_last(), pred);
        assert forall|i: int| 0 <= i < f.len() implies pred(#[trigger] f[i]) && s.contains(
            f[i],
        ) by {
            if i < fd.len() {
                assert(fd[i] == f[i]);
                let k = choose|k: int| 0 <= k < s.drop_last().len() && s.drop_last()[k] == fd[i];
                assert(s[k] == f[i]);
            } else {
                assert(f[i] == s.last());
                assert(s[s.len() - 1] == s.last());
            }
        }
    }
}

/// Grouping by workday/holiday is an exact partition: each task lands in
/// the bucket its begin date's holiday lookup selects and in no other, the
/// two buckets together hold exactly the whole collection, and the total
/// work time splits across them without loss or duplication.
pub proof fn law_holiday_partition(s: Seq<AnalysisResultTask>, h: HolidayTable)
    ensures
        filter_arts(s, workday_pred(h)).to_multiset().add(
            filter_arts(s, holiday_pred(h)).to_multiset(),
        ) == s.to_multiset(),
        sum_ts(filter_arts(s, workday_pred(h))) + sum_ts(filter_arts(s, holiday_pred(h)))
            == sum_ts(s),
        forall|i: int|
            0 <= i < filter_arts(s, holiday_pred(h)).len() ==> spec_is_holiday(
                &h,
                (#[trigger] filter_arts(s, holiday_pred(h))[i]).begin_time.date,
            ),
        forall|i: int|
            0 <= i < filter_arts(s, workday_pred(h)).len() ==> !spec_is_holiday(
                &h,
                (#[trigger] filter_arts(s, workday_pred(h))[i]).begin_time.date,
            ),
    decreases s.len(),
{
    broadcast use vstd::seq_lib::group_to_multiset_ensures;
    broadcast use vstd::multiset::group_multiset_axioms;

    lemma_filter_arts_membership(s, workday_pred(h));
    lemma_filter_arts_membership(s, holiday_pred(h));
    if s.len() == 0 {
        assert(filter_arts(s, workday_pred(h)).to_multiset().add(
            filter_arts(s, holiday_pred(h)).to_multiset(),
        ) =~= s.to_multiset());
    } else {
        let d = s.drop_last();
        law_holiday_partition(d, h);
        let x = s.last();
        assert(d.push(x) =~= s);
        let w = filter_arts(s, workday_pred(h));
        let hh = filter_arts(s, holiday_pred(h));
        let wd = filter_arts(d, workday_pred(h));
        let hd = filter_arts(d, holiday_pred(h));
        assert(sum_ts(s) == sum_ts(d) + x.timespan);
        if spec_is_holiday(&h, x.begin_time.date) {
            assert(hh == hd.push(x));
            assert(w == wd);
            assert(hd.push(x).drop_last() =~= hd);
            assert(sum_ts(hh) == sum_ts(hd) + x.timespan);
            assert(w.to_multiset().add(hh.to_multiset()) =~= s.to_multiset());
        } else {
            assert(w == wd.push(x));
            assert(hh == hd);
            assert(wd.push(x).drop_last() =~= wd);
            assert(sum_ts(w) == sum_ts(wd) + x.timespan);
            assert(w.to_multiset().add(hh.to_multiset()) =~= s.to_multiset());
        }
    }
}

/// Aggregation is a pure function: two statistic bundles derived from the
/// same ordered task collection and the same external reference value are
/// identical in every field, the embedded task list included.
pub proof fn law_aggregate_deterministic(
    r1: TasksAnalysisResult,
    r2: TasksAnalysisResult,
    s: Seq<AnalysisResultTask>,
    value: Option<i64>,
)
    requires
        stats_ok(r1, s, value),
        stats_ok(r2, s, value),
    ensures
        r1.total_estimated_time == r2.total_estimated_time,
        r1.total_work_time == r2.total_work_time,
        r1.total_time_gap_ratio == r2.total_time_gap_ratio,
        r1.work_days == r2.work_days,
        r1.work_time_per_day == r2.work_time_per_day,
        r1.work_time_per_day_max == r2.work_time_per_day_max,
        r1.work_time_per_day_min == r2.work_time_per_day_min,
        r1.work_time_per_day_median == r2.work_time_per_day_median,
        r1.work_time_per_day_deviation == r2.work_time_per_day_deviation,
        r1.work_time_per_value == r2.work_time_per_value,
        r1.tasks@ == r2.tasks@,
{
}

/// The summed squared deviations stay inside the bound that keeps them both
/// representable and renderable.
proof fn lemma_sum_sqdev_bound(s: Seq<AnalysisResultTask>, wd: int, tw: int)
    requires
        arts_valid(s),
        -6_000_000 <= wd <= 6_000_000,
        -140_902_400_000_000 <= tw <= 140_902_400_000_000,
    ensures
        0 <= sum_sqdev(s, wd, tw) <= s.len() as int
            * 2_725_000_000_000_000_000_000_000_000_000_000,
    decreases s.len(),
{
    if s.len() > 0 {
        let d = s.drop_last();
        assert(arts_valid(d)) by {
            assert(forall|i: int| 0 <= i < d.len() ==> d[i] == s[i]);
        }
        lemma_sum_sqdev_bound(d, wd, tw);
        assert(art_valid(s.last()));
        let ts = s.last().timespan as int;
        let dv = ts * wd - tw;
        assert(-52_200_000_000_000_000 <= dv <= 52_200_000_000_000_000 && 0 <= dv * dv
            <= 2_725_000_000_000_000_000_000_000_000_000_000) by (nonlinear_arith)
            requires
                dv == ts * wd - tw,
                -8_600_000_000 <= ts <= 8_600_000_000,
                -6_000_000 <= wd <= 6_000_000,
                -140_902_400_000_000 <= tw <= 140_902_400_000_000,
        ;
    }
}

/// Every deviation the aggregator can produce is safe to hand to the
/// renderer: it is non-negative and its quotient is at most the square of
/// the largest renderable minute count.
pub proof fn law_deviation_renderable(s: Seq<AnalysisResultTask>)
    requires
        arts_valid(s),
        s.len() <= MAX_TASKS,
    ensures
        spec_deviation(s).num >= 0,
        spec_deviation(s).den >= 0,
        spec_deviation(s).den > 0 ==> spec_deviation(s).num as int / spec_deviation(s).den as int
            <= 3_600_000_000_000_000_000_000_000_000_000_000,
{
    let n = s.len() as int;
    let wd = spec_work_days(s);
    let tw = sum_ts(s);
    if n == 0 || wd == 0 {
    } else {
        assert(art_valid(s[0]));
        assert(art_valid(s[n - 1]));
        lemma_ts_minutes_bound(s[0].begin_time);
        lemma_ts_minutes_bound(s[n - 1].end_time);
        let delta = spec_ts_minutes(s.last().end_time) - spec_ts_minutes(s.first().begin_time);
        assert(-6_000_000 <= wd <= 6_000_000) by {
            if delta >= 0 {
                vstd::arithmetic::div_mod::lemma_div_is_ordered(
                    delta,
                    2 * MAX_ABS_TS_MINUTES,
                    1440,
                );
                assert(2 * MAX_ABS_TS_MINUTES / 1440 < 6_000_000);
                vstd::arithmetic::div_mod::lemma_div_pos_is_pos(delta, 1440);
            } else {
                vstd::arithmetic::div_mod::lemma_div_is_ordered(
                    -delta,
                    2 * MAX_ABS_TS_MINUTES,
                    1440,
                );
                assert(2 * MAX_ABS_TS_MINUTES / 1440 < 6_000_000);
                vstd::arithmetic::div_mod::lemma_div_pos_is_pos(-delta, 1440);
            }
        }
        crate::analyzer::lemma_sum_bounds(s);
        lemma_sum_sqdev_bound(s, wd, tw);
        let num = sum_sqdev(s, wd, tw);
        let den = wd * wd * n;
        assert(n <= den <= 590_000_000_000_000_000 && num
            <= 3_600_000_000_000_000_000_000_000_000_000_000 * den) by (nonlinear_arith)
            requires
                wd != 0,
                -6_000_000 <= wd <= 6_000_000,
                0 < n <= 16384,
                0 <= num <= n * 2_725_000_000_000_000_000_000_000_000_000_000,
                den == wd * wd * n,
        ;
        assert(spec_deviation(s).num as int == num);
        assert(spec_deviation(s).den as int == den);
        vstd::arithmetic::div_mod::lemma_div_is_ordered(
            num,
            3_600_000_000_000_000_000_000_000_000_000_000 * den,
            den,
        );
        vstd::arithmetic::div_mod::lemma_div_by_multiple(
            3_600_000_000_000_000_000_000_000_000_000_000,
            den,
        );
        assert((3_600_000_000_000_000_000_000_000_000_000_000 * den) / den
            == 3_600_000_000_000_000_000_000_000_000_000_000);
    }
}

} // verus!
