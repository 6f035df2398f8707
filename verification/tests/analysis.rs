use tcc::analyzer::{aggregate, AnalysisResultTask};
use tcc::assembly::analyze;
use tcc::model::{date_days, ts_minutes, Date, HolidayTable, Project, Task, Timestamp};
use tcc::numbers::Ratio;
use tcc::numbers::RootRatio;

fn date(year: i32, month: u8, day: u8) -> Date {
    Date { year, month, day }
}

fn at(year: i32, month: u8, day: u8, hour: u16, minute: u16) -> Timestamp {
    Timestamp { date: date(year, month, day), minute: hour * 60 + minute }
}

fn task(
    id: &str,
    begin: Timestamp,
    end: Timestamp,
    estimated: Option<i64>,
    group: Option<&str>,
) -> Task {
    Task {
        id: id.to_string(),
        name: format!("task {}", id),
        group: group.map(|g| g.to_string()),
        estimated_time: estimated,
        begin_time: Some(begin),
        end_time: Some(end),
        comment: None,
        project: Some(Project { id: "p1".to_string(), name: "Project One".to_string() }),
    }
}

fn art(id: &str, begin: Timestamp, end: Timestamp, estimated: Option<i64>) -> AnalysisResultTask {
    let timespan = ts_minutes(&end) - ts_minutes(&begin);
    AnalysisResultTask {
        id: id.to_string(),
        name: format!("task {}", id),
        group: None,
        project: None,
        comment: None,
        estimated_time: estimated,
        time_gap_ratio: estimated.map(|e| Ratio { num: timespan, den: e }),
        begin_time: begin,
        end_time: end,
        timespan,
    }
}

#[test]
fn day_numbers_match_the_civil_calendar() {
    assert_eq!(date_days(&date(1970, 1, 1)), 0);
    assert_eq!(date_days(&date(1970, 1, 2)), 1);
    assert_eq!(date_days(&date(1969, 12, 31)), -1);
    assert_eq!(date_days(&date(2000, 3, 1)), 11017);
    assert_eq!(date_days(&date(2024, 1, 1)), 19723);
}

#[test]
fn gap_ratio_absent_without_estimates() {
    let tasks = vec![
        task("a", at(2024, 1, 1, 9, 0), at(2024, 1, 1, 9, 10), None, None),
        task("b", at(2024, 1, 1, 10, 0), at(2024, 1, 1, 10, 20), None, None),
    ];
    let r = analyze(tasks, "p1", None, &HolidayTable::new()).unwrap();
    assert_eq!(r.all.total_estimated_time, 0);
    assert_eq!(r.all.total_time_gap_ratio, None);
}

#[test]
fn gap_ratio_present_with_estimate() {
    let tasks = vec![task(
        "a",
        at(2024, 1, 1, 9, 0),
        at(2024, 1, 1, 10, 30),
        Some(60),
        None,
    )];
    let r = analyze(tasks, "p1", None, &HolidayTable::new()).unwrap();
    assert_eq!(r.all.total_estimated_time, 60);
    assert_eq!(r.all.total_work_time, 90);
    // 90 actual over 60 estimated: the exact quotient 90/60 (i.e. 1.5)
    assert_eq!(r.all.total_time_gap_ratio, Some(Ratio { num: 90, den: 60 }));
}

#[test]
fn median_of_three_is_the_middle() {
    let tasks = vec![
        art("a", at(2024, 1, 1, 9, 0), at(2024, 1, 1, 9, 10), None),
        art("b", at(2024, 1, 1, 10, 0), at(2024, 1, 1, 10, 20), None),
        art("c", at(2024, 1, 1, 11, 0), at(2024, 1, 1, 11, 30), None),
    ];
    let r = aggregate(tasks, None);
    assert_eq!(r.work_time_per_day_median, 20);
}

#[test]
fn median_of_four_is_the_upper_middle() {
    let tasks = vec![
        art("a", at(2024, 1, 1, 9, 0), at(2024, 1, 1, 9, 10), None),
        art("b", at(2024, 1, 1, 10, 0), at(2024, 1, 1, 10, 20), None),
        art("c", at(2024, 1, 1, 11, 0), at(2024, 1, 1, 11, 30), None),
        art("d", at(2024, 1, 1, 12, 0), at(2024, 1, 1, 12, 40), None),
    ];
    let r = aggregate(tasks, None);
    assert_eq!(r.work_time_per_day_median, 30);
}

#[test]
fn permuted_input_assembles_the_same_task_list() {
    let make = |ids: [&str; 3]| -> Vec<Task> {
        let times = [
            (at(2024, 1, 1, 9, 0), at(2024, 1, 1, 9, 10)),
            (at(2024, 1, 1, 10, 0), at(2024, 1, 1, 10, 20)),
            (at(2024, 1, 1, 11, 0), at(2024, 1, 1, 11, 30)),
        ];
        // each id carries its own times, so permuting the list permutes the set
        let slot = |id: &str| match id {
            "a" => times[0],
            "b" => times[1],
            _ => times[2],
        };
        ids.iter().map(|id| task(id, slot(id).0, slot(id).1, None, None)).collect()
    };
    let r1 = analyze(make(["a", "b", "c"]), "p1", None, &HolidayTable::new()).unwrap();
    let r2 = analyze(make(["c", "a", "b"]), "p1", None, &HolidayTable::new()).unwrap();
    let ids1: Vec<String> = r1.all.tasks.iter().map(|t| t.id.clone()).collect();
    let ids2: Vec<String> = r2.all.tasks.iter().map(|t| t.id.clone()).collect();
    assert_eq!(ids1, vec!["a", "b", "c"]);
    assert_eq!(ids1, ids2);
}

#[test]
fn ties_keep_their_arrival_order() {
    let t0 = at(2024, 1, 1, 9, 0);
    let t1 = at(2024, 1, 1, 9, 30);
    let tasks = vec![
        task("first", t0, t1, None, None),
        task("second", t0, t1, None, None),
    ];
    let r = analyze(tasks, "p1", None, &HolidayTable::new()).unwrap();
    let ids: Vec<String> = r.all.tasks.iter().map(|t| t.id.clone()).collect();
    assert_eq!(ids, vec!["first", "second"]);
}

#[test]
fn unknown_project_is_not_found() {
    let tasks = vec![task("a", at(2024, 1, 1, 9, 0), at(2024, 1, 1, 9, 10), None, None)];
    assert!(analyze(tasks, "p2", None, &HolidayTable::new()).is_none());
    assert!(analyze(Vec::new(), "p1", None, &HolidayTable::new()).is_none());
}

#[test]
fn name_lookup_accepts_unanalyzable_tasks() {
    // the only task referencing the project has no timestamps: the name is
    // still resolved and the statistics are all zero or absent
    let mut t = task("a", at(2024, 1, 1, 9, 0), at(2024, 1, 1, 9, 10), None, None);
    t.begin_time = None;
    t.end_time = None;
    let r = analyze(vec![t], "p1", None, &HolidayTable::new()).unwrap();
    assert_eq!(r.project_name, "Project One");
    assert_eq!(r.all.tasks.len(), 0);
    assert_eq!(r.all.total_work_time, 0);
    assert_eq!(r.all.total_estimated_time, 0);
    assert_eq!(r.all.total_time_gap_ratio, None);
    assert_eq!(r.all.work_days, 0);
    assert_eq!(r.all.work_time_per_day, Ratio { num: 0, den: 0 });
    assert_eq!(r.all.work_time_per_day_max, 0);
    assert_eq!(r.all.work_time_per_day_min, 0);
    assert_eq!(r.all.work_time_per_day_median, 0);
    assert_eq!(r.all.work_time_per_day_deviation, RootRatio { num: 0, den: 0 });
    assert_eq!(r.all.work_time_per_value, None);
}

#[test]
fn holiday_grouping_partitions_the_tasks() {
    let holidays = HolidayTable {
        entries: vec![(date(2024, 1, 1), "New Year".to_string())],
    };
    let tasks = vec![
        task("hol", at(2024, 1, 1, 9, 0), at(2024, 1, 1, 10, 0), None, None),
        task("work", at(2024, 1, 2, 9, 0), at(2024, 1, 2, 9, 30), None, None),
    ];
    let r = analyze(tasks, "p1", None, &holidays).unwrap();
    assert_eq!(r.day.len(), 2);
    assert_eq!(r.day[0].0, "workday");
    assert_eq!(r.day[1].0, "holiday");
    let workday = &r.day[0].1;
    let holiday = &r.day[1].1;
    assert_eq!(workday.total_work_time, 30);
    assert_eq!(workday.tasks.len(), 1);
    assert_eq!(workday.tasks[0].id, "work");
    assert_eq!(holiday.total_work_time, 60);
    assert_eq!(holiday.tasks.len(), 1);
    assert_eq!(holiday.tasks[0].id, "hol");
    // the ungrouped whole counts the holiday task exactly once
    assert_eq!(r.all.total_work_time, 90);
    assert_eq!(r.all.tasks.len(), 2);
}

#[test]
fn weekday_grouping_uses_seven_fixed_buckets() {
    let tasks = vec![
        // 2024-01-01 was a Monday, 2024-01-02 a Tuesday
        task("mon", at(2024, 1, 1, 9, 0), at(2024, 1, 1, 10, 0), None, None),
        task("tue", at(2024, 1, 2, 9, 0), at(2024, 1, 2, 9, 30), None, None),
    ];
    let r = analyze(tasks, "p1", None, &HolidayTable::new()).unwrap();
    assert_eq!(r.weekday.len(), 7);
    let labels: Vec<&str> = r.weekday.iter().map(|(l, _)| l.as_str()).collect();
    assert_eq!(labels, vec!["Sun", "Mon", "Tue", "Wed", "Thu", "Fri", "Sat"]);
    assert_eq!(r.weekday[1].1.total_work_time, 60);
    assert_eq!(r.weekday[2].1.total_work_time, 30);
    assert_eq!(r.weekday[0].1.total_work_time, 0);
    assert_eq!(r.weekday[0].1.tasks.len(), 0);
}

#[test]
fn group_tags_bucket_in_first_appearance_order() {
    let tasks = vec![
        task("a", at(2024, 1, 1, 9, 0), at(2024, 1, 1, 9, 10), None, Some("write")),
        task("b", at(2024, 1, 1, 10, 0), at(2024, 1, 1, 10, 20), None, None),
        task("c", at(2024, 1, 1, 11, 0), at(2024, 1, 1, 11, 30), None, Some("write")),
    ];
    let r = analyze(tasks, "p1", None, &HolidayTable::new()).unwrap();
    assert_eq!(r.group.len(), 2);
    assert_eq!(r.group[0].0, "write");
    assert_eq!(r.group[1].0, "-");
    assert_eq!(r.group[0].1.total_work_time, 40);
    assert_eq!(r.group[1].1.total_work_time, 20);
}

#[test]
fn work_days_span_first_begin_to_last_end() {
    let tasks = vec![
        task("a", at(2024, 1, 1, 9, 0), at(2024, 1, 1, 10, 0), None, None),
        task("b", at(2024, 1, 3, 9, 0), at(2024, 1, 3, 9, 30), None, None),
    ];
    let r = analyze(tasks, "p1", Some(3), &HolidayTable::new()).unwrap();
    assert_eq!(r.all.work_days, 2);
    assert_eq!(r.all.total_work_time, 90);
    assert_eq!(r.all.work_time_per_day, Ratio { num: 90, den: 2 });
    assert_eq!(r.all.work_time_per_day_max, 60);
    assert_eq!(r.all.work_time_per_day_min, 30);
    assert_eq!(r.all.work_time_per_day_median, 60);
    // per-day mean is 45 min/day; deviations are +15 and -15, scaled by the
    // day count: (60*2-90)^2 + (30*2-90)^2 = 1800 over 2^2 * 2 = 8
    assert_eq!(r.all.work_time_per_day_deviation, RootRatio { num: 1800, den: 8 });
    assert_eq!(r.all.work_time_per_value, Some(Ratio { num: 90, den: 3 }));
}

#[test]
fn same_day_tasks_span_zero_days() {
    let tasks = vec![
        task("a", at(2024, 1, 1, 9, 0), at(2024, 1, 1, 10, 0), None, None),
        task("b", at(2024, 1, 1, 11, 0), at(2024, 1, 1, 11, 30), None, None),
    ];
    let r = analyze(tasks, "p1", None, &HolidayTable::new()).unwrap();
    assert_eq!(r.all.work_days, 0);
    // the per-day quotient is non-finite (zero denominator), not a crash
    assert_eq!(r.all.work_time_per_day, Ratio { num: 90, den: 0 });
    assert_eq!(r.all.work_time_per_day_deviation, RootRatio { num: 0, den: 0 });
}

#[test]
fn zero_reference_value_gives_no_rate() {
    let tasks = vec![task("a", at(2024, 1, 1, 9, 0), at(2024, 1, 1, 10, 0), None, None)];
    let r = analyze(tasks, "p1", Some(0), &HolidayTable::new()).unwrap();
    assert_eq!(r.all.work_time_per_value, None);
}

#[test]
fn aggregation_is_deterministic() {
    let make = || {
        vec![
            art("a", at(2024, 1, 1, 9, 0), at(2024, 1, 1, 10, 0), Some(30)),
            art("b", at(2024, 1, 3, 9, 0), at(2024, 1, 3, 9, 30), None),
        ]
    };
    let r1 = aggregate(make(), Some(5));
    let r2 = aggregate(make(), Some(5));
    assert_eq!(r1.total_estimated_time, r2.total_estimated_time);
    assert_eq!(r1.total_work_time, r2.total_work_time);
    assert_eq!(r1.total_time_gap_ratio, r2.total_time_gap_ratio);
    assert_eq!(r1.work_days, r2.work_days);
    assert_eq!(r1.work_time_per_day, r2.work_time_per_day);
    assert_eq!(r1.work_time_per_day_max, r2.work_time_per_day_max);
    assert_eq!(r1.work_time_per_day_min, r2.work_time_per_day_min);
    assert_eq!(r1.work_time_per_day_median, r2.work_time_per_day_median);
    assert_eq!(r1.work_time_per_day_deviation, r2.work_time_per_day_deviation);
    assert_eq!(r1.work_time_per_value, r2.work_time_per_value);
    let ids1: Vec<&str> = r1.tasks.iter().map(|t| t.id.as_str()).collect();
    let ids2: Vec<&str> = r2.tasks.iter().map(|t| t.id.as_str()).collect();
    assert_eq!(ids1, ids2);
}

#[test]
fn tasks_without_the_project_are_dropped() {
    let mut other = task("x", at(2024, 1, 1, 8, 0), at(2024, 1, 1, 8, 30), None, None);
    other.project = Some(Project { id: "p2".to_string(), name: "Other".to_string() });
    let mut unowned = task("y", at(2024, 1, 1, 8, 0), at(2024, 1, 1, 8, 30), None, None);
    unowned.project = None;
    let tasks = vec![
        other,
        unowned,
        task("a", at(2024, 1, 1, 9, 0), at(2024, 1, 1, 10, 0), None, None),
    ];
    let r = analyze(tasks, "p1", None, &HolidayTable::new()).unwrap();
    assert_eq!(r.project_name, "Project One");
    assert_eq!(r.all.tasks.len(), 1);
    assert_eq!(r.all.tasks[0].id, "a");
}

#[test]
fn holiday_table_lookup() {
    let holidays = HolidayTable {
        entries: vec![(date(2024, 1, 1), "New Year".to_string())],
    };
    assert!(holidays.is_holiday(&date(2024, 1, 1)));
    assert!(!holidays.is_holiday(&date(2024, 1, 2)));
    assert!(!HolidayTable::new().is_holiday(&date(2024, 1, 1)));
}
