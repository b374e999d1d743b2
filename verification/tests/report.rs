use cb2_core::report::{
    finished_report, group_report, parallel_outcomes, record_step, report_wrap, start_and_end_times, Report,
};

fn at(secs: u32) -> chrono::NaiveDateTime {
    chrono::NaiveDate::from_ymd_opt(2020, 1, 1).unwrap().and_hms_opt(0, 0, secs).unwrap()
}

fn dur() -> chrono::Duration {
    chrono::Duration::seconds(1)
}

fn ids(v: &Vec<Report>) -> Vec<String> {
    v.iter().map(|r| r.id()).collect()
}

#[test]
fn flatten_lists_nested_reports_depth_first() {
    let inner = Report::ErrorGroup {
        id: "g2".into(),
        reports: vec![Err(Report::Error { id: "c".into(), time: at(3), dur: dur() })],
        time: at(4),
        dur: dur(),
    };
    let outer = Report::EndGroup {
        id: "g1".into(),
        reports: vec![Ok(Report::End { id: "a".into(), time: at(1), dur: dur() }), Err(inner)],
        time: at(5),
        dur: dur(),
    };
    assert_eq!(vec!["g1", "a", "g2", "c"], ids(&outer.flatten()));
    let single = Report::Started { id: "s".into(), time: at(0) };
    assert_eq!(vec!["s"], ids(&single.flatten()));
}

#[test]
fn times_come_from_first_start_and_end() {
    let reports = vec![
        Report::Started { id: "a".into(), time: at(1) },
        Report::Started { id: "b".into(), time: at(2) },
        Report::End { id: "b".into(), time: at(3), dur: dur() },
        Report::Error { id: "a".into(), time: at(7), dur: dur() },
        Report::End { id: "a".into(), time: at(9), dur: dur() },
    ];
    assert_eq!((Some(at(1)), Some(at(7))), start_and_end_times("a", &reports));
    assert_eq!((Some(at(2)), Some(at(3))), start_and_end_times("b", &reports));
    assert_eq!((None, None), start_and_end_times("c", &reports));
}

#[test]
fn failures_are_wrapped_as_errors() {
    assert!(report_wrap(Report::Error { id: "a".into(), time: at(1), dur: dur() }).is_err());
    assert!(report_wrap(Report::End { id: "a".into(), time: at(1), dur: dur() }).is_ok());
    assert!(matches!(finished_report("x".into(), true, at(1), dur()), Report::End { .. }));
    assert!(matches!(finished_report("x".into(), false, at(1), dur()), Report::Error { .. }));
}

#[test]
fn group_fails_when_an_item_fails() {
    let ok = group_report(
        "g".into(),
        vec![Ok(Report::End { id: "a".into(), time: at(1), dur: dur() })],
        at(2),
        dur(),
    );
    assert!(matches!(ok, Ok(Report::EndGroup { .. })));
    let bad = group_report(
        "g".into(),
        vec![
            Ok(Report::End { id: "a".into(), time: at(1), dur: dur() }),
            Err(Report::Error { id: "b".into(), time: at(1), dur: dur() }),
        ],
        at(2),
        dur(),
    );
    assert!(matches!(bad, Err(Report::ErrorGroup { .. })));
    let empty = group_report("g".into(), vec![], at(2), dur());
    assert!(matches!(empty, Ok(Report::EndGroup { .. })));
}

#[test]
fn series_stops_after_a_failure() {
    let mut results = Vec::new();
    assert!(record_step(&mut results, Ok(Ok(Report::End { id: "a".into(), time: at(1), dur: dur() }))));
    assert!(!record_step(&mut results, Ok(Err(Report::Error { id: "b".into(), time: at(1), dur: dur() }))));
    assert!(!record_step(&mut results, Err(Report::Error { id: "c".into(), time: at(1), dur: dur() })));
    assert_eq!(3, results.len());
    assert!(results[0].is_ok() && results[1].is_err() && results[2].is_err());
}

#[test]
fn parallel_outcomes_keep_items_or_the_failure() {
    let items = parallel_outcomes(Ok(vec![Ok(Report::End { id: "a".into(), time: at(1), dur: dur() })]));
    assert_eq!(1, items.len());
    let failed = parallel_outcomes(Err(Report::Error { id: "z".into(), time: at(1), dur: dur() }));
    assert_eq!(1, failed.len());
    assert!(failed[0].is_err());
}
