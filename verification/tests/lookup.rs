use cb2_core::input::{Input, TaskDef};
use cb2_core::strmap::StrMap;
use cb2_core::task_lookup::{select, select_within, validate, validate_seq, validate_within, PathItem, TaskError, TaskLookup};
use cb2_core::task_lookup_error::print;

fn input() -> Input {
    let mut tasks = StrMap::new();
    tasks.insert("build".to_string(), TaskDef::CmdString("@lint".to_string()));
    tasks.insert(
        "lint".to_string(),
        TaskDef::TaskObj { command: "eslint .".to_string(), env: None },
    );
    tasks.insert(
        "all".to_string(),
        TaskDef::TaskSeq(vec![
            TaskDef::CmdString("echo hi".to_string()),
            TaskDef::TaskSeq(vec![TaskDef::CmdString("@build".to_string())]),
            TaskDef::CmdString("@missing".to_string()),
        ]),
    );
    Input { tasks }
}

fn path_text(path: &Vec<PathItem>) -> Vec<String> {
    path.iter().map(|p| p.to_display_string()).collect()
}

#[test]
fn select_finds_reference_chains() {
    let input = input();
    match select(&input, &vec!["build"]) {
        Ok(lookups) => {
            assert_eq!(1, lookups.len());
            match &lookups[0] {
                TaskLookup::Found { target, path } => {
                    assert_eq!("build", target);
                    assert_eq!(vec!["`build`", "`lint`"], path_text(path));
                }
                other => panic!("unexpected {:?}", other),
            }
        }
        Err(_) => panic!("expected Ok"),
    }
}

#[test]
fn select_reports_the_first_missing_reference() {
    let input = input();
    match select(&input, &vec!["lint", "all"]) {
        Err(TaskError::Invalid(lookups)) => {
            assert_eq!(2, lookups.len());
            assert!(matches!(lookups[0], TaskLookup::Found { .. }));
            match &lookups[1] {
                TaskLookup::NotFound { target, path } => {
                    assert_eq!("all", target);
                    assert_eq!(vec!["`all`", "[index: 2]", "`missing`"], path_text(path));
                    let msg = print(target, path);
                    assert!(msg.contains("Resolution for `all` failed."));
                    assert!(msg.ends_with("The error occured because task `missing` could not be found\n    "));
                }
                other => panic!("unexpected {:?}", other),
            }
            let err = TaskError::Invalid(lookups);
            let shown = err.to_display_string();
            let expected = print(&"all".to_string(), &vec![
                PathItem::String("all".into()),
                PathItem::Index(2),
                PathItem::String("missing".into()),
            ]);
            // One message per lookup, joined by newlines; a found lookup shows nothing.
            assert_eq!(format!("\n{}", expected), shown);
        }
        _ => panic!("expected an invalid selection"),
    }
}

#[test]
fn unknown_name_is_not_found() {
    let input = input();
    let l = validate(&input, "nope", "nope", vec![]);
    match l {
        TaskLookup::NotFound { target, path } => {
            assert_eq!("nope", target);
            assert_eq!(vec!["`nope`"], path_text(&path));
        }
        other => panic!("unexpected {:?}", other),
    }
}

#[test]
fn validate_extends_the_given_path() {
    let input = input();
    let l = validate(&input, "top", "lint", vec![PathItem::String("top".into()), PathItem::Index(4)]);
    match l {
        TaskLookup::Found { target, path } => {
            assert_eq!("top", target);
            assert_eq!(vec!["`top`", "[index: 4]", "`lint`"], path_text(&path));
        }
        other => panic!("unexpected {:?}", other),
    }
}

#[test]
fn yaml_errors_show_their_message() {
    let e = serde_yaml::from_str::<Vec<i32>>("[1, 2").unwrap_err();
    let expected = e.to_string();
    assert_eq!(expected, TaskError::Serde(e).to_display_string());
}

fn cyclic_input() -> Input {
    let mut tasks = StrMap::new();
    tasks.insert("ping".to_string(), TaskDef::CmdString("@pong".to_string()));
    tasks.insert("pong".to_string(), TaskDef::CmdString("@ping".to_string()));
    tasks.insert("ok".to_string(), TaskDef::CmdString("echo ok".to_string()));
    tasks.insert("blank".to_string(), TaskDef::CmdString("".to_string()));
    Input { tasks }
}

#[test]
fn validate_within_gives_up_on_a_cycle() {
    let input = cyclic_input();
    assert!(validate_within(&input, "ping", "ping", vec![], 50).is_none());
    assert!(validate_within(&input, "blank", "blank", vec![], 50).is_none());
    match validate_within(&input, "ok", "ok", vec![], 50) {
        Some(TaskLookup::Found { target, path }) => {
            assert_eq!("ok", target);
            assert_eq!(vec!["`ok`"], path_text(&path));
        }
        other => panic!("unexpected {:?}", other),
    }
}

#[test]
fn validate_within_agrees_with_validate_once_deep_enough() {
    let input = input();
    assert!(validate_within(&input, "all", "all", vec![], 2).is_none());
    let bounded = validate_within(&input, "all", "all", vec![], 20).expect("deep enough");
    let full = validate(&input, "all", "all", vec![]);
    match (bounded, full) {
        (TaskLookup::NotFound { path: a, .. }, TaskLookup::NotFound { path: b, .. }) => {
            assert_eq!(path_text(&a), path_text(&b));
            assert_eq!(vec!["`all`", "[index: 2]", "`missing`"], path_text(&a));
        }
        other => panic!("unexpected {:?}", other),
    }
}

#[test]
fn validate_seq_reports_the_first_missing_item() {
    let input = input();
    let seq = vec![
        TaskDef::CmdString("@lint".to_string()),
        TaskDef::CmdString("@nope".to_string()),
        TaskDef::CmdString("@gone".to_string()),
    ];
    match validate_seq(&input, "top", "top", &seq, vec![PathItem::String("top".to_string())]) {
        TaskLookup::NotFound { target, path } => {
            assert_eq!("top", target);
            assert_eq!(vec!["`top`", "[index: 1]", "`nope`"], path_text(&path));
        }
        other => panic!("unexpected {:?}", other),
    }
    let ok = vec![TaskDef::CmdString("echo".to_string())];
    match validate_seq(&input, "top", "top", &ok, vec![PathItem::String("top".to_string())]) {
        TaskLookup::Found { path, .. } => assert_eq!(vec!["`top`"], path_text(&path)),
        other => panic!("unexpected {:?}", other),
    }
}

#[test]
fn select_within_needs_every_name_to_end() {
    let input = cyclic_input();
    assert!(select_within(&input, &vec!["ok", "ping"], 30).is_none());
    match select_within(&input, &vec!["ok"], 30) {
        Some(Ok(lookups)) => assert_eq!(1, lookups.len()),
        other => panic!("unexpected {:?}", other),
    }
    let input = self::input();
    assert!(matches!(select_within(&input, &vec!["all"], 30), Some(Err(TaskError::Invalid(_)))));
}
