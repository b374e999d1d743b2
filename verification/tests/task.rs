use cb2_core::input::{Input, TaskDef};
use cb2_core::parent::TaskParent;
use cb2_core::report::SimpleReport;
use cb2_core::strmap::StrMap;
use cb2_core::task::{to_archy_nodes, Name, RunMode, Task};
use cb2_core::ids::{task_id_from, uuid};

fn input() -> Input {
    let mut tasks = StrMap::new();
    tasks.insert("build".to_string(), TaskDef::CmdString("@lint".to_string()));
    tasks.insert(
        "lint".to_string(),
        TaskDef::TaskObj { command: "eslint .".to_string(), env: None },
    );
    tasks.insert(
        "all".to_string(),
        TaskDef::TaskSeq(vec![
            TaskDef::CmdString("echo hi".to_string()),
            TaskDef::TaskSeq(vec![TaskDef::CmdString("@build".to_string())]),
        ]),
    );
    Input { tasks }
}

fn is_id(s: &str) -> bool {
    s.len() == 8 && s.chars().all(|c| c.is_ascii_digit() || ('a'..='f').contains(&c))
}

fn time() -> chrono::NaiveDateTime {
    chrono::NaiveDate::from_ymd_opt(2020, 1, 1).unwrap().and_hms_opt(0, 0, 0).unwrap()
}

#[test]
fn ids_are_eight_hex_digits() {
    for _ in 0..20 {
        assert!(is_id(&uuid()));
    }
}

#[test]
fn from_string_makes_an_item() {
    let input = input();
    match Task::from_string("echo hi", Some(Name::String("greet".into())), &input) {
        Task::Item(item) => {
            assert_eq!("echo hi", item.cmd);
            assert!(!item.fail);
            assert!(matches!(item.name, Some(Name::String(ref s)) if s == "greet"));
            assert!(is_id(&item.id));
        }
        other => panic!("unexpected {:?}", other),
    }
}

#[test]
fn references_resolve_to_the_named_task() {
    let input = input();
    match Task::get_task_item(&input, "build") {
        Task::Item(item) => {
            assert_eq!("eslint .", item.cmd);
            assert!(matches!(item.name, Some(Name::Alias(ref a)) if a == "lint"));
        }
        other => panic!("unexpected {:?}", other),
    }
}

#[test]
fn sequences_become_groups() {
    let input = input();
    match Task::get_task_item(&input, "all") {
        Task::Group(group) => {
            assert_eq!(RunMode::Series, group.run_mode);
            assert!(group.fail);
            assert!(matches!(group.name, Some(Name::Alias(ref a)) if a == "all"));
            assert_eq!(2, group.items.len());
            assert!(matches!(&group.items[0], Task::Item(i) if i.cmd == "echo hi" && i.name.is_none()));
            match &group.items[1] {
                Task::Group(inner) => {
                    assert_eq!(RunMode::Parallel, inner.run_mode);
                    assert!(inner.name.is_none());
                    assert_eq!(1, inner.items.len());
                }
                other => panic!("unexpected {:?}", other),
            }
        }
        other => panic!("unexpected {:?}", other),
    }
}

#[test]
fn from_seq_keeps_run_mode_and_alias() {
    let input = input();
    let t = Task::from_seq(
        vec![TaskDef::CmdString("a".into()), TaskDef::CmdString("b".into())],
        None,
        RunMode::Parallel,
        &input,
    );
    match t {
        Task::Group(g) => {
            assert_eq!(RunMode::Parallel, g.run_mode);
            assert!(g.fail);
            assert_eq!(2, g.items.len());
        }
        other => panic!("unexpected {:?}", other),
    }
}

#[test]
fn generated_groups_name_their_inputs() {
    let input = input();
    let names = vec!["build", "lint"];
    match Task::generate_series(&input, &names) {
        Task::Group(g) => {
            assert_eq!(RunMode::Series, g.run_mode);
            assert!(g.fail);
            assert_eq!(2, g.items.len());
            assert!(matches!(g.name, Some(Name::String(ref s)) if s == "Input: \x1b[33mbuild, lint\x1b[0m "));
        }
        other => panic!("unexpected {:?}", other),
    }
    match Task::generate_par(&input, &names) {
        Task::Group(g) => {
            assert_eq!(RunMode::Parallel, g.run_mode);
            assert!(!g.fail);
            assert_eq!(2, g.items.len());
            assert!(matches!(g.name, Some(Name::String(ref s)) if s == "Input: build, lint "));
        }
        other => panic!("unexpected {:?}", other),
    }
}

#[test]
fn names_and_run_modes_are_shown_with_styles() {
    assert_eq!("@\x1b[1mbuild\x1b[0m", Name::Alias("build".into()).to_display_string());
    assert_eq!("plain", Name::String("plain".into()).to_display_string());
    assert_eq!("", Name::Empty.to_display_string());
    assert_eq!("\x1b[34m<series>\x1b[0m", RunMode::Series.to_display_string());
    assert_eq!("\x1b[34m<parallel>\x1b[0m", RunMode::Parallel.to_display_string());
}

#[test]
fn tree_shows_status_of_each_task() {
    let input = input();
    let t = Task::get_task_item(&input, "all");
    let (group_id, first_id) = match &t {
        Task::Group(g) => match &g.items[0] {
            Task::Item(i) => (g.id.clone(), i.id.clone()),
            _ => panic!(),
        },
        _ => panic!(),
    };
    let mut reports = StrMap::new();
    reports.insert(first_id.clone(), SimpleReport::Success { id: first_id.clone(), time: time() });
    reports.insert(group_id.clone(), SimpleReport::Failure { id: group_id.clone(), time: time() });
    let shown = t.get_tree(&reports);
    let expected = "\x1b[31mx\x1b[0m @\x1b[1mall\x1b[0m \x1b[34m<series>\x1b[0m\n\
├── \x1b[32m\u{2713}\x1b[0m echo hi\n\
└─┬ \x1b[33m-\x1b[0m \x1b[34m<parallel>\x1b[0m\n  \
  └── \x1b[33m-\x1b[0m @\x1b[1mlint\x1b[0m:\n      eslint .\n";
    assert_eq!(expected, shown);
}

#[test]
fn item_tree_is_one_line() {
    let input = input();
    let t = Task::from_string("ls", None, &input);
    let reports = StrMap::new();
    assert_eq!("\x1b[33m-\x1b[0m ls", t.get_tree(&reports));
}

#[test]
fn parent_has_fixed_id() {
    assert_eq!("123456", TaskParent::new().id);
}

#[test]
fn task_id_is_the_first_group_of_the_uuid() {
    assert_eq!("0123abcd", task_id_from("0123abcd-4567-89ef-0123-456789abcdef"));
}

#[test]
fn a_reference_drops_the_alias_asked_for() {
    let input = input();
    match Task::from_string("@lint", Some(Name::String("ignored".into())), &input) {
        Task::Item(item) => {
            assert_eq!("eslint .", item.cmd);
            assert!(matches!(item.name, Some(Name::Alias(ref a)) if a == "lint"));
        }
        other => panic!("unexpected {:?}", other),
    }
}

#[test]
fn sequence_items_are_built_as_from_string_builds_them() {
    let input = input();
    let seq = vec![
        TaskDef::CmdString("@build".to_string()),
        TaskDef::TaskObj { command: "make".to_string(), env: None },
    ];
    let group = match Task::from_seq(seq, None, RunMode::Series, &input) {
        Task::Group(g) => g,
        other => panic!("unexpected {:?}", other),
    };
    assert_eq!(2, group.items.len());
    let first = Task::from_string("@build", None, &input);
    match (&group.items[0], &first) {
        (Task::Item(a), Task::Item(b)) => {
            assert_eq!(a.cmd, b.cmd);
            assert!(matches!(a.name, Some(Name::Alias(ref n)) if n == "lint"));
        }
        other => panic!("unexpected {:?}", other),
    }
    match &group.items[1] {
        Task::Item(item) => {
            assert_eq!("make", item.cmd);
            assert!(item.name.is_none());
        }
        other => panic!("unexpected {:?}", other),
    }
}

fn cyclic_input() -> Input {
    let mut tasks = StrMap::new();
    tasks.insert("ping".to_string(), TaskDef::CmdString("@pong".to_string()));
    tasks.insert("pong".to_string(), TaskDef::CmdString("@ping".to_string()));
    Input { tasks }
}

#[test]
fn building_within_a_depth_gives_up_on_cycles_and_missing_names() {
    let input = cyclic_input();
    assert!(Task::get_task_item_within(&input, "ping", 40).is_none());
    assert!(Task::get_task_item_within(&input, "nothing", 40).is_none());
    assert!(Task::from_string_within("@ping", None, &input, 40).is_none());
    assert!(Task::from_string_within("", None, &input, 40).is_none());
    assert!(Task::from_seq_within(vec![TaskDef::CmdString("@pong".to_string())], None, RunMode::Series, &input, 40).is_none());
}

#[test]
fn building_within_a_depth_builds_what_ends() {
    let input = input();
    match Task::get_task_item_within(&input, "all", 20) {
        Some(Task::Group(g)) => {
            assert_eq!(2, g.items.len());
            assert_eq!(RunMode::Series, g.run_mode);
        }
        other => panic!("unexpected {:?}", other),
    }
    assert!(Task::get_task_item_within(&input, "all", 1).is_none());
    match Task::from_string_within("echo", None, &input, 1) {
        Some(Task::Item(item)) => assert_eq!("echo", item.cmd),
        other => panic!("unexpected {:?}", other),
    }
    match Task::from_seq_within(vec![TaskDef::CmdString("@lint".to_string())], None, RunMode::Parallel, &input, 10) {
        Some(Task::Group(g)) => assert_eq!(RunMode::Parallel, g.run_mode),
        other => panic!("unexpected {:?}", other),
    }
}

#[test]
fn archy_nodes_follow_the_task_tree() {
    let input = input();
    let all = match Task::get_task_item(&input, "all") {
        Task::Group(g) => g,
        other => panic!("unexpected {:?}", other),
    };
    let reports: StrMap<SimpleReport> = StrMap::new();
    let nodes = to_archy_nodes(&all.items, &reports);
    assert_eq!(2, nodes.len());
    assert!(nodes[0].label.ends_with("echo hi"));
    assert!(nodes[0].nodes.is_empty());
    assert_eq!(1, nodes[1].nodes.len());
}
