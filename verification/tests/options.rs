use cb2_core::options::{Options, ProgramStartError};

#[test]
fn test_from_args() {
    let input = Options::from_args(vec!["cb2".to_string(), "2".to_string(), "3".to_string()]).expect("opts from vec");
    assert_eq!(
        Options{
            tasks: vec!["2".into(), "3".into()]
        },
        input
    )
}

#[test]
fn from_args_without_tasks_is_invalid() {
    match Options::from_args(vec!["cb2".to_string()]) {
        Err(ProgramStartError::InvalidArgs) => {}
        Ok(o) => panic!("unexpected options {:?}", o),
    }
}

#[test]
fn from_parsed_keeps_the_task_values() {
    let o = Options::from_parsed(Ok(Some(vec!["a".to_string(), "b".to_string()]))).expect("accepted");
    assert_eq!(vec!["a".to_string(), "b".to_string()], o.tasks);
    let none = Options::from_parsed(Ok(None)).expect("accepted");
    assert!(none.tasks.is_empty());
    let err = clap::Error::with_description("bad", clap::ErrorKind::InvalidValue);
    assert!(matches!(Options::from_parsed(Err(err)), Err(ProgramStartError::InvalidArgs)));
}
