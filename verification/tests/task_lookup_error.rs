use cb2_core::task_lookup::PathItem;
use cb2_core::task_lookup_error::{print, print_path};

#[test]
fn test_print_path() {
    let path_parts = vec![
        PathItem::String("build".into()),
        PathItem::Index(2),
        PathItem::String("echo hello".into()),
    ];
    let printed = print_path(&path_parts);
    println!("{}", printed);
}

#[test]
fn print_path_joins_steps_with_arrows() {
    let path_parts = vec![
        PathItem::String("build".into()),
        PathItem::Index(2),
        PathItem::String("echo hello".into()),
    ];
    assert_eq!("`build` -> [index: 2] -> `echo hello`", print_path(&path_parts));
    assert_eq!("[index: 1024]", PathItem::Index(1024).to_display_string());
    assert_eq!("[index: 0]", PathItem::Index(0).to_display_string());
}

#[test]
fn print_names_the_target_and_the_missing_task() {
    let path = vec![PathItem::String("build".into()), PathItem::Index(0), PathItem::String("lint".into())];
    let msg = print(&"build".to_string(), &path);
    let expected = "\nResolution for `build` failed.\n\nThis means that at some point you tried to reference a task name\nthat doesn't exist in your input.\n\nHere's the path I tried to resolve:\n\n    `build` -> [index: 0] -> `lint`\n\nThe error occured because task `lint` could not be found\n    ";
    assert_eq!(expected, msg);
}
