//! Tests of the configuration layer: task selection and the validation of
//! the source and target directory arguments.

use fileman_rs::organize::OrganizeTask;
use fileman_rs::Config;

#[test]
fn config_new_organize_with_valid_args() {
    let args_1 = vec![String::from("./src"), String::from("./src/organize")];

    let organize_task = OrganizeTask::new(args_1).unwrap();

    let args_2 = vec![
        String::from("foo"),
        String::from("organize"),
        String::from("./src"),
        String::from("./src/organize"),
    ];

    assert_eq!(Config::new(args_2), Ok(Config::Organize(organize_task)))
}

#[test]
fn config_new_no_task() {
    let args = vec![String::from("foo")];

    assert!(Config::new(args).is_err());
}

#[test]
fn config_new_invalid_task() {
    let args = vec![String::from("foo"), String::from("bar")];
    assert!(Config::new(args).is_err());
}

#[test]
fn config_new_task_name_case_insensitive() {
    let args = vec![
        String::from("foo"),
        String::from("ORGANIZE"),
        String::from("./src"),
        String::from("./src/organize"),
    ];

    assert!(Config::new(args).is_ok());
}

#[test]
fn config_new_error_messages() {
    assert_eq!(Config::new(Vec::new()), Err("no task specified"));
    let args = vec![String::from("foo"), String::from("bar")];
    assert_eq!(
        Config::new(args),
        Err("provided task did not match any defined tasks")
    );
}

#[test]
fn organize_task_new_with_valid_args() {
    let mut all = vec![
        String::from("foo"),
        String::from("bar"),
        String::from("./src"),
        String::from("./src/organize"),
    ];

    // drop the two leading arguments the configuration layer consumes
    let args = all.split_off(2);

    let source = String::from("./src");

    let target = String::from("./src/organize");

    assert_eq!(OrganizeTask::new(args), Ok(OrganizeTask { source, target }));
}

#[test]
fn organize_task_new_source_not_provided() {
    let mut all = vec![String::from("foo"), String::from("bar")];

    let args = all.split_off(2);

    assert!(OrganizeTask::new(args).is_err())
}

#[test]
fn organize_task_new_source_is_not_dir() {
    let mut all = vec![
        String::from("foo"),
        String::from("bar"),
        String::from("not_a_dir"),
        String::from("./src/organize"),
    ];

    let args = all.split_off(2);

    assert!(OrganizeTask::new(args).is_err())
}

#[test]
fn organize_task_new_target_not_provided() {
    let mut all = vec![
        String::from("foo"),
        String::from("bar"),
        String::from("not_a_dir"),
    ];

    let args = all.split_off(2);

    assert!(OrganizeTask::new(args).is_err())
}

#[test]
fn organize_task_new_target_is_not_dir() {
    let mut all = vec![
        String::from("foo"),
        String::from("bar"),
        String::from("./src"),
        String::from("not_a_dir"),
    ];

    let args = all.split_off(2);

    assert!(OrganizeTask::new(args).is_err())
}

#[test]
fn organize_task_new_error_messages() {
    assert_eq!(
        OrganizeTask::new(Vec::new()),
        Err("no 'source' path provided")
    );
    assert_eq!(
        OrganizeTask::new(vec![String::from("not_a_dir")]),
        Err("'source' path does not correspond to a valid directory")
    );
    assert_eq!(
        OrganizeTask::new(vec![String::from("./src")]),
        Err("no 'target' path provided")
    );
    assert_eq!(
        OrganizeTask::new(vec![String::from("./src"), String::from("not_a_dir")]),
        Err("'target' path does not correspond to a valid directory")
    );
}
