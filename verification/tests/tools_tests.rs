//! Tests of the traversal tools, run against this crate's own directory
//! tree: `src/tools` is a flat directory, `src` a nested one, and
//! `Cargo.toml` a path that is not a directory at all.

use fileman_rs::tools::{collect_files, count_true, get_num_files, route_entries};
use fileman_rs::OrganizeError;

#[test]
fn route_entries_splits_by_flag_and_keeps_order() {
    let items = vec![
        String::from("a"),
        String::from("b"),
        String::from("c"),
        String::from("d"),
    ];
    let flags = vec![true, false, true, false];
    let mut files = vec![String::from("f0")];
    let mut dirs = vec![String::from("d0")];

    route_entries(items, flags, &mut files, &mut dirs);

    assert_eq!(
        files,
        vec![String::from("f0"), String::from("b"), String::from("d")]
    );
    assert_eq!(
        dirs,
        vec![String::from("d0"), String::from("a"), String::from("c")]
    );
}

#[test]
fn count_true_counts_exactly_the_set_flags() {
    assert_eq!(count_true(&Vec::new()), 0);
    assert_eq!(count_true(&vec![false, false]), 0);
    assert_eq!(count_true(&vec![true, false, true, true, false]), 3);
}

#[test]
fn collect_files_invalid_dir() {
    let mut vec: Vec<String> = Vec::new();
    let path = String::from("./Cargo.toml");

    let test_result = collect_files(&path, &mut vec);

    assert!(test_result.is_err())
}

#[test]
fn collect_files_reports_traversal_error() {
    let mut vec: Vec<String> = Vec::new();
    let path = String::from("./Cargo.toml");

    let err = collect_files(&path, &mut vec).unwrap_err();

    assert!(matches!(err, OrganizeError::Traversal(p) if p == "./Cargo.toml"));
}

#[test]
fn collect_files_flat_dir() {
    let mut vec: Vec<String> = Vec::new();
    let path = String::from("./src/tools");
    let test_vec = vec![String::from("./src/tools/mod.rs")];

    collect_files(&path, &mut vec).unwrap();

    vec.sort();

    assert_eq!(vec, test_vec);
}

#[test]
fn collect_files_nested_dir() {
    let mut vec: Vec<String> = Vec::new();
    let path = String::from("./src");
    let test_vec = vec![
        String::from("./src/fs_io.rs"),
        String::from("./src/lib.rs"),
        String::from("./src/organize/mod.rs"),
        String::from("./src/tools/mod.rs"),
    ];

    collect_files(&path, &mut vec).unwrap();

    vec.sort();

    assert_eq!(vec, test_vec);
}

#[test]
fn collect_files_appends_to_existing_entries() {
    let mut vec: Vec<String> = vec![String::from("already-there")];
    let path = String::from("./src/tools");

    collect_files(&path, &mut vec).unwrap();

    assert_eq!(
        vec,
        vec![
            String::from("already-there"),
            String::from("./src/tools/mod.rs"),
        ]
    );
}

#[test]
fn get_num_files_flat_dir() {
    let path = String::from("./src/tools");

    let test_result = get_num_files(&path).unwrap();

    assert_eq!(test_result, 1);
}

#[test]
fn get_num_files_nested_dir() {
    // `src` holds two files directly; the files inside `src/organize` and
    // `src/tools` must not be counted.
    let path = String::from("./src");

    let test_result = get_num_files(&path).unwrap();

    assert_eq!(test_result, 2);
}

#[test]
fn get_num_files_invalid_dir() {
    // An existing path that is a regular file, not a directory.
    let path = String::from("./Cargo.toml");

    let test_result = get_num_files(&path);

    assert!(test_result.is_err())
}

#[test]
fn get_num_files_reports_seed_count_error() {
    let path = String::from("./Cargo.toml");

    let err = get_num_files(&path).unwrap_err();

    assert!(matches!(err, OrganizeError::SeedCount(p) if p == "./Cargo.toml"));
}
