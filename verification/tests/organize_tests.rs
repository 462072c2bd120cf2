//! Tests of the organize pipeline: bucket fragments, destination paths,
//! sequence numbering, and the planning of moves.

use fileman_rs::organize::{
    bucket_dir, bucket_fragment, decimal_string, destination, extension_of, CreationDate,
    OrganizeTask, SequenceCache,
};
use fileman_rs::OrganizeError;

fn task_with_target(target: &str) -> OrganizeTask {
    OrganizeTask {
        source: String::from("./src"),
        target: String::from(target),
    }
}

#[test]
fn bucket_fragment_pads_year_and_month() {
    let d = CreationDate { year: 2023, month: 3 };
    assert_eq!(bucket_fragment(&d), "2023/2023-03");

    let early = CreationDate { year: 7, month: 12 };
    assert_eq!(bucket_fragment(&early), "0007/0007-12");
}

#[test]
fn bucket_fragment_negative_year_keeps_sign() {
    let d = CreationDate { year: -5, month: 7 };
    assert_eq!(bucket_fragment(&d), "-0005/-0005-07");
}

#[test]
fn bucket_dir_joins_target_and_fragment() {
    let d = CreationDate { year: 2024, month: 1 };
    assert_eq!(bucket_dir("target", &d), "target/2024/2024-01");
}

#[test]
fn decimal_string_renders_plain_decimal() {
    assert_eq!(decimal_string(0), "0");
    assert_eq!(decimal_string(7), "7");
    assert_eq!(decimal_string(123), "123");
    assert_eq!(decimal_string(1000), "1000");
}

#[test]
fn extension_of_reads_the_final_suffix() {
    assert_eq!(extension_of("photo.JPG"), Some(String::from("JPG")));
    assert_eq!(extension_of("dir/archive.tar.gz"), Some(String::from("gz")));
    assert_eq!(extension_of("README"), None);
    assert_eq!(extension_of("dir.d/README"), None);
    assert_eq!(extension_of(".bashrc"), None);
    assert_eq!(extension_of("trailing."), Some(String::from("")));
}

#[test]
fn destination_keeps_extension_verbatim() {
    let d = CreationDate { year: 2023, month: 3 };
    assert_eq!(
        destination("target", &d, 4, "photo.JPG"),
        "target/2023/2023-03/2023-03_4.JPG"
    );
}

#[test]
fn destination_without_extension_has_no_trailing_dot() {
    let d = CreationDate { year: 2023, month: 3 };
    assert_eq!(
        destination("target", &d, 5, "README"),
        "target/2023/2023-03/2023-03_5"
    );
}

#[test]
fn sequence_cache_starts_empty_and_advances() {
    let d = CreationDate { year: 2024, month: 1 };
    let other = CreationDate { year: 2024, month: 2 };
    let mut cache = SequenceCache::new();

    assert_eq!(cache.lookup(&d), None);

    cache.set(d, 3);
    assert_eq!(cache.lookup(&d), Some(3));
    assert_eq!(cache.lookup(&other), None);

    cache.set(d, 4);
    assert_eq!(cache.lookup(&d), Some(4));
}

#[test]
fn fresh_bucket_numbers_run_from_zero() {
    // A target that does not exist on disk: the first file creates the
    // bucket, and the files of one run get the numbers 0, 1, 2.
    let task = task_with_target("./no_such_target_dir");
    let d = CreationDate { year: 2024, month: 1 };
    let mut cache = SequenceCache::new();

    let p0 = task
        .plan_move_dated(&mut cache, &String::from("a.txt"), &d)
        .unwrap();
    let p1 = task
        .plan_move_dated(&mut cache, &String::from("b.txt"), &d)
        .unwrap();
    let p2 = task
        .plan_move_dated(&mut cache, &String::from("c.txt"), &d)
        .unwrap();

    assert_eq!((p0.seq, p1.seq, p2.seq), (0, 1, 2));
    assert!(p0.create_dir);
    assert!(!p1.create_dir);
    assert!(!p2.create_dir);
    assert_eq!(p0.dest, "./no_such_target_dir/2024/2024-01/2024-01_0.txt");
    assert_eq!(p1.dest, "./no_such_target_dir/2024/2024-01/2024-01_1.txt");
    assert_eq!(p2.dest, "./no_such_target_dir/2024/2024-01/2024-01_2.txt");
}

#[test]
fn seeded_bucket_continues_from_count() {
    // A bucket whose counter was already seeded (here at 4) hands out 4 and
    // then 5, and no later call reseeds it.
    let task = task_with_target("target");
    let d = CreationDate { year: 2023, month: 3 };
    let mut cache = SequenceCache::new();
    cache.set(d, 4);

    let p = task
        .plan_move_dated(&mut cache, &String::from("photo.JPG"), &d)
        .unwrap();
    assert_eq!(p.seq, 4);
    assert!(!p.create_dir);
    assert_eq!(p.dest, "target/2023/2023-03/2023-03_4.JPG");

    let p2 = task
        .plan_move_dated(&mut cache, &String::from("README"), &d)
        .unwrap();
    assert_eq!(p2.seq, 5);
    assert!(!p2.create_dir);
    assert_eq!(p2.dest, "target/2023/2023-03/2023-03_5");
}

#[test]
fn buckets_are_counted_independently() {
    let task = task_with_target("./no_such_target_dir");
    let january = CreationDate { year: 2024, month: 1 };
    let february = CreationDate { year: 2024, month: 2 };
    let mut cache = SequenceCache::new();

    let p0 = task
        .plan_move_dated(&mut cache, &String::from("a.txt"), &january)
        .unwrap();
    let p1 = task
        .plan_move_dated(&mut cache, &String::from("b.txt"), &february)
        .unwrap();
    let p2 = task
        .plan_move_dated(&mut cache, &String::from("c.txt"), &january)
        .unwrap();

    assert_eq!((p0.seq, p1.seq, p2.seq), (0, 0, 1));
    assert_eq!(p1.dest, "./no_such_target_dir/2024/2024-02/2024-02_0.txt");
}

#[test]
fn end_to_end_plans_for_two_files_same_date() {
    // Two files with the same creation date land in one bucket of an empty
    // target, as 2024-01_0.txt and 2024-01_1.txt.
    let task = task_with_target("./empty_target_dir_that_does_not_exist");
    let d = CreationDate { year: 2024, month: 1 };
    let mut cache = SequenceCache::new();

    let pa = task
        .plan_move_dated(&mut cache, &String::from("a.txt"), &d)
        .unwrap();
    let pb = task
        .plan_move_dated(&mut cache, &String::from("b.txt"), &d)
        .unwrap();

    assert_eq!(
        pa.dest,
        "./empty_target_dir_that_does_not_exist/2024/2024-01/2024-01_0.txt"
    );
    assert_eq!(
        pb.dest,
        "./empty_target_dir_that_does_not_exist/2024/2024-01/2024-01_1.txt"
    );
}

#[test]
fn plan_move_reads_a_real_creation_date() {
    // Planned against a real file. On a filesystem that records creation
    // times the plan must carry a plausible calendar date and the file's
    // extension; on one that does not, the only allowed outcome is a
    // metadata error naming the file — never a fallback.
    let task = task_with_target("tgt");
    let mut cache = SequenceCache::new();
    let file = String::from("./Cargo.toml");

    match task.plan_move(&mut cache, &file) {
        Ok(p) => {
            assert!((1..=12).contains(&p.date.month));
            assert!(p.dest.starts_with("tgt/"));
            assert!(p.dest.ends_with(".toml"));
            assert_eq!(p.seq, 0);
        }
        Err(err) => {
            assert!(matches!(err, OrganizeError::Metadata(p) if p == "./Cargo.toml"));
        }
    }
}

#[test]
fn plan_move_missing_file_is_a_metadata_error() {
    let task = task_with_target("tgt");
    let mut cache = SequenceCache::new();
    let file = String::from("./no_such_file_anywhere.txt");

    let err = task.plan_move(&mut cache, &file).unwrap_err();

    assert!(matches!(err, OrganizeError::Metadata(p) if p == "./no_such_file_anywhere.txt"));
}
