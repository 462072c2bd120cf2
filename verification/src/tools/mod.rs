//! Directory traversal tools: recursive file collection and the
//! non-recursive file count used to seed a bucket.
//!
//! What the disk answers is outside the library, so the routing and counting
//! of the answers is factored into functions with exact contracts
//! (`route_entries`, `count_true`): given the entries of one directory and
//! their classifications, what joins the walk, what is emitted, and what is
//! counted is fully pinned down.

use vstd::prelude::*;

verus! {

use crate::OrganizeError;
use crate::fs_io;

/// The items whose flag equals `keep`, in their original order.
pub open spec fn selected(items: Seq<String>, flags: Seq<bool>, keep: bool) -> Seq<String>
    decreases items.len(),
{
    if items.len() == 0 {
        Seq::empty()
    } else if flags[items.len() - 1] == keep {
        selected(items.drop_last(), flags.drop_last(), keep) + seq![items.last()]
    } else {
        selected(items.drop_last(), flags.drop_last(), keep)
    }
}

/// How many of the flags are set.
pub open spec fn count_trues(flags: Seq<bool>) -> nat
    decreases flags.len(),
{
    if flags.len() == 0 {
        0
    } else {
        count_trues(flags.drop_last()) + if flags.last() {
            1nat
        } else {
            0
        }
    }
}

/// Routes one directory's entries by their classification: an entry flagged
/// `true` joins `dirs` (the walk's worklist), any other entry is a found file
/// and joins `files`; nothing else is appended and nothing is dropped.
pub fn route_entries(
    items: Vec<String>,
    flags: Vec<bool>,
    files: &mut Vec<String>,
    dirs: &mut Vec<String>,
)
    requires
        items@.len() == flags@.len(),
    ensures
        final(files)@ == old(files)@ + selected(items@, flags@, false),
        final(dirs)@ == old(dirs)@ + selected(items@, flags@, true),
{
    let mut i: usize = 0;
    while i < items.len()
        invariant
            i <= items@.len(),
            items@.len() == flags@.len(),
            files@ == old(files)@ + selected(items@.take(i as int), flags@.take(i as int), false),
            dirs@ == old(dirs)@ + selected(items@.take(i as int), flags@.take(i as int), true),
        decreases items@.len() - i,
    {
        proof {
            assert(items@.take(i + 1).drop_last() =~= items@.take(i as int));
            assert(flags@.take(i + 1).drop_last() =~= flags@.take(i as int));
            assert(items@.take(i + 1).last() == items@[i as int]);
            assert(flags@.take(i + 1).last() == flags@[i as int]);
        }
        let item = items[i].clone();
        if flags[i] {
            dirs.push(item);
            proof {
                assert(dirs@ =~= old(dirs)@ + selected(
                    items@.take(i + 1),
                    flags@.take(i + 1),
                    true,
                ));
            }
        } else {
            files.push(item);
            proof {
                assert(files@ =~= old(files)@ + selected(
                    items@.take(i + 1),
                    flags@.take(i + 1),
                    false,
                ));
            }
        }
        i = i + 1;
    }
    proof {
        assert(items@.take(items@.len() as int) =~= items@);
        assert(flags@.take(flags@.len() as int) =~= flags@);
    }
}

/// Counts the set flags.
pub fn count_true(flags: &Vec<bool>) -> (n: usize)
    requires
        flags@.len() < usize::MAX,
    ensures
        n as nat == count_trues(flags@),
        n <= flags@.len(),
{
    let mut n: usize = 0;
    let mut i: usize = 0;
    while i < flags.len()
        invariant
            i <= flags@.len(),
            n <= i,
            n as nat == count_trues(flags@.take(i as int)),
        decreases flags@.len() - i,
    {
        proof {
            assert(flags@.take(i + 1).drop_last() =~= flags@.take(i as int));
            assert(flags@.take(i + 1).last() == flags@[i as int]);
        }
        if flags[i] {
            n = n + 1;
        }
        i = i + 1;
    }
    proof {
        assert(flags@.take(flags@.len() as int) =~= flags@);
    }
    n
}

proof fn lemma_selected_elements(items: Seq<String>, flags: Seq<bool>, keep: bool)
    requires
        items.len() == flags.len(),
    ensures
        forall|k: int|
            0 <= k < selected(items, flags, keep).len() ==> items.contains(
                #[trigger] selected(items, flags, keep)[k],
            ),
    decreases items.len(),
{
    if items.len() > 0 {
        lemma_selected_elements(items.drop_last(), flags.drop_last(), keep);
        let s = selected(items, flags, keep);
        let sd = selected(items.drop_last(), flags.drop_last(), keep);
        assert forall|k: int| 0 <= k < s.len() implies items.contains(#[trigger] s[k]) by {
            if k < sd.len() {
                assert(s[k] == sd[k]);
                let j = choose|j: int|
                    0 <= j < items.drop_last().len() && items.drop_last()[j] == sd[k];
                assert(items[j] == sd[k]);
            } else {
                assert(s[k] == items.last());
                assert(items[items.len() - 1] == items.last());
            }
        }
    }
}

proof fn lemma_prefix_transitive(a: Seq<char>, b: Seq<char>, c: Seq<char>)
    requires
        a.is_prefix_of(b),
        b.is_prefix_of(c),
    ensures
        a.is_prefix_of(c),
{
    assert(a =~= c.subrange(0, a.len() as int));
}

/// Asks the disk, for each entry, whether it is a directory at this moment.
fn classify_dirs(items: &Vec<String>) -> (flags: Vec<bool>)
    ensures
        flags@.len() == items@.len(),
{
    let mut flags: Vec<bool> = Vec::new();
    let mut i: usize = 0;
    while i < items.len()
        invariant
            i <= items@.len(),
            flags@.len() == i,
        decreases items@.len() - i,
    {
        flags.push(fs_io::path_is_dir(&items[i]));
        i = i + 1;
    }
    flags
}

/// Asks the disk, for each entry, whether it is a regular file at this moment.
fn classify_files(items: &Vec<String>) -> (flags: Vec<bool>)
    ensures
        flags@.len() == items@.len(),
{
    let mut flags: Vec<bool> = Vec::new();
    let mut i: usize = 0;
    while i < items.len()
        invariant
            i <= items@.len(),
            flags@.len() == i,
        decreases items@.len() - i,
    {
        flags.push(fs_io::path_is_file(&items[i]));
        i = i + 1;
    }
    flags
}

/// Collects every regular file under `path`, descending into directories
/// depth first, and appends the found paths to `vec` in no guaranteed order.
///
/// The walk reads the directory tree as it stands at the time of each call,
/// so the contract pins what holds of every outcome: found paths are appended
/// in place, the entries already in `vec` are kept, every appended path lies
/// strictly under `path`, and the walk stops with a traversal error at the
/// first directory it cannot read. How one directory's listing is split
/// between found files and further descent is exact: see `route_entries`.
/// The walk visits at most usize::MAX directories, which bounds the loop;
/// only a cyclic link structure could reach that bound, and it too ends in a
/// traversal error rather than an endless walk.
pub fn collect_files(path: &String, vec: &mut Vec<String>) -> (r: Result<(), OrganizeError>)
    ensures
        old(vec)@.is_prefix_of(final(vec)@),
        forall|i: int|
            old(vec)@.len() <= i < final(vec)@.len() ==> path@.is_prefix_of(
                (#[trigger] final(vec)@[i])@,
            ) && final(vec)@[i]@.len() > path@.len(),
        r matches Err(e) ==> (e matches OrganizeError::Traversal(p) && path@.is_prefix_of(p@)),
{
    let mut dirs: Vec<String> = Vec::new();
    dirs.push(path.clone());
    proof {
        assert(path@ =~= path@.subrange(0, path@.len() as int));
    }
    let mut budget: usize = usize::MAX;
    while dirs.len() > 0
        invariant
            old(vec)@.is_prefix_of(vec@),
            forall|i: int|
                old(vec)@.len() <= i < vec@.len() ==> path@.is_prefix_of(
                    (#[trigger] vec@[i])@,
                ) && vec@[i]@.len() > path@.len(),
            forall|i: int| 0 <= i < dirs@.len() ==> path@.is_prefix_of((#[trigger] dirs@[i])@),
        decreases budget,
    {
        if budget == 0 {
            proof {
                assert(path@ =~= path@.subrange(0, path@.len() as int));
            }
            return Err(OrganizeError::Traversal(path.clone()));
        }
        budget = budget - 1;
        let d = dirs.pop().unwrap();
        match fs_io::list_dir(&d) {
            None => {
                return Err(OrganizeError::Traversal(d));
            },
            Some(items) => {
                let flags = classify_dirs(&items);
                let ghost vec_before = vec@;
                let ghost dirs_before = dirs@;
                proof {
                    lemma_selected_elements(items@, flags@, false);
                    lemma_selected_elements(items@, flags@, true);
                    assert forall|j: int| 0 <= j < items@.len() implies path@.is_prefix_of(
                        (#[trigger] items@[j])@,
                    ) && items@[j]@.len() > path@.len() by {
                        lemma_prefix_transitive(path@, d@, items@[j]@);
                    }
                }
                route_entries(items, flags, vec, &mut dirs);
                proof {
                    assert forall|i: int|
                        old(vec)@.len() <= i < vec@.len() implies path@.is_prefix_of(
                        (#[trigger] vec@[i])@,
                    ) && vec@[i]@.len() > path@.len() by {
                        if i >= vec_before.len() {
                            let s = selected(items@, flags@, false);
                            assert(vec@[i] == s[i - vec_before.len()]);
                            let j = choose|j: int|
                                0 <= j < items@.len() && items@[j] == s[i - vec_before.len()];
                            assert(path@.is_prefix_of(items@[j]@));
                        }
                    }
                    assert forall|i: int| 0 <= i < dirs@.len() implies path@.is_prefix_of(
                        (#[trigger] dirs@[i])@,
                    ) by {
                        if i >= dirs_before.len() {
                            let s = selected(items@, flags@, true);
                            assert(dirs@[i] == s[i - dirs_before.len()]);
                            let j = choose|j: int|
                                0 <= j < items@.len() && items@[j] == s[i - dirs_before.len()];
                            assert(path@.is_prefix_of(items@[j]@));
                        }
                    }
                }
            },
        }
    }
    Ok(())
}

/// Counts the regular files directly inside `path`, without descending into
/// subdirectories: exactly the listed entries the disk classifies as regular
/// files are counted (see `count_true`).
///
/// The count reflects the directory as listed at call time; a directory that
/// cannot be listed yields a seed-count error naming it.
pub fn get_num_files(path: &String) -> (r: Result<usize, OrganizeError>)
    ensures
        r matches Ok(n) ==> n < usize::MAX,
        r matches Err(e) ==> e matches OrganizeError::SeedCount(p) && p@ == path@,
{
    let items = match fs_io::list_dir(path) {
        Some(items) => items,
        None => {
            return Err(OrganizeError::SeedCount(path.clone()));
        },
    };
    let flags = classify_files(&items);
    Ok(count_true(&flags))
}

} // verus!
