//! Organizes files from a source directory into a target directory tree
//! bucketed by creation date, giving each file a sequential name within
//! its `YYYY/YYYY-MM` bucket.

use vstd::prelude::*;

mod fs_io;
pub mod organize;
pub mod tools;

verus! {

/// The errors an organize run can stop with; each names the path it failed on.
#[derive(Debug, PartialEq, Eq)]
pub enum OrganizeError {
    /// A path under the source could not be enumerated or classified.
    Traversal(String),
    /// A file's creation timestamp could not be read.
    Metadata(String),
    /// A bucket directory could not be created.
    DirCreation(String),
    /// An existing bucket directory could not be read while counting its files.
    SeedCount(String),
    /// The final rename of a file failed.
    Move(String),
}

use crate::organize::OrganizeTask;

/// A task the process entry point can run: performs the task's filesystem
/// effects and reports the first error encountered.
pub trait RunTask {
    fn run_task(&self) -> Result<(), OrganizeError>;
}

/// The configuration of one invocation; every task gets its own variant.
#[derive(Debug, PartialEq, Eq)]
pub enum Config {
    /// The organize task, regrouping files by creation date.
    Organize(OrganizeTask),
}

/// Whether `s` spells "organize" in ASCII letters of either case.
pub open spec fn spec_is_organize(s: Seq<char>) -> bool {
    &&& s.len() == 8
    &&& (s[0] == 'o' || s[0] == 'O')
    &&& (s[1] == 'r' || s[1] == 'R')
    &&& (s[2] == 'g' || s[2] == 'G')
    &&& (s[3] == 'a' || s[3] == 'A')
    &&& (s[4] == 'n' || s[4] == 'N')
    &&& (s[5] == 'i' || s[5] == 'I')
    &&& (s[6] == 'z' || s[6] == 'Z')
    &&& (s[7] == 'e' || s[7] == 'E')
}

fn is_organize_task(s: &str) -> (r: bool)
    ensures
        r == spec_is_organize(s@),
{
    let len = s.unicode_len();
    if len != 8 {
        return false;
    }
    let c0 = s.get_char(0);
    let c1 = s.get_char(1);
    let c2 = s.get_char(2);
    let c3 = s.get_char(3);
    let c4 = s.get_char(4);
    let c5 = s.get_char(5);
    let c6 = s.get_char(6);
    let c7 = s.get_char(7);
    (c0 == 'o' || c0 == 'O') && (c1 == 'r' || c1 == 'R') && (c2 == 'g' || c2 == 'G') && (c3 == 'a'
        || c3 == 'A') && (c4 == 'n' || c4 == 'N') && (c5 == 'i' || c5 == 'I') && (c6 == 'z' || c6
        == 'Z') && (c7 == 'e' || c7 == 'E')
}

impl Config {
    /// Builds the configuration from the process arguments: the first names
    /// the program and is skipped, the second names the task (matched over
    /// ASCII case), and the rest belong to the task.
    pub fn new(args: Vec<String>) -> (r: Result<Config, &'static str>)
        ensures
            r matches Ok(c) ==> {
                &&& args@.len() >= 4
                &&& spec_is_organize(args@[1]@)
                &&& (c matches Config::Organize(t) && t.source@ == args@[2]@ && t.target@
                    == args@[3]@)
            },
            args@.len() <= 1 ==> (r matches Err(m) && m@ == "no task specified"@),
            args@.len() >= 2 && !spec_is_organize(args@[1]@) ==> (r matches Err(m) && m@
                == "provided task did not match any defined tasks"@),
            args@.len() == 2 && spec_is_organize(args@[1]@) ==> (r matches Err(m) && m@
                == "no 'source' path provided"@),
            args@.len() >= 2 && spec_is_organize(args@[1]@) ==> (r matches Err(m) ==> (m@
                == "no 'source' path provided"@ || m@
                == "'source' path does not correspond to a valid directory"@ || m@
                == "no 'target' path provided"@ || m@
                == "'target' path does not correspond to a valid directory"@)),
    {
        if args.len() <= 1 {
            return Err("no task specified");
        }
        if is_organize_task(args[1].as_str()) {
            let mut rest: Vec<String> = Vec::new();
            let mut i: usize = 2;
            while i < args.len()
                invariant
                    2 <= i <= args@.len(),
                    args@.len() >= 2,
                    rest@.len() == i - 2,
                    forall|j: int| 0 <= j < rest@.len() ==> rest@[j] == args@[j + 2],
                decreases args@.len() - i,
            {
                rest.push(args[i].clone());
                i = i + 1;
            }
            match OrganizeTask::new(rest) {
                Ok(t) => Ok(Config::Organize(t)),
                Err(e) => Err(e),
            }
        } else {
            Err("provided task did not match any defined tasks")
        }
    }
}

} // verus!
