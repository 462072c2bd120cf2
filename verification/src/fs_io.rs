//! Trusted access to the directory tree and to file creation timestamps.
//!
//! Every function here is believed rather than verified: each makes exactly
//! the outside calls its doc comment names and converts the results to plain
//! values. What the disk holds can change between calls, so the contracts
//! state only what holds of every outcome.

use vstd::prelude::*;

use std::path::Path;

use crate::organize::CreationDate;

verus! {

/// Relies on std::path::Path::is_dir: whether `path` names an existing
/// directory at the time of the call.
#[verifier::external_body]
pub(crate) fn path_is_dir(path: &String) -> bool {
    Path::new(path).is_dir()
}

/// Relies on std::path::Path::is_file: whether `path` names an existing
/// regular file at the time of the call.
#[verifier::external_body]
pub(crate) fn path_is_file(path: &String) -> bool {
    Path::new(path).is_file()
}

/// Relies on std::path::Path::read_dir and DirEntry::path: each returned path
/// is the given `path` joined with one entry's name (a separator where needed
/// plus a non-empty name, with nothing normalized away), so each strictly
/// extends `path`; `None` when the listing fails or an entry's name is not
/// Unicode. A returned vector occupies at most isize::MAX bytes, so its
/// length stays below usize::MAX.
#[verifier::external_body]
pub(crate) fn list_dir(path: &String) -> (r: Option<Vec<String>>)
    ensures
        r matches Some(v) ==> v@.len() < usize::MAX && (forall|i: int|
            0 <= i < v@.len() ==> path@.is_prefix_of(#[trigger] v@[i]@) && v@[i]@.len()
                > path@.len()),
{
    let entries = match Path::new(path).read_dir() { Ok(e) => e, Err(_) => return None };
    let mut v: Vec<String> = Vec::new();
    for entry in entries {
        let p = match entry { Ok(e) => e.path(), Err(_) => return None };
        match p.to_str() { Some(s) => v.push(s.to_string()), None => return None }
    }
    Some(v)
}

/// Relies on std::path::Path::metadata and Metadata::created for a file's
/// creation timestamp, and on the time crate to place it in the calendar:
/// SystemTime::duration_since splits the timestamp around the epoch, then
/// OffsetDateTime::UNIX_EPOCH with checked_add / checked_sub — the checked
/// form of time's own SystemTime conversion — and year() / month(), whose
/// ranges time guarantees. Every failure yields `None`: unreadable metadata,
/// a filesystem without creation times, or a timestamp outside time's
/// calendar range; nothing here panics. The timestamp is read in UTC, a
/// deterministic choice over the platform- and environment-dependent local
/// offset.
#[verifier::external_body]
pub(crate) fn creation_date(path: &String) -> (r: Option<CreationDate>)
    ensures
        r matches Some(d) ==> d.wf(),
{
    let meta = match Path::new(path).metadata() { Ok(m) => m, Err(_) => return None };
    let created = match meta.created() { Ok(t) => t, Err(_) => return None };
    let epoch = time::OffsetDateTime::UNIX_EPOCH;
    let dt = match created.duration_since(std::time::UNIX_EPOCH) {
        Ok(d) => epoch.checked_add(time::SignedDuration::try_from(d).ok()?)?,
        Err(e) => epoch.checked_sub(time::SignedDuration::try_from(e.duration()).ok()?)?,
    };
    Some(CreationDate { year: dt.year(), month: u8::from(dt.month()) })
}

} // verus!
