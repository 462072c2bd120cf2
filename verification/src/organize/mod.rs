//! The organize pipeline: bucket keys derived from creation dates, the
//! per-bucket sequence cache, and destination path construction.

use vstd::prelude::*;
use vstd::string::*;

verus! {

use crate::OrganizeError;
use crate::fs_io;
use crate::tools;

/// A file's creation timestamp, reduced to the calendar year and month that
/// decide which bucket the file belongs to.
#[derive(Clone, Copy, PartialEq, Eq, Structural, Debug)]
pub struct CreationDate {
    pub year: i32,
    pub month: u8,
}

impl CreationDate {
    /// The component ranges of every date read from a file's metadata.
    pub open spec fn wf(self) -> bool {
        -9999 <= self.year <= 9999 && 1 <= self.month <= 12
    }
}

/// The character of a single decimal digit.
pub open spec fn spec_digit(d: int) -> char {
    if d == 0 {
        '0'
    } else if d == 1 {
        '1'
    } else if d == 2 {
        '2'
    } else if d == 3 {
        '3'
    } else if d == 4 {
        '4'
    } else if d == 5 {
        '5'
    } else if d == 6 {
        '6'
    } else if d == 7 {
        '7'
    } else if d == 8 {
        '8'
    } else {
        '9'
    }
}

/// A number's four decimal digits, zero padded.
pub open spec fn spec_pad4(n: int) -> Seq<char> {
    seq![
        spec_digit(n / 1000 % 10),
        spec_digit(n / 100 % 10),
        spec_digit(n / 10 % 10),
        spec_digit(n % 10),
    ]
}

/// A month's two decimal digits, zero padded.
pub open spec fn spec_pad2(n: int) -> Seq<char> {
    seq![spec_digit(n / 10 % 10), spec_digit(n % 10)]
}

/// A year as it appears in a bucket path: four digits, zero padded, with a
/// leading sign for years before year zero.
pub open spec fn spec_year_chars(y: int) -> Seq<char> {
    if y < 0 {
        seq!['-'] + spec_pad4(-y)
    } else {
        spec_pad4(y)
    }
}

/// The bucket path fragment `YYYY/YYYY-MM` for a creation date.
pub open spec fn spec_bucket_fragment(d: CreationDate) -> Seq<char> {
    spec_year_chars(d.year as int) + seq!['/'] + spec_year_chars(d.year as int) + seq!['-']
        + spec_pad2(d.month as int)
}

/// A number's decimal digits, most significant first, without leading zeros.
pub open spec fn spec_decimal(n: nat) -> Seq<char>
    decreases n,
{
    if n < 10 {
        seq![spec_digit(n as int)]
    } else {
        spec_decimal(n / 10) + seq![spec_digit((n % 10) as int)]
    }
}

fn digit_str(d: usize) -> (r: &'static str)
    requires
        d < 10,
    ensures
        r@ == seq![spec_digit(d as int)],
{
    let s = "0123456789";
    proof {
        reveal_strlit("0123456789");
    }
    let r = s.substring_char(d, d + 1);
    proof {
        assert(r@ =~= seq![spec_digit(d as int)]);
    }
    r
}

fn pad4(n: u32) -> (r: String)
    requires
        n <= 9999,
    ensures
        r@ == spec_pad4(n as int),
{
    let mut s = String::from_str(digit_str((n / 1000 % 10) as usize));
    s.append(digit_str((n / 100 % 10) as usize));
    s.append(digit_str((n / 10 % 10) as usize));
    s.append(digit_str((n % 10) as usize));
    proof {
        assert(s@ =~= spec_pad4(n as int));
    }
    s
}

fn pad2(n: u32) -> (r: String)
    requires
        n <= 99,
    ensures
        r@ == spec_pad2(n as int),
{
    let mut s = String::from_str(digit_str((n / 10 % 10) as usize));
    s.append(digit_str((n % 10) as usize));
    proof {
        assert(s@ =~= spec_pad2(n as int));
    }
    s
}

fn year_string(y: i32) -> (r: String)
    requires
        -9999 <= y <= 9999,
    ensures
        r@ == spec_year_chars(y as int),
{
    if y < 0 {
        let mut s = String::from_str("-");
        proof {
            reveal_strlit("-");
        }
        let digits = pad4((-y) as u32);
        s.append(digits.as_str());
        proof {
            assert(s@ =~= spec_year_chars(y as int));
        }
        s
    } else {
        pad4(y as u32)
    }
}

/// Builds the `YYYY/YYYY-MM` bucket fragment for a creation date.
pub fn bucket_fragment(d: &CreationDate) -> (r: String)
    requires
        d.wf(),
    ensures
        r@ == spec_bucket_fragment(*d),
{
    let mut s = year_string(d.year);
    s.append("/");
    let again = year_string(d.year);
    s.append(again.as_str());
    s.append("-");
    let month = pad2(d.month as u32);
    s.append(month.as_str());
    proof {
        reveal_strlit("/");
        reveal_strlit("-");
        assert(s@ =~= spec_bucket_fragment(*d));
    }
    s
}

/// The index of the last occurrence of `c` in `s`, or -1 when `c` is absent.
pub open spec fn spec_last_index_of(s: Seq<char>, c: char) -> int
    decreases s.len(),
{
    if s.len() == 0 {
        -1
    } else if s[s.len() - 1] == c {
        s.len() - 1
    } else {
        spec_last_index_of(s.drop_last(), c)
    }
}

proof fn lemma_last_index_of_found(s: Seq<char>, c: char, k: int)
    requires
        0 <= k < s.len(),
        s[k] == c,
        forall|j: int| k < j < s.len() ==> s[j] != c,
    ensures
        spec_last_index_of(s, c) == k,
    decreases s.len(),
{
    if k < s.len() - 1 {
        lemma_last_index_of_found(s.drop_last(), c, k);
    }
}

proof fn lemma_last_index_of_absent(s: Seq<char>, c: char)
    requires
        forall|j: int| 0 <= j < s.len() ==> s[j] != c,
    ensures
        spec_last_index_of(s, c) == -1,
    decreases s.len(),
{
    if s.len() > 0 {
        lemma_last_index_of_absent(s.drop_last(), c);
    }
}

/// Where the final path component begins: one past the last `/`.
pub open spec fn spec_name_start(p: Seq<char>) -> int {
    spec_last_index_of(p, '/') + 1
}

/// A file's extension: the part of the final path component after its last
/// dot, unless that dot is the component's first character or there is none.
pub open spec fn spec_extension(p: Seq<char>) -> Option<Seq<char>> {
    let name = p.subrange(spec_name_start(p), p.len() as int);
    let dot = spec_last_index_of(name, '.');
    if dot <= 0 {
        None
    } else {
        Some(name.subrange(dot + 1, name.len() as int))
    }
}

/// The last occurrence of `c` in `s` at or past position `from`, if any.
fn last_index_from(s: &str, c: char, from: usize, len: usize) -> (r: Option<usize>)
    requires
        len == s@.len(),
        from <= len,
    ensures
        match r {
            Some(i) => from <= i < len && s@[i as int] == c && (forall|j: int|
                i < j < len ==> s@[j] != c),
            None => forall|j: int| from <= j < len ==> s@[j] != c,
        },
{
    let mut i: usize = len;
    while i > from
        invariant
            from <= i <= len,
            len == s@.len(),
            forall|j: int| i <= j < len ==> s@[j] != c,
        decreases i,
    {
        if s.get_char(i - 1) == c {
            return Some(i - 1);
        }
        i = i - 1;
    }
    None
}

/// Reads the extension of the file named by `path`.
pub fn extension_of(path: &str) -> (r: Option<String>)
    ensures
        r is Some <==> spec_extension(path@) is Some,
        r matches Some(e) ==> Some(e@) == spec_extension(path@),
{
    let len = path.unicode_len();
    let mut start: usize = 0;
    match last_index_from(path, '/', 0, len) {
        Some(i) => {
            proof {
                lemma_last_index_of_found(path@, '/', i as int);
            }
            start = i + 1;
        },
        None => {
            proof {
                lemma_last_index_of_absent(path@, '/');
            }
        },
    }
    assert(start as int == spec_name_start(path@));
    let ghost name = path@.subrange(start as int, len as int);
    match last_index_from(path, '.', start, len) {
        Some(q) => {
            proof {
                assert forall|j: int| q - start < j < name.len() implies name[j] != '.' by {
                    assert(name[j] == path@[start + j]);
                }
                lemma_last_index_of_found(name, '.', q - start);
            }
            if q > start {
                let e = path.substring_char(q + 1, len);
                proof {
                    assert(e@ =~= name.subrange(q - start + 1, name.len() as int));
                }
                Some(String::from_str(e))
            } else {
                None
            }
        },
        None => {
            proof {
                assert forall|j: int| 0 <= j < name.len() implies name[j] != '.' by {
                    assert(name[j] == path@[start + j]);
                }
                lemma_last_index_of_absent(name, '.');
            }
            None
        },
    }
}

/// Renders a sequence number in decimal.
pub fn decimal_string(n: usize) -> (r: String)
    ensures
        r@ == spec_decimal(n as nat),
    decreases n,
{
    if n < 10 {
        String::from_str(digit_str(n))
    } else {
        let mut s = decimal_string(n / 10);
        s.append(digit_str(n % 10));
        proof {
            assert(s@ =~= spec_decimal(n as nat));
        }
        s
    }
}

/// The directory of a bucket: the target root, `/`, and the bucket fragment.
pub open spec fn spec_bucket_dir(target: Seq<char>, d: CreationDate) -> Seq<char> {
    target + seq!['/'] + spec_bucket_fragment(d)
}

/// A destination file name: the last seven characters of the bucket fragment
/// (its `YYYY-MM` part), an underscore, the sequence number, and the source
/// file's extension when it has one.
pub open spec fn spec_file_name(d: CreationDate, seq_no: nat, ext: Option<Seq<char>>) -> Seq<
    char,
> {
    let frag = spec_bucket_fragment(d);
    let base = frag.subrange(frag.len() - 7, frag.len() as int) + seq!['_'] + spec_decimal(seq_no);
    match ext {
        Some(e) => base + seq!['.'] + e,
        None => base,
    }
}

/// The full destination path of a file: its bucket directory, `/`, and its
/// name inside the bucket.
pub open spec fn spec_destination(
    target: Seq<char>,
    d: CreationDate,
    seq_no: nat,
    ext: Option<Seq<char>>,
) -> Seq<char> {
    spec_bucket_dir(target, d) + seq!['/'] + spec_file_name(d, seq_no, ext)
}

/// Builds the bucket directory path for a date under the target root.
pub fn bucket_dir(target: &str, d: &CreationDate) -> (r: String)
    requires
        d.wf(),
    ensures
        r@ == spec_bucket_dir(target@, *d),
{
    let mut s = String::from_str(target);
    s.append("/");
    let frag = bucket_fragment(d);
    s.append(frag.as_str());
    proof {
        reveal_strlit("/");
        assert(s@ =~= spec_bucket_dir(target@, *d));
    }
    s
}

/// Builds the full destination path for a file assigned a sequence number in
/// the bucket of its creation date.
pub fn destination(target: &str, d: &CreationDate, seq_no: usize, file_path: &str) -> (r: String)
    requires
        d.wf(),
    ensures
        r@ == spec_destination(target@, *d, seq_no as nat, spec_extension(file_path@)),
{
    let frag = bucket_fragment(d);
    proof {
        assert(frag@.len() >= 12);
    }
    let flen = frag.as_str().unicode_len();
    let prefix = frag.as_str().substring_char(flen - 7, flen);
    let mut s = bucket_dir(target, d);
    s.append("/");
    s.append(prefix);
    s.append("_");
    let digits = decimal_string(seq_no);
    s.append(digits.as_str());
    proof {
        reveal_strlit("/");
        reveal_strlit("_");
        reveal_strlit(".");
    }
    match extension_of(file_path) {
        Some(e) => {
            s.append(".");
            s.append(e.as_str());
            proof {
                assert(s@ =~= spec_destination(
                    target@,
                    *d,
                    seq_no as nat,
                    spec_extension(file_path@),
                ));
            }
        },
        None => {
            proof {
                assert(s@ =~= spec_destination(
                    target@,
                    *d,
                    seq_no as nat,
                    spec_extension(file_path@),
                ));
            }
        },
    }
    s
}

/// The per-run cache of each bucket's next sequence number.
///
/// Seeded once per bucket and then the single source of truth for that bucket
/// for the remainder of the run.
pub struct SequenceCache {
    entries: Vec<(CreationDate, usize)>,
}

impl SequenceCache {
    /// The map a list of entries stands for, later entries shadowing earlier.
    pub open spec fn entries_map(s: Seq<(CreationDate, usize)>) -> Map<CreationDate, nat>
        decreases s.len(),
    {
        if s.len() == 0 {
            Map::empty()
        } else {
            Self::entries_map(s.drop_last()).insert(s.last().0, s.last().1 as nat)
        }
    }

    /// The cache viewed as a map from bucket date to next sequence number.
    pub closed spec fn view(&self) -> Map<CreationDate, nat> {
        Self::entries_map(self.entries@)
    }

    /// Each bucket date appears at most once among the entries.
    pub closed spec fn wf(&self) -> bool {
        forall|x: int, y: int|
            0 <= x < y < self.entries@.len() ==> self.entries@[x].0 != self.entries@[y].0
    }

    proof fn lemma_entries_map_contains(s: Seq<(CreationDate, usize)>, k: CreationDate)
        ensures
            Self::entries_map(s).contains_key(k) <==> exists|i: int|
                0 <= i < s.len() && s[i].0 == k,
        decreases s.len(),
    {
        if s.len() > 0 {
            Self::lemma_entries_map_contains(s.drop_last(), k);
            if s.last().0 == k {
                assert(s[s.len() - 1].0 == k);
            } else {
                if exists|i: int| 0 <= i < s.len() && s[i].0 == k {
                    let i = choose|i: int| 0 <= i < s.len() && s[i].0 == k;
                    assert(s.drop_last()[i].0 == k);
                }
                if exists|i: int| 0 <= i < s.drop_last().len() && s.drop_last()[i].0 == k {
                    let i = choose|i: int| 0 <= i < s.drop_last().len() && s.drop_last()[i].0 == k;
                    assert(s[i].0 == k);
                }
            }
        }
    }

    proof fn lemma_entries_map_value(s: Seq<(CreationDate, usize)>, i: int)
        requires
            0 <= i < s.len(),
            forall|x: int, y: int| 0 <= x < y < s.len() ==> s[x].0 != s[y].0,
        ensures
            Self::entries_map(s).contains_key(s[i].0),
            Self::entries_map(s)[s[i].0] == s[i].1 as nat,
        decreases s.len(),
    {
        if i < s.len() - 1 {
            assert(s[s.len() - 1].0 != s[i].0);
            Self::lemma_entries_map_value(s.drop_last(), i);
            assert(s.drop_last()[i] == s[i]);
        }
    }

    proof fn lemma_entries_map_update(s: Seq<(CreationDate, usize)>, i: int, v: usize)
        requires
            0 <= i < s.len(),
            forall|x: int, y: int| 0 <= x < y < s.len() ==> s[x].0 != s[y].0,
        ensures
            Self::entries_map(s.update(i, (s[i].0, v))) == Self::entries_map(s).insert(
                s[i].0,
                v as nat,
            ),
        decreases s.len(),
    {
        let k = s[i].0;
        let s2 = s.update(i, (k, v));
        if i == s.len() - 1 {
            assert(s2.drop_last() =~= s.drop_last());
            assert(Self::entries_map(s2) =~= Self::entries_map(s).insert(k, v as nat));
        } else {
            assert(s.last().0 != k);
            Self::lemma_entries_map_update(s.drop_last(), i, v);
            assert(s2.drop_last() =~= s.drop_last().update(i, (k, v)));
            assert(s2.last() == s.last());
            assert(Self::entries_map(s2) =~= Self::entries_map(s).insert(k, v as nat));
        }
    }

    /// A fresh cache with no bucket seeded.
    pub fn new() -> (r: SequenceCache)
        ensures
            r@ == Map::<CreationDate, nat>::empty(),
            r.wf(),
    {
        SequenceCache { entries: Vec::new() }
    }

    /// The next sequence number stored for a bucket, when the bucket is known.
    pub fn lookup(&self, d: &CreationDate) -> (r: Option<usize>)
        requires
            self.wf(),
        ensures
            match r {
                Some(v) => self@.contains_key(*d) && self@[*d] == v as nat,
                None => !self@.contains_key(*d),
            },
    {
        let mut i: usize = 0;
        while i < self.entries.len()
            invariant
                i <= self.entries@.len(),
                self.wf(),
                forall|j: int| 0 <= j < i ==> self.entries@[j].0 != *d,
            decreases self.entries@.len() - i,
        {
            if self.entries[i].0 == *d {
                proof {
                    Self::lemma_entries_map_value(self.entries@, i as int);
                }
                return Some(self.entries[i].1);
            }
            i = i + 1;
        }
        proof {
            Self::lemma_entries_map_contains(self.entries@, *d);
        }
        None
    }

    /// Stores `v` as a bucket's next sequence number, adding the bucket if new.
    pub fn set(&mut self, d: CreationDate, v: usize)
        requires
            old(self).wf(),
        ensures
            final(self)@ == old(self)@.insert(d, v as nat),
            final(self).wf(),
    {
        let mut i: usize = 0;
        while i < self.entries.len()
            invariant
                i <= self.entries@.len(),
                self == old(self),
                self.wf(),
                forall|j: int| 0 <= j < i ==> self.entries@[j].0 != d,
            decreases self.entries@.len() - i,
        {
            if self.entries[i].0 == d {
                proof {
                    Self::lemma_entries_map_update(self.entries@, i as int, v);
                }
                self.entries[i] = (d, v);
                return;
            }
            i = i + 1;
        }
        proof {
            Self::lemma_entries_map_contains(self.entries@, d);
            assert(self.entries@.push((d, v)).drop_last() =~= self.entries@);
        }
        self.entries.push((d, v));
    }
}

/// One sequence-number assignment as `plan_move_dated` performs it: a bucket
/// already in the cache hands out its cached number, a fresh bucket hands out
/// `seed`; either way the bucket's stored number moves one past the number
/// issued.
pub open spec fn next_seq_model(m: Map<CreationDate, nat>, d: CreationDate, seed: nat) -> (nat, Map<
    CreationDate,
    nat,
>) {
    if m.contains_key(d) {
        (m[d], m.insert(d, m[d] + 1))
    } else {
        (seed, m.insert(d, seed + 1))
    }
}

/// The numbers a run of `n` successive assignments issues to one bucket,
/// starting from cache state `m` and seeding with `seed` if the bucket is
/// fresh.
pub open spec fn assigned_numbers(
    m: Map<CreationDate, nat>,
    d: CreationDate,
    seed: nat,
    n: nat,
) -> Seq<nat>
    decreases n,
{
    if n == 0 {
        Seq::empty()
    } else {
        seq![next_seq_model(m, d, seed).0] + assigned_numbers(
            next_seq_model(m, d, seed).1,
            d,
            seed,
            (n - 1) as nat,
        )
    }
}

/// Sequence numbering is consecutive: a bucket receiving `n` files in one run
/// is issued the numbers `start, start + 1, ..., start + n - 1`, each exactly
/// once, where `start` is the bucket's cached number — or the seed when the
/// run first touches the bucket.
pub proof fn lemma_sequence_numbering(m: Map<CreationDate, nat>, d: CreationDate, seed: nat, n: nat)
    ensures
        assigned_numbers(m, d, seed, n).len() == n,
        forall|i: int|
            0 <= i < n ==> assigned_numbers(m, d, seed, n)[i] == (if m.contains_key(d) {
                m[d]
            } else {
                seed
            }) + i,
    decreases n,
{
    if n > 0 {
        let start = if m.contains_key(d) {
            m[d]
        } else {
            seed
        };
        let m2 = next_seq_model(m, d, seed).1;
        lemma_sequence_numbering(m2, d, seed, (n - 1) as nat);
        assert(m2.contains_key(d) && m2[d] == start + 1);
        assert forall|i: int| 0 <= i < n implies assigned_numbers(m, d, seed, n)[i] == start
            + i by {
            if i > 0 {
                assert(assigned_numbers(m, d, seed, n)[i] == assigned_numbers(
                    m2,
                    d,
                    seed,
                    (n - 1) as nat,
                )[i - 1]);
            }
        }
    }
}

/// A fresh bucket directory receiving `n` files in one run is issued exactly
/// the numbers `0 .. n-1`, each once: its cache entry is seeded at zero.
pub proof fn lemma_fresh_bucket_numbers(m: Map<CreationDate, nat>, d: CreationDate, n: nat)
    requires
        !m.contains_key(d),
    ensures
        assigned_numbers(m, d, 0, n).len() == n,
        forall|i: int| 0 <= i < n ==> assigned_numbers(m, d, 0, n)[i] == i,
{
    lemma_sequence_numbering(m, d, 0, n);
}

/// A bucket directory holding `k` files before the run hands out `k`,
/// `k + 1`, `k + 2`, ... to the files assigned to it during the run: its
/// cache entry is seeded at the pre-existing count.
pub proof fn lemma_seeded_bucket_numbers(
    m: Map<CreationDate, nat>,
    d: CreationDate,
    k: nat,
    n: nat,
)
    requires
        !m.contains_key(d),
    ensures
        assigned_numbers(m, d, k, n).len() == n,
        forall|i: int| 0 <= i < n ==> assigned_numbers(m, d, k, n)[i] == k + i,
{
    lemma_sequence_numbering(m, d, k, n);
}

/// A bucket is seeded at most once: an assignment to a bucket already in the
/// cache ignores the seed entirely, so no later directory creation or count
/// can reset the counter.
pub proof fn lemma_seed_ignored_once_cached(
    m: Map<CreationDate, nat>,
    d: CreationDate,
    s1: nat,
    s2: nat,
)
    requires
        m.contains_key(d),
    ensures
        next_seq_model(m, d, s1) == next_seq_model(m, d, s2),
{
}

/// Everything the mover needs for one file: the bucket it goes to, whether
/// the bucket directory must first be created, and the destination path.
#[derive(Debug)]
pub struct MovePlan {
    /// The creation date that chose the bucket.
    pub date: CreationDate,
    /// The bucket directory under the target root.
    pub dest_dir: String,
    /// The sequence number assigned to the file.
    pub seq: usize,
    /// Whether `dest_dir` was absent and must be created before the move.
    pub create_dir: bool,
    /// The full destination path of the file.
    pub dest: String,
}

/// The validated configuration of one organize run: the directory holding the
/// unorganized files and the directory the bucket tree is built under.
#[derive(Debug, PartialEq, Eq)]
pub struct OrganizeTask {
    /// The directory the files are collected from.
    pub source: String,
    /// The directory the bucket tree is built under.
    pub target: String,
}

impl OrganizeTask {
    /// Reads `source` and `target` from the remaining command-line arguments
    /// and checks that each names an existing directory.
    pub fn new(args: Vec<String>) -> (r: Result<OrganizeTask, &'static str>)
        ensures
            r matches Ok(t) ==> args@.len() >= 2 && t.source@ == args@[0]@ && t.target@
                == args@[1]@,
            args@.len() == 0 ==> (r matches Err(m) && m@ == "no 'source' path provided"@),
            args@.len() == 1 ==> (r matches Err(m) && (m@
                == "'source' path does not correspond to a valid directory"@ || m@
                == "no 'target' path provided"@)),
            r matches Err(m) ==> (m@ == "no 'source' path provided"@ || m@
                == "'source' path does not correspond to a valid directory"@ || m@
                == "no 'target' path provided"@ || m@
                == "'target' path does not correspond to a valid directory"@),
            args@.len() >= 2 ==> (r matches Err(m) ==> (m@
                == "'source' path does not correspond to a valid directory"@ || m@
                == "'target' path does not correspond to a valid directory"@)),
    {
        if args.len() == 0 {
            return Err("no 'source' path provided");
        }
        let source = args[0].clone();
        if !fs_io::path_is_dir(&source) {
            return Err("'source' path does not correspond to a valid directory");
        }
        if args.len() == 1 {
            return Err("no 'target' path provided");
        }
        let target = args[1].clone();
        if !fs_io::path_is_dir(&target) {
            return Err("'target' path does not correspond to a valid directory");
        }
        Ok(OrganizeTask { source, target })
    }

    /// Chooses the destination for one file whose creation date is already
    /// known: derives the bucket, consults or seeds the sequence cache, and
    /// builds the destination path.
    ///
    /// When the bucket is not yet cached, the bucket directory on disk
    /// decides the seed: its current file count when it exists, zero together
    /// with `create_dir` when it does not. A bucket already cached is never
    /// read from disk again.
    pub fn plan_move_dated(
        &self,
        cache: &mut SequenceCache,
        file: &String,
        date: &CreationDate,
    ) -> (r: Result<MovePlan, OrganizeError>)
        requires
            date.wf(),
            old(cache).wf(),
            old(cache)@.contains_key(*date) ==> old(cache)@[*date] < usize::MAX,
        ensures
            final(cache).wf(),
            r matches Ok(p) ==> {
                &&& p.date == *date
                &&& p.dest_dir@ == spec_bucket_dir(self.target@, *date)
                &&& p.dest@ == spec_destination(
                    self.target@,
                    *date,
                    p.seq as nat,
                    spec_extension(file@),
                )
                &&& final(cache)@ == old(cache)@.insert(*date, p.seq as nat + 1)
                &&& (old(cache)@.contains_key(*date) ==> p.seq as nat == old(cache)@[*date]
                    && !p.create_dir)
                &&& (p.create_dir ==> p.seq == 0 && !old(cache)@.contains_key(*date))
                &&& (p.seq as nat, final(cache)@) == next_seq_model(
                    old(cache)@,
                    *date,
                    p.seq as nat,
                )
            },
            old(cache)@.contains_key(*date) ==> r is Ok,
            r matches Err(e) ==> {
                &&& final(cache)@ == old(cache)@
                &&& !old(cache)@.contains_key(*date)
                &&& e matches OrganizeError::SeedCount(p) && p@ == spec_bucket_dir(
                    self.target@,
                    *date,
                )
            },
    {
        let dir = bucket_dir(self.target.as_str(), date);
        let mut seq: usize = 0;
        let mut create = false;
        match cache.lookup(date) {
            Some(v) => {
                seq = v;
            },
            None => {
                if fs_io::path_is_dir(&dir) {
                    match tools::get_num_files(&dir) {
                        Ok(n) => {
                            seq = n;
                        },
                        Err(_) => {
                            return Err(OrganizeError::SeedCount(dir));
                        },
                    }
                } else {
                    create = true;
                }
            },
        }
        cache.set(*date, seq + 1);
        let dest = destination(self.target.as_str(), date, seq, file.as_str());
        Ok(MovePlan { date: *date, dest_dir: dir, seq, create_dir: create, dest })
    }

    /// Chooses the destination for one file, first reading its creation date
    /// from the filesystem.
    pub fn plan_move(&self, cache: &mut SequenceCache, file: &String) -> (r: Result<
        MovePlan,
        OrganizeError,
    >)
        requires
            old(cache).wf(),
            forall|d: CreationDate| old(cache)@.contains_key(d) ==> old(cache)@[d] < usize::MAX,
        ensures
            final(cache).wf(),
            r matches Ok(p) ==> {
                &&& p.date.wf()
                &&& p.dest_dir@ == spec_bucket_dir(self.target@, p.date)
                &&& p.dest@ == spec_destination(
                    self.target@,
                    p.date,
                    p.seq as nat,
                    spec_extension(file@),
                )
                &&& final(cache)@ == old(cache)@.insert(p.date, p.seq as nat + 1)
                &&& (old(cache)@.contains_key(p.date) ==> p.seq as nat == old(cache)@[p.date]
                    && !p.create_dir)
                &&& (p.create_dir ==> p.seq == 0 && !old(cache)@.contains_key(p.date))
            },
            r matches Err(e) ==> {
                &&& final(cache)@ == old(cache)@
                &&& (e matches OrganizeError::Metadata(q) ==> q@ == file@)
                &&& (e matches OrganizeError::Metadata(_) || e matches OrganizeError::SeedCount(_))
            },
    {
        match fs_io::creation_date(file) {
            Some(d) => self.plan_move_dated(cache, file, &d),
            None => Err(OrganizeError::Metadata(file.clone())),
        }
    }
}

} // verus!
