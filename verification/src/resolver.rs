//! Executable resolver: finds a command by a depth-first walk over the
//! search-path directories.
//!
//! The walk descends into every subdirectory of a search directory before
//! it checks that subdirectory's later siblings, so the search is not
//! limited to the directories named on the path; the first regular file
//! anywhere in this depth-first order whose name equals the command wins,
//! without any check of its permission bits.  Directory contents are
//! handed in as plain values — a snapshot of names and kinds taken by the
//! caller — so a directory that could not be listed simply has no
//! entries.

use vstd::prelude::*;
use vstd::string::StrSliceExecFns;
use vstd::string::StringExecFns;

verus! {

/// One entry of a directory listing: a regular file, or a subdirectory
/// with its own listing in the order the directory was read.  Entries of
/// any other kind (the caller may meet sockets or dangling links) are not
/// represented: the walk would skip them anyway.
pub enum FsEntry {
    File { name: String },
    Dir { name: String, entries: Vec<FsEntry> },
}

/// One directory named on the search path: the name to report matches
/// under, and its listing.  An unreadable or missing directory has an
/// empty listing, which makes it indistinguishable from an empty one —
/// exactly how the search treats it.
pub struct SearchDir {
    pub path: String,
    pub entries: Vec<FsEntry>,
}

/// The path of an entry called `name` inside the directory `dir`.
pub open spec fn spec_path_join(dir: Seq<char>, name: Seq<char>) -> Seq<char> {
    dir + seq!['/'] + name
}

/// Where the depth-first walk of a single entry first finds a regular
/// file called `target`, if anywhere.
pub open spec fn spec_find_entry(dir: Seq<char>, e: FsEntry, target: Seq<char>) -> Option<
    Seq<char>,
>
    decreases e, 0int,
{
    match e {
        FsEntry::File { name } => if name@ == target {
            Some(spec_path_join(dir, name@))
        } else {
            None
        },
        FsEntry::Dir { name, entries } => spec_find_list(
            spec_path_join(dir, name@),
            entries@,
            target,
            0,
        ),
    }
}

/// Where the depth-first walk of a directory listing, from entry `i` on,
/// first finds a regular file called `target`, if anywhere.
pub open spec fn spec_find_list(
    dir: Seq<char>,
    entries: Seq<FsEntry>,
    target: Seq<char>,
    i: int,
) -> Option<Seq<char>>
    decreases entries, entries.len() - i,
{
    if i < 0 || i >= entries.len() {
        None
    } else {
        match spec_find_entry(dir, entries[i], target) {
            Some(found) => Some(found),
            None => spec_find_list(dir, entries, target, i + 1),
        }
    }
}

/// Where the walk over the whole search path, from directory `i` on,
/// first finds a regular file called `target`, if anywhere.
pub open spec fn spec_find_path(dirs: Seq<SearchDir>, target: Seq<char>, i: int) -> Option<
    Seq<char>,
>
    decreases dirs.len() - i,
{
    if i < 0 || i >= dirs.len() {
        None
    } else {
        match spec_find_list(dirs[i].path@, dirs[i].entries@, target, 0) {
            Some(found) => Some(found),
            None => spec_find_path(dirs, target, i + 1),
        }
    }
}

/// The path of an entry called `name` inside the directory `dir`.
fn path_join(dir: &str, name: &str) -> (r: String)
    ensures
        r@ == spec_path_join(dir@, name@),
{
    let mut r = String::from_str(dir);
    r.append("/");
    r.append(name);
    proof {
        reveal_strlit("/");
        assert(r@ =~= spec_path_join(dir@, name@));
    }
    r
}

/// Depth-first search of one entry for a regular file called `target`.
fn find_in_entry(dir: &str, e: &FsEntry, target: &str) -> (r: Option<String>)
    ensures
        match r {
            Some(found) => spec_find_entry(dir@, *e, target@) == Some(found@),
            None => spec_find_entry(dir@, *e, target@) is None,
        },
    decreases *e, 0int,
{
    match e {
        FsEntry::File { name } => {
            if str_eq(name.as_str(), target) {
                Some(path_join(dir, name.as_str()))
            } else {
                None
            }
        },
        FsEntry::Dir { name, entries } => {
            let below = path_join(dir, name.as_str());
            find_in_list(below.as_str(), entries, target)
        },
    }
}

/// Depth-first search of a directory listing for a regular file called
/// `target`: every entry in listing order, subdirectories fully before
/// their later siblings.
fn find_in_list(dir: &str, entries: &Vec<FsEntry>, target: &str) -> (r: Option<String>)
    ensures
        match r {
            Some(found) => spec_find_list(dir@, entries@, target@, 0) == Some(found@),
            None => spec_find_list(dir@, entries@, target@, 0) is None,
        },
    decreases *entries, entries@.len(),
{
    let n = entries.len();
    let mut i: usize = 0;
    while i < n
        invariant
            i <= n,
            n == entries@.len(),
            spec_find_list(dir@, entries@, target@, 0) == spec_find_list(
                dir@,
                entries@,
                target@,
                i as int,
            ),
        decreases n - i,
    {
        proof {
            assert(decreases_to!(*entries => entries@));
            assert(decreases_to!(entries@ => entries@[i as int]));
        }
        match find_in_entry(dir, &entries[i], target) {
            Some(found) => {
                return Some(found);
            },
            None => {},
        }
        i = i + 1;
    }
    None
}

/// Resolve a command name against the search path: the first match of the
/// depth-first walk, directory by directory, or nothing when the walk
/// exhausts every directory and all of their descendants.
pub fn find_executable(dirs: &Vec<SearchDir>, name: &str) -> (r: Option<String>)
    ensures
        match r {
            Some(found) => spec_find_path(dirs@, name@, 0) == Some(found@),
            None => spec_find_path(dirs@, name@, 0) is None,
        },
{
    let n = dirs.len();
    let mut i: usize = 0;
    while i < n
        invariant
            i <= n,
            n == dirs@.len(),
            spec_find_path(dirs@, name@, 0) == spec_find_path(dirs@, name@, i as int),
        decreases n - i,
    {
        let d = &dirs[i];
        match find_in_list(d.path.as_str(), &d.entries, name) {
            Some(found) => {
                return Some(found);
            },
            None => {},
        }
        i = i + 1;
    }
    None
}

/// When every directory on the search path is empty — which is also how
/// an unreadable or missing directory is handed in — the walk finds
/// nothing, whatever the name.
pub proof fn lemma_all_dirs_empty_not_found(dirs: Seq<SearchDir>, target: Seq<char>, i: int)
    requires
        forall|m: int| 0 <= m < dirs.len() ==> dirs[m].entries@.len() == 0,
        0 <= i,
    ensures
        spec_find_path(dirs, target, i) is None,
    decreases dirs.len() - i,
{
    if i < dirs.len() {
        lemma_all_dirs_empty_not_found(dirs, target, i + 1);
    }
}

/// First position at or after `i` that holds a colon, or the end of the
/// string.
pub open spec fn spec_find_colon(s: Seq<char>, i: int) -> int
    decreases s.len() - i,
{
    if i < 0 || i >= s.len() {
        s.len() as int
    } else if s[i] == ':' {
        i
    } else {
        spec_find_colon(s, i + 1)
    }
}

/// The colon separator at or after `i` is never before `i` nor past the
/// end, and nothing before it is a colon.
pub proof fn lemma_find_colon_bounds(s: Seq<char>, i: int)
    requires
        0 <= i <= s.len(),
    ensures
        i <= spec_find_colon(s, i) <= s.len(),
        spec_find_colon(s, i) < s.len() ==> s[spec_find_colon(s, i)] == ':',
    decreases s.len() - i,
{
    if i < s.len() && s[i] != ':' {
        lemma_find_colon_bounds(s, i + 1);
    }
}

/// The colon-separated segments of `s` from position `i` on: the external
/// representation of a search path.  Empty segments are kept; the walk
/// later finds nothing under them, exactly as for an unreadable
/// directory.
pub open spec fn spec_split_path(s: Seq<char>, i: int) -> Seq<Seq<char>>
    decreases s.len() - i
        when 0 <= i <= s.len()
        via spec_split_path_decreases
{
    let j = spec_find_colon(s, i);
    if j >= s.len() {
        seq![s.subrange(i, s.len() as int)]
    } else {
        seq![s.subrange(i, j)] + spec_split_path(s, j + 1)
    }
}

#[via_fn]
proof fn spec_split_path_decreases(s: Seq<char>, i: int) {
    if 0 <= i <= s.len() {
        lemma_find_colon_bounds(s, i);
    }
}

/// Split a search path at its colons, keeping empty segments.
pub fn split_path(path: &str) -> (r: Vec<String>)
    ensures
        r.deep_view() == spec_split_path(path@, 0),
{
    let ghost s = path@;
    let n = path.unicode_len();
    let mut segments: Vec<String> = Vec::new();
    let mut current: Vec<char> = Vec::new();
    let ghost mut seg_start = 0int;
    let mut i: usize = 0;

    loop
        invariant_except_break
            i <= n,
            s == path@,
            n == s.len(),
            0 <= seg_start <= i as int,
            current@ == s.subrange(seg_start, i as int),
            spec_find_colon(s, seg_start) == spec_find_colon(s, i as int),
            spec_split_path(s, 0) == segments.deep_view() + spec_split_path(s, seg_start),
        ensures
            spec_split_path(s, 0) == segments.deep_view(),
        decreases n - i,
    {
        proof {
            lemma_find_colon_bounds(s, seg_start);
        }
        if i >= n {
            let word = crate::parser::chars_to_string(current);
            segments.push(word);
            proof {
                assert(current@ =~= s.subrange(seg_start, s.len() as int));
                assert(seq![current@] =~= spec_split_path(s, seg_start));
                assert(segments.deep_view() =~= spec_split_path(s, 0));
            }
            break ;
        }
        let c = path.get_char(i);
        if c == ':' {
            let word = crate::parser::chars_to_string(current);
            segments.push(word);
            current = Vec::new();
            proof {
                assert(spec_find_colon(s, i as int) == i as int);
                assert(spec_split_path(s, seg_start) == seq![s.subrange(seg_start, i as int)]
                    + spec_split_path(s, i + 1));
                assert(segments.deep_view() + spec_split_path(s, i + 1) =~= spec_split_path(
                    s,
                    0,
                ));
                seg_start = i + 1;
                assert(current@ =~= s.subrange(seg_start, i + 1));
            }
        } else {
            current.push(c);
            proof {
                assert(current@ =~= s.subrange(seg_start, i + 1));
            }
        }
        i = i + 1;
    }
    segments
}

/// Character-for-character string equality.
pub(crate) fn str_eq(a: &str, b: &str) -> (r: bool)
    ensures
        r == (a@ == b@),
{
    let a_len = a.unicode_len();
    let b_len = b.unicode_len();
    if a_len != b_len {
        return false;
    }
    let mut i: usize = 0;
    while i < a_len
        invariant
            i <= a_len,
            a_len == a@.len(),
            a_len == b@.len(),
            forall|k: int| 0 <= k < i ==> a@[k] == b@[k],
        decreases a_len - i,
    {
        if a.get_char(i) != b.get_char(i) {
            return false;
        }
        i = i + 1;
    }
    proof {
        assert(a@ =~= b@);
    }
    true
}

} // verus!
