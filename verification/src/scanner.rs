//! The directory walker's rules: how a traversal is configured and which of
//! the entries it meets are handed on as files.
//!
//! The traversal itself reads the file system and belongs to the caller,
//! who configures it from [`WalkSettings`] and feeds what it yields, in its
//! own order, to [`RustDirectoryScanner::walk`].

use crate::cli::texts;
use vstd::prelude::*;

verus! {

/// How the traversal is to be configured.
#[derive(Clone, Copy, Debug, PartialEq, Eq, Structural)]
pub struct WalkSettings {
    /// Leave hidden entries out.
    pub skip_hidden: bool,
    /// How deep to recurse; `None` for no ceiling.
    pub max_depth: Option<usize>,
    /// Honor the repository's ignore files.
    pub git_ignore: bool,
    /// Honor plain ignore files.
    pub ignore_files: bool,
}

/// One thing the traversal yields.
#[derive(Debug)]
pub enum WalkEntry {
    /// An entry that could not be read: no permission, a broken link.
    Unreadable,
    /// A readable entry; `path` is `None` when the path is not valid UTF-8.
    Found { is_file: bool, path: Option<String> },
}

/// The path of an entry that is handed on: a regular file whose path is
/// text. Directories, special files and unreadable entries are not.
pub open spec fn yielded(entry: WalkEntry) -> Option<Seq<char>> {
    match entry {
        WalkEntry::Found { is_file: true, path: Some(p) } => Some(p@),
        _ => None,
    }
}

/// The paths handed on for the entries of a traversal, in traversal order.
pub open spec fn yielded_paths(entries: Seq<WalkEntry>) -> Seq<Seq<char>>
    decreases entries.len(),
{
    if entries.len() == 0 {
        Seq::empty()
    } else {
        match yielded(entries.last()) {
            Some(p) => yielded_paths(entries.drop_last()).push(p),
            None => yielded_paths(entries.drop_last()),
        }
    }
}

/// A walker over a root, with or without hidden entries and with an
/// optional depth ceiling.
#[derive(Clone, Copy, Debug)]
pub struct RustDirectoryScanner {
    hidden: bool,
    max_depth: Option<usize>,
}

impl RustDirectoryScanner {
    /// `hidden` asks for hidden entries to be included; by default they are
    /// not.
    pub fn new(hidden: bool, max_depth: Option<usize>) -> (scanner: Self)
        ensures
            scanner.includes_hidden() == hidden,
            scanner.depth_ceiling() == max_depth,
    {
        RustDirectoryScanner { hidden, max_depth }
    }

    pub closed spec fn includes_hidden(&self) -> bool {
        self.hidden
    }

    pub closed spec fn depth_ceiling(&self) -> Option<usize> {
        self.max_depth
    }

    /// The configuration of the traversal. Ignore files are honored whether
    /// or not hidden entries are asked for.
    pub fn settings(&self) -> (settings: WalkSettings)
        ensures
            settings.skip_hidden == !self.includes_hidden(),
            settings.max_depth == self.depth_ceiling(),
            settings.git_ignore,
            settings.ignore_files,
    {
        WalkSettings {
            skip_hidden: !self.hidden,
            max_depth: self.max_depth,
            git_ignore: true,
            ignore_files: true,
        }
    }

    /// Picks the files out of what a traversal yields. Entries that could
    /// not be read are skipped, and the walk goes on. The order is that of
    /// the traversal; callers that need a fixed order sort.
    pub fn walk(&self, entries: &Vec<WalkEntry>) -> (files: Vec<String>)
        ensures
            texts(files@) == yielded_paths(entries@),
    {
        let mut files: Vec<String> = Vec::new();
        let mut k: usize = 0;
        proof {
            assert(entries@.subrange(0, 0) =~= Seq::<WalkEntry>::empty());
            assert(texts(files@) =~= yielded_paths(entries@.subrange(0, 0)));
        }
        while k < entries.len()
            invariant
                k <= entries.len(),
                texts(files@) == yielded_paths(entries@.subrange(0, k as int)),
            decreases entries.len() - k,
        {
            proof {
                assert(entries@.subrange(0, k + 1).drop_last() =~= entries@.subrange(0, k as int));
                assert(entries@.subrange(0, k + 1).last() == entries@[k as int]);
            }
            match &entries[k] {
                WalkEntry::Found { is_file: true, path: Some(p) } => {
                    let ghost before = files@;
                    files.push(p.clone());
                    proof {
                        assert(texts(before.push(files@.last())) =~= texts(before).push(p@));
                    }
                },
                _ => {},
            }
            k = k + 1;
        }
        proof {
            assert(entries@.subrange(0, entries.len() as int) =~= entries@);
        }
        files
    }
}

/// Only regular files are handed on, and every one of them stands for an
/// entry of the traversal.
pub proof fn yielded_paths_are_files(entries: Seq<WalkEntry>, k: int)
    requires
        0 <= k < yielded_paths(entries).len(),
    ensures
        exists|j: int|
            0 <= j < entries.len() && yielded(#[trigger] entries[j]) == Some(
                yielded_paths(entries)[k],
            ),
    decreases entries.len(),
{
    let shorter = entries.drop_last();
    if yielded(entries.last()) is Some && k == yielded_paths(shorter).len() {
        assert(yielded(entries[entries.len() - 1]) == Some(yielded_paths(entries)[k]));
    } else {
        yielded_paths_are_files(shorter, k);
        let j = choose|j: int|
            0 <= j < shorter.len() && yielded(#[trigger] shorter[j]) == Some(
                yielded_paths(shorter)[k],
            );
        assert(entries[j] == shorter[j]);
    }
}

/// A path that the traversal does not hand over as a regular file is not
/// in the result: what the traversal leaves out, by an ignore rule or for
/// any other reason, the walk never adds.
pub proof fn unyielded_path_is_absent(entries: Seq<WalkEntry>, path: Seq<char>)
    requires
        forall|j: int| 0 <= j < entries.len() ==> yielded(#[trigger] entries[j]) != Some(path),
    ensures
        !yielded_paths(entries).contains(path),
{
    if yielded_paths(entries).contains(path) {
        let k = choose|k: int| 0 <= k < yielded_paths(entries).len() && yielded_paths(entries)[k] == path;
        yielded_paths_are_files(entries, k);
    }
}

} // verus!
