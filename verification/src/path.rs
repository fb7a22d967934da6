//! From the paths that were asked for to the files to hash.
//!
//! A path that is a directory stands for every file below it; any other
//! path stands for itself. Looking at the disk is the caller's work: it says
//! of each path whether it is a directory and, for a directory, what a walk
//! through it came upon.

use vstd::prelude::*;

verus! {

/// One thing that a walk through a directory tree came upon.
#[derive(Debug)]
pub enum WalkEntry {
    /// An entry that could not be read.
    Unreadable,
    /// An entry with its path, and whether it is a directory.
    Found { path: String, is_dir: bool },
}

/// A path that was asked for, with what the disk says of it.
#[derive(Debug)]
pub struct InputPath {
    /// The path as it was given.
    pub path: String,
    /// Whether the path is a directory.
    pub is_dir: bool,
    /// For a directory, what a walk through it came upon, in the order of
    /// the walk.
    pub entries: Vec<WalkEntry>,
}

/// The paths of the entries that were read and are no directories, in the
/// order of the walk.
pub open spec fn files_in(entries: Seq<WalkEntry>) -> Seq<String>
    decreases entries.len(),
{
    if entries.len() == 0 {
        Seq::empty()
    } else {
        match entries.last() {
            WalkEntry::Found { path, is_dir } if !is_dir => files_in(entries.drop_last()).push(
                path,
            ),
            _ => files_in(entries.drop_last()),
        }
    }
}

/// The files that one path stands for: those below it if it is a directory,
/// else the path itself.
pub open spec fn files_of(input: InputPath) -> Seq<String> {
    if input.is_dir {
        files_in(input.entries@)
    } else {
        seq![input.path]
    }
}

/// The files that the paths stand for, path by path in the order given.
pub open spec fn expanded(paths: Seq<InputPath>) -> Seq<String>
    decreases paths.len(),
{
    if paths.len() == 0 {
        Seq::empty()
    } else {
        expanded(paths.drop_last()) + files_of(paths.last())
    }
}

/// The files that the given paths stand for.
pub fn walk_files(paths: Vec<InputPath>) -> (files: Vec<String>)
    ensures
        files@ == expanded(paths@),
{
    let mut files = Vec::new();
    for path in iter: paths
        invariant
            iter.seq() == paths@,
            files@ == expanded(paths@.take(iter.index() as int)),
    {
        let ghost done = iter.index() as int;
        assert(paths@.take(done + 1).drop_last() =~= paths@.take(done));
        if path.is_dir {
            let mut found = walk_files_in_dir(path.entries);
            files.append(&mut found);
        } else {
            files.push(path.path);
            assert(files@ =~= expanded(paths@.take(done)) + seq![path.path]);
        }
    }
    assert(paths@.take(paths@.len() as int) =~= paths@);
    files
}

/// The files among what a walk through a directory came upon: every entry
/// that could be read and is no directory.
pub fn walk_files_in_dir(entries: Vec<WalkEntry>) -> (files: Vec<String>)
    ensures
        files@ == files_in(entries@),
{
    let mut files = Vec::new();
    for entry in iter: entries
        invariant
            iter.seq() == entries@,
            files@ == files_in(entries@.take(iter.index() as int)),
    {
        let ghost done = iter.index() as int;
        assert(entries@.take(done + 1).drop_last() =~= entries@.take(done));
        match entry {
            WalkEntry::Found { path, is_dir } => {
                if !is_dir {
                    files.push(path);
                }
            },
            WalkEntry::Unreadable => {},
        }
    }
    assert(entries@.take(entries@.len() as int) =~= entries@);
    files
}

} // verus!
