//! What is left of a run over many files once every file has been tried.
//!
//! Each file is hashed on its own, by whoever runs the work and in any
//! order. A file that gave no hash contributes nothing: only the hashes go
//! on to be grouped.

use crate::group::{duplicates, entries_of, group_duplicates, GroupMap};
use crate::hash::{ImageHash, Skip};
use vstd::prelude::*;

verus! {

/// The hashes among the outcomes, in the order of the outcomes.
pub open spec fn hashed_of<P>(outcomes: Seq<Result<ImageHash<P>, Skip>>) -> Seq<ImageHash<P>>
    decreases outcomes.len(),
{
    if outcomes.len() == 0 {
        Seq::empty()
    } else {
        match outcomes.last() {
            Ok(image) => hashed_of(outcomes.drop_last()).push(image),
            Err(_) => hashed_of(outcomes.drop_last()),
        }
    }
}

/// A skipped file adds no hash, whatever the reason for the skip, and a
/// hashed file adds exactly its hash.
pub proof fn lemma_hashed_of_push<P>(
    outcomes: Seq<Result<ImageHash<P>, Skip>>,
    outcome: Result<ImageHash<P>, Skip>,
)
    ensures
        outcome is Err ==> hashed_of(outcomes.push(outcome)) == hashed_of(outcomes),
        outcome matches Ok(image) ==> hashed_of(outcomes.push(outcome)) == hashed_of(
            outcomes,
        ).push(image),
        hashed_of(outcomes).len() <= outcomes.len(),
    decreases outcomes.len(),
{
    assert(outcomes.push(outcome).drop_last() =~= outcomes);
    if outcomes.len() > 0 {
        lemma_hashed_of_push(outcomes.drop_last(), outcomes.last());
        assert(outcomes.drop_last().push(outcomes.last()) =~= outcomes);
    }
}

/// Keeps the hashes and drops the skips.
pub fn successes<P>(outcomes: Vec<Result<ImageHash<P>, Skip>>) -> (hashed: Vec<ImageHash<P>>)
    ensures
        hashed@ == hashed_of(outcomes@),
{
    let mut hashed = Vec::new();
    for outcome in iter: outcomes
        invariant
            iter.seq() == outcomes@,
            hashed@ == hashed_of(outcomes@.take(iter.index() as int)),
    {
        let ghost done = iter.index() as int;
        assert(outcomes@.take(done + 1).drop_last() =~= outcomes@.take(done));
        match outcome {
            Ok(image) => {
                hashed.push(image);
            },
            Err(_) => {},
        }
    }
    assert(outcomes@.take(outcomes@.len() as int) =~= outcomes@);
    hashed
}

/// From the outcomes of all files to the groups of look-alikes and the
/// number of images that were hashed.
pub fn summarize<P>(outcomes: Vec<Result<ImageHash<P>, Skip>>) -> (found: (GroupMap<P>, usize))
    ensures
        found.0@ == duplicates(entries_of(hashed_of(outcomes@))),
        found.1 == hashed_of(outcomes@).len(),
{
    group_duplicates(successes(outcomes))
}

} // verus!
