//! Images grouped by digest.
//!
//! Every hashed image is filed under the digest of its fingerprint, in the
//! order in which the images arrive. Digests that a single image has are
//! then dropped: what is left are the groups of images that look alike.

use crate::digest::digest;
use crate::hash::ImageHash;
use vstd::prelude::*;

verus! {

/// The paths, in order of arrival, of the entries filed under `key`.
pub open spec fn paths_of<P>(entries: Seq<(Seq<char>, P)>, key: Seq<char>) -> Seq<P>
    decreases entries.len(),
{
    if entries.len() == 0 {
        Seq::empty()
    } else if entries.last().0 == key {
        paths_of(entries.drop_last(), key).push(entries.last().1)
    } else {
        paths_of(entries.drop_last(), key)
    }
}

/// All entries, each path filed under its digest.
pub open spec fn grouped<P>(entries: Seq<(Seq<char>, P)>) -> Map<Seq<char>, Seq<P>> {
    Map::new(
        |key: Seq<char>| paths_of(entries, key).len() > 0,
        |key: Seq<char>| paths_of(entries, key),
    )
}

/// The groups with two paths or more.
pub open spec fn duplicates<P>(entries: Seq<(Seq<char>, P)>) -> Map<Seq<char>, Seq<P>> {
    Map::new(
        |key: Seq<char>| paths_of(entries, key).len() > 1,
        |key: Seq<char>| paths_of(entries, key),
    )
}

/// The digest and path of each hashed image, in the order given.
pub open spec fn entries_of<P>(images: Seq<ImageHash<P>>) -> Seq<(Seq<char>, P)> {
    Seq::new(images.len(), |i: int| (digest(images[i].hash@), images[i].path))
}

/// What is left of a mapping when the digests with fewer than two paths are
/// dropped.
pub open spec fn with_two_or_more<P>(map: Map<Seq<char>, Seq<P>>) -> Map<Seq<char>, Seq<P>> {
    Map::new(
        |key: Seq<char>| map.contains_key(key) && map[key].len() > 1,
        |key: Seq<char>| map[key],
    )
}

/// Dropping the digests with fewer than two paths from all groups leaves
/// the groups with two paths or more.
pub proof fn lemma_duplicates_of_grouped<P>(entries: Seq<(Seq<char>, P)>)
    ensures
        with_two_or_more(grouped(entries)) == duplicates(entries),
{
    assert(with_two_or_more(grouped(entries)) =~= duplicates(entries));
}

/// A digest that exactly one path has is not among the groups reported, and
/// every group reported has at least two paths.
pub proof fn lemma_singletons_dropped<P>(entries: Seq<(Seq<char>, P)>)
    ensures
        forall|key: Seq<char>|
            paths_of(entries, key).len() == 1 ==> !duplicates(entries).contains_key(key),
        forall|key: Seq<char>| #[trigger]
            duplicates(entries).contains_key(key) ==> duplicates(entries)[key].len() >= 2,
{
}

/// Without entries there are no groups.
pub proof fn lemma_no_entries<P>()
    ensures
        grouped(Seq::<(Seq<char>, P)>::empty()) == Map::<Seq<char>, Seq<P>>::empty(),
        duplicates(Seq::<(Seq<char>, P)>::empty()) == Map::<Seq<char>, Seq<P>>::empty(),
{
    let none = Seq::<(Seq<char>, P)>::empty();
    assert(grouped(none) =~= Map::<Seq<char>, Seq<P>>::empty());
    assert(duplicates(none) =~= Map::<Seq<char>, Seq<P>>::empty());
}

/// The images that share one digest.
#[derive(Debug)]
pub struct Group<P> {
    pub digest: String,
    pub paths: Vec<P>,
}

/// The number of paths in all of `groups` together.
pub open spec fn count_paths<P>(groups: Seq<Group<P>>) -> nat
    decreases groups.len(),
{
    if groups.len() == 0 {
        0
    } else {
        count_paths(groups.drop_last()) + groups.last().paths@.len()
    }
}

/// Whether one of `groups` has the digest `key`.
pub open spec fn has_key<P>(groups: Seq<Group<P>>, key: Seq<char>) -> bool {
    exists|i: int| 0 <= i < groups.len() && #[trigger] groups[i].digest@ == key
}

/// The position in `groups` of the group with the digest `key`.
pub open spec fn position_of<P>(groups: Seq<Group<P>>, key: Seq<char>) -> int {
    choose|i: int| 0 <= i < groups.len() && #[trigger] groups[i].digest@ == key
}

/// No two of `groups` have the same digest, and none is empty.
pub open spec fn distinct_groups<P>(groups: Seq<Group<P>>) -> bool {
    &&& forall|i: int, j: int|
        0 <= i < j < groups.len() ==> #[trigger] groups[i].digest@ != #[trigger] groups[j].digest@
    &&& forall|i: int| 0 <= i < groups.len() ==> (#[trigger] groups[i]).paths@.len() > 0
}

/// The map from digest to paths that `groups` stand for.
pub open spec fn map_of<P>(groups: Seq<Group<P>>) -> Map<Seq<char>, Seq<P>> {
    Map::new(
        |key: Seq<char>| has_key(groups, key),
        |key: Seq<char>| groups[position_of(groups, key)].paths@,
    )
}

/// Replacing one group changes the number of paths by the difference
/// between the two.
proof fn lemma_count_update<P>(groups: Seq<Group<P>>, i: int, group: Group<P>)
    requires
        0 <= i < groups.len(),
    ensures
        count_paths(groups.update(i, group)) + groups[i].paths@.len() == count_paths(groups)
            + group.paths@.len(),
    decreases groups.len(),
{
    let updated = groups.update(i, group);
    if i == groups.len() - 1 {
        assert(updated.drop_last() =~= groups.drop_last());
    } else {
        assert(updated.drop_last() =~= groups.drop_last().update(i, group));
        lemma_count_update(groups.drop_last(), i, group);
    }
}

/// A mapping from digest to the paths of the images that have it.
#[derive(Debug)]
pub struct GroupMap<P> {
    groups: Vec<Group<P>>,
}

impl<P> View for GroupMap<P> {
    type V = Map<Seq<char>, Seq<P>>;

    open spec fn view(&self) -> Map<Seq<char>, Seq<P>> {
        map_of(self.groups())
    }
}

impl<P> GroupMap<P> {
    /// The groups, in the order in which their digests first arrived.
    pub closed spec fn groups(self) -> Seq<Group<P>> {
        self.groups@
    }

    /// Each digest has one group, and no group is empty.
    #[verifier::type_invariant]
    pub open spec fn well_formed(self) -> bool {
        distinct_groups(self.groups())
    }

    /// The number of paths in all groups together.
    pub open spec fn total_paths(self) -> nat {
        count_paths(self.groups())
    }

    /// The mapping without any digest.
    pub fn new() -> (map: Self)
        ensures
            map@ == Map::<Seq<char>, Seq<P>>::empty(),
            map.total_paths() == 0,
    {
        let map = GroupMap { groups: Vec::new() };
        assert(map@ =~= Map::<Seq<char>, Seq<P>>::empty());
        map
    }

    /// Files `path` under `digest`, behind the paths already there; the
    /// first path of a digest opens its group.
    pub fn insert(&mut self, digest: String, path: P)
        ensures
            final(self)@ == old(self)@.insert(
                digest@,
                if old(self)@.contains_key(digest@) {
                    old(self)@[digest@].push(path)
                } else {
                    seq![path]
                },
            ),
            final(self).total_paths() == old(self).total_paths() + 1,
    {
        proof {
            use_type_invariant(&*self);
        }
        let mut groups: Vec<Group<P>> = Vec::new();
        core::mem::swap(&mut self.groups, &mut groups);
        file_under(&mut groups, digest, path);
        self.groups = groups;
    }

    /// Files every image under the digest of its fingerprint, in the order
    /// given.
    pub fn collect(images: Vec<ImageHash<P>>) -> (map: Self)
        ensures
            map@ == grouped(entries_of(images@)),
            map.total_paths() == images@.len(),
    {
        let ghost entries = entries_of(images@);
        let mut map = GroupMap::new();
        assert(map@ =~= grouped(entries.take(0)));
        for image in iter: images
            invariant
                iter.seq() == images@,
                entries == entries_of(images@),
                map@ == grouped(entries.take(iter.index() as int)),
                map.total_paths() == iter.index(),
        {
            let ghost done = iter.index() as int;
            let digest = image.hexdigest();
            map.insert(digest, image.path);
            proof {
                lemma_grouped_push(entries.take(done), entries[done]);
                assert(entries.take(done).push(entries[done]) =~= entries.take(done + 1));
            }
        }
        assert(entries.take(entries.len() as int) =~= entries);
        map
    }

    /// The number of paths in all groups together, or the largest number
    /// there is if the count is above it.
    pub fn total(&self) -> (count: usize)
        ensures
            count == if self.total_paths() <= usize::MAX {
                self.total_paths() as int
            } else {
                usize::MAX as int
            },
    {
        let ghost all = self.groups@;
        let mut count: usize = 0;
        let mut i: usize = 0;
        while i < self.groups.len()
            invariant
                all == self.groups@,
                i <= all.len(),
                count == if count_paths(all.take(i as int)) <= usize::MAX {
                    count_paths(all.take(i as int)) as int
                } else {
                    usize::MAX as int
                },
            decreases all.len() - i,
        {
            assert(all.take(i + 1).drop_last() =~= all.take(i as int));
            count = count.saturating_add(self.groups[i].paths.len());
            i += 1;
        }
        assert(all.take(all.len() as int) =~= all);
        count
    }

    /// Drops every digest that fewer than two paths were filed under.
    pub fn retain_duplicates(&mut self)
        ensures
            final(self)@ == with_two_or_more(old(self)@),
    {
        proof {
            use_type_invariant(&*self);
        }
        let mut groups: Vec<Group<P>> = Vec::new();
        core::mem::swap(&mut self.groups, &mut groups);
        self.groups = multiples(groups);
    }

    /// The groups, each with its digest and its paths in order of arrival.
    pub fn into_groups(self) -> (groups: Vec<Group<P>>)
        ensures
            distinct_groups(groups@),
            map_of(groups@) == self@,
    {
        proof {
            use_type_invariant(&self);
        }
        self.groups
    }
}

/// Groups the images by digest, counts them, and keeps the digests that two
/// images or more have.
pub fn group_duplicates<P>(images: Vec<ImageHash<P>>) -> (found: (GroupMap<P>, usize))
    ensures
        found.0@ == duplicates(entries_of(images@)),
        found.1 == images@.len(),
{
    assert(images@.len() == images.len());
    let mut map = GroupMap::collect(images);
    let total = map.total();
    // delete all entries with only one image
    map.retain_duplicates();
    proof {
        lemma_duplicates_of_grouped(entries_of(images@));
    }
    (map, total)
}

/// The groups with more than one path, in their order.
fn multiples<P>(groups: Vec<Group<P>>) -> (kept: Vec<Group<P>>)
    requires
        distinct_groups(groups@),
    ensures
        distinct_groups(kept@),
        map_of(kept@) == with_two_or_more(map_of(groups@)),
{
    let ghost all = groups@;
    let mut kept: Vec<Group<P>> = Vec::new();
    // where each kept group stood among all groups
    let ghost mut origin: Seq<int> = Seq::empty();
    for group in iter: groups
        invariant
            iter.seq() == all,
            distinct_groups(all),
            origin.len() == kept@.len(),
            forall|k: int|
                0 <= k < kept@.len() ==> 0 <= #[trigger] origin[k] < iter.index() && kept@[k]
                    == all[origin[k]] && all[origin[k]].paths@.len() > 1,
            forall|k: int, l: int|
                0 <= k < l < kept@.len() ==> #[trigger] origin[k] < #[trigger] origin[l],
            forall|j: int|
                0 <= j < iter.index() && (#[trigger] all[j]).paths@.len() > 1 ==> exists|k: int|
                    0 <= k < kept@.len() && #[trigger] origin[k] == j,
    {
        let ghost j = iter.index() as int;
        if group.paths.len() > 1 {
            let ghost before = kept@;
            let ghost before_origin = origin;
            kept.push(group);
            proof {
                origin = origin.push(j);
                assert forall|i: int|
                    0 <= i < j + 1 && (#[trigger] all[i]).paths@.len() > 1 implies exists|k: int|
                    0 <= k < kept@.len() && #[trigger] origin[k] == i by {
                    if i < j {
                        let k = choose|k: int|
                            0 <= k < before.len() && #[trigger] before_origin[k] == i;
                        assert(origin[k] == i);
                    } else {
                        assert(origin[before.len() as int] == j);
                    }
                }
            }
        }
    }
    proof {
        assert forall|k: int, l: int| 0 <= k < l < kept@.len() implies #[trigger] kept@[k].digest@
            != #[trigger] kept@[l].digest@ by {
            assert(origin[k] < origin[l]);
        }
        assert forall|k: int| 0 <= k < kept@.len() implies (#[trigger] kept@[k]).paths@.len()
            > 0 by {
            assert(kept@[k] == all[origin[k]]);
        }
        assert forall|key: Seq<char>| has_key(kept@, key) == (has_key(all, key)
            && all[position_of(all, key)].paths@.len() > 1) by {
            if has_key(kept@, key) {
                let k = position_of(kept@, key);
                assert(all[origin[k]].digest@ == key);
                let p = position_of(all, key);
                assert(p == origin[k]);
            }
            if has_key(all, key) && all[position_of(all, key)].paths@.len() > 1 {
                let p = position_of(all, key);
                let k = choose|k: int| 0 <= k < kept@.len() && #[trigger] origin[k] == p;
                assert(kept@[k].digest@ == key);
            }
        }
        assert forall|key: Seq<char>| has_key(kept@, key) implies kept@[position_of(
            kept@,
            key,
        )].paths@ == all[position_of(all, key)].paths@ by {
            let k = position_of(kept@, key);
            assert(all[origin[k]].digest@ == key);
            assert(position_of(all, key) == origin[k]);
        }
        assert(map_of(kept@) =~= with_two_or_more(map_of(all)));
    }
    kept
}

/// Filing one more entry adds its path behind those of its digest and
/// leaves the other digests as they were.
pub proof fn lemma_grouped_push<P>(entries: Seq<(Seq<char>, P)>, entry: (Seq<char>, P))
    ensures
        grouped(entries.push(entry)) == grouped(entries).insert(
            entry.0,
            if grouped(entries).contains_key(entry.0) {
                grouped(entries)[entry.0].push(entry.1)
            } else {
                seq![entry.1]
            },
        ),
{
    let longer = entries.push(entry);
    assert(longer.drop_last() =~= entries);
    assert forall|key: Seq<char>| #[trigger]
        paths_of(longer, key) == if key == entry.0 {
            paths_of(entries, key).push(entry.1)
        } else {
            paths_of(entries, key)
        } by {}
    if !grouped(entries).contains_key(entry.0) {
        assert(paths_of(entries, entry.0) =~= Seq::<P>::empty());
        assert(paths_of(longer, entry.0) =~= seq![entry.1]);
    }
    assert(grouped(longer) =~= grouped(entries).insert(
        entry.0,
        if grouped(entries).contains_key(entry.0) {
            grouped(entries)[entry.0].push(entry.1)
        } else {
            seq![entry.1]
        },
    ));
}

/// Appends `path` to the group of `digest`, or opens a group for it behind
/// the others.
fn file_under<P>(groups: &mut Vec<Group<P>>, digest: String, path: P)
    requires
        distinct_groups(old(groups)@),
    ensures
        distinct_groups(final(groups)@),
        map_of(final(groups)@) == map_of(old(groups)@).insert(
            digest@,
            if has_key(old(groups)@, digest@) {
                map_of(old(groups)@)[digest@].push(path)
            } else {
                seq![path]
            },
        ),
        count_paths(final(groups)@) == count_paths(old(groups)@) + 1,
{
    let ghost before = groups@;
    let mut i: usize = 0;
    while i < groups.len()
        invariant
            groups@ == before,
            before == old(groups)@,
            distinct_groups(before),
            i <= before.len(),
            forall|j: int| 0 <= j < i ==> (#[trigger] before[j]).digest@ != digest@,
        decreases before.len() - i,
    {
        if groups[i].digest == digest {
            groups[i].paths.push(path);
            proof {
                let after = groups@;
                assert(after.len() == before.len());
                assert(after[i as int].digest == before[i as int].digest);
                assert(after[i as int].paths@ == before[i as int].paths@.push(path));
                assert(after =~= before.update(i as int, after[i as int]));
                lemma_count_update(before, i as int, after[i as int]);
                assert(distinct_groups(after));
                assert(has_key(before, digest@));
                assert forall|key: Seq<char>| has_key(after, key) == has_key(
                    before,
                    key,
                ) by {
                    if has_key(after, key) {
                        let k = position_of(after, key);
                        assert(before[k].digest@ == key);
                    }
                    if has_key(before, key) {
                        let k = position_of(before, key);
                        assert(after[k].digest@ == key);
                    }
                }
                assert forall|key: Seq<char>| has_key(after, key) implies position_of(
                    after,
                    key,
                ) == position_of(before, key) by {
                    let k = position_of(after, key);
                    let l = position_of(before, key);
                    assert(after[l].digest@ == key);
                }
                assert(position_of(before, digest@) == i);
                assert(map_of(after) =~= map_of(before).insert(
                    digest@,
                    map_of(before)[digest@].push(path),
                ));
            }
            return ;
        }
        i += 1;
    }
    let mut paths = Vec::new();
    paths.push(path);
    groups.push(Group { digest, paths });
    proof {
        let after = groups@;
        assert(after.drop_last() =~= before);
        assert(!has_key(before, digest@));
        assert(distinct_groups(after));
        assert(after[before.len() as int].digest@ == digest@);
        assert forall|key: Seq<char>| has_key(after, key) == (has_key(before, key) || key
            == digest@) by {
            if has_key(after, key) {
                let k = position_of(after, key);
                if k < before.len() {
                    assert(before[k].digest@ == key);
                }
            }
            if has_key(before, key) {
                let k = position_of(before, key);
                assert(after[k].digest@ == key);
            }
        }
        assert forall|key: Seq<char>| has_key(before, key) implies position_of(after, key)
            == position_of(before, key) by {
            let k = position_of(after, key);
            let l = position_of(before, key);
            assert(after[l].digest@ == key);
        }
        assert(position_of(after, digest@) == before.len());
        assert(paths@ =~= seq![path]);
        assert(map_of(after) =~= map_of(before).insert(digest@, seq![path]));
    }
}

} // verus!
