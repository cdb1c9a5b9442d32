//! Which entries of a traversal are listed, and under which directory.
//!
//! The traversal is given as the sequence of entries that it reports, in the
//! order in which it reports them. An entry is listed when it lies at least
//! one and at most `max_depth` levels below the root and neither it nor a
//! directory above it bears a reserved name. The listed entries are grouped by
//! the directory that holds them. Groups stand in the order in which their
//! first entry was reported; within a group the entries stand in the order of
//! their names.

use vstd::prelude::*;
use crate::entry::{entry_views, Entry, EntryView};
use crate::order::{
    in_name_order, insert_by_name, insert_member, lemma_sort_fixed, lemma_sort_ordered,
    lemma_sort_permutes, sort_by_name,
};
use crate::path::{
    at_or_above, depth, depth_of, is_pruned, is_root, name_of, name_set, parent, parent_of,
    pruned,
};

verus! {

/// The listed entries of one directory.
#[derive(Debug)]
pub struct Group {
    /// The path of the directory.
    pub key: String,
    /// The entries that the directory holds, in the order of their names.
    pub members: Vec<Entry>,
}

/// The mathematical value of a [`Group`].
pub struct GroupView {
    pub key: Seq<char>,
    pub members: Seq<EntryView>,
}

impl View for Group {
    type V = GroupView;

    open spec fn view(&self) -> GroupView {
        GroupView { key: self.key@, members: entry_views(self.members@) }
    }
}

/// The values of a sequence of groups, in order.
pub open spec fn group_views(groups: Seq<Group>) -> Seq<GroupView> {
    Seq::new(groups.len(), |i: int| groups[i]@)
}

/// Whether the entry at `path` is listed.
pub open spec fn listed(path: Seq<char>, max_depth: nat, names: Set<Seq<char>>) -> bool {
    1 <= depth_of(path) <= max_depth && !pruned(path, names)
}

/// The test by which `survivors` keeps an entry.
pub open spec fn listed_entry(max_depth: nat, names: Set<Seq<char>>) -> spec_fn(EntryView) -> bool {
    |e: EntryView| listed(e.path, max_depth, names)
}

/// The test by which `members_of` keeps an entry.
pub open spec fn held_by(key: Seq<char>) -> spec_fn(EntryView) -> bool {
    |e: EntryView| parent_of(e.path) == key
}

/// The listed entries of `listing`, in order.
pub open spec fn survivors(listing: Seq<EntryView>, max_depth: nat, names: Set<Seq<char>>) -> Seq<
    EntryView,
> {
    listing.filter(listed_entry(max_depth, names))
}

/// The entries that the directory `key` holds, in order.
pub open spec fn members_of(entries: Seq<EntryView>, key: Seq<char>) -> Seq<EntryView> {
    entries.filter(held_by(key))
}

/// The parent directory of each entry, in order.
pub open spec fn parents(entries: Seq<EntryView>) -> Seq<Seq<char>> {
    Seq::new(entries.len(), |i: int| parent_of(entries[i].path))
}

/// `keys` without repetitions: each key stands where it first occurs.
pub open spec fn distinct(keys: Seq<Seq<char>>) -> Seq<Seq<char>>
    decreases keys.len(),
{
    if keys.len() == 0 {
        Seq::empty()
    } else {
        let front = distinct(keys.drop_last());
        if front.contains(keys.last()) {
            front
        } else {
            front.push(keys.last())
        }
    }
}

/// `entries` grouped by parent directory: one group for each directory that
/// holds an entry, in the order of first appearance, and in each group the
/// entries that the directory holds, sorted by name.
pub open spec fn grouping(entries: Seq<EntryView>) -> Seq<GroupView> {
    let keys = distinct(parents(entries));
    Seq::new(
        keys.len(),
        |i: int| GroupView { key: keys[i], members: sort_by_name(members_of(entries, keys[i])) },
    )
}

/// The groups that a traversal yields.
pub open spec fn walk_spec(listing: Seq<EntryView>, max_depth: nat, names: Set<Seq<char>>) -> Seq<
    GroupView,
> {
    grouping(survivors(listing, max_depth, names))
}

/// `distinct` holds what `keys` holds, each key once.
pub proof fn lemma_distinct(keys: Seq<Seq<char>>)
    ensures
        distinct(keys).no_duplicates(),
        forall|k: Seq<char>| distinct(keys).contains(k) <==> keys.contains(k),
    decreases keys.len(),
{
    if keys.len() > 0 {
        let front = keys.drop_last();
        lemma_distinct(front);
        let d = distinct(front);
        let out = distinct(keys);
        assert forall|k: Seq<char>| out.contains(k) <==> keys.contains(k) by {
            if out.contains(k) {
                let i = choose|i: int| 0 <= i < out.len() && out[i] == k;
                if i < d.len() {
                    assert(d[i] == k);
                    assert(d.contains(k));
                    assert(front.contains(k));
                    let j = choose|j: int| 0 <= j < front.len() && front[j] == k;
                    assert(keys[j] == k);
                } else {
                    assert(keys[keys.len() - 1] == k);
                }
                assert(keys.contains(k));
            }
            if keys.contains(k) {
                let j = choose|j: int| 0 <= j < keys.len() && keys[j] == k;
                if j < front.len() {
                    assert(front[j] == k);
                    assert(front.contains(k));
                    assert(d.contains(k));
                    let i = choose|i: int| 0 <= i < d.len() && d[i] == k;
                    assert(out[i] == k);
                } else if d.contains(k) {
                    let i = choose|i: int| 0 <= i < d.len() && d[i] == k;
                    assert(out[i] == k);
                } else {
                    assert(out[out.len() - 1] == k);
                }
                assert(out.contains(k));
            }
        }
        assert(out.no_duplicates()) by {
            if !d.contains(keys.last()) {
                assert forall|a: int, b: int|
                    0 <= a < out.len() && 0 <= b < out.len() && a != b implies out[a] != out[b] by {
                    if a < d.len() && b < d.len() {
                    } else if a < d.len() {
                        assert(d[a] == out[a]);
                        assert(d.contains(d[a]));
                    } else if b < d.len() {
                        assert(d[b] == out[b]);
                        assert(d.contains(d[b]));
                    }
                }
            }
        }
    }
}

/// The directory that holds the entry listed last either has a group
/// already, which takes the entry in by name, or gets a new group behind the
/// others.
pub proof fn lemma_grouping_push(entries: Seq<EntryView>, e: EntryView)
    ensures
        ({
            let old_groups = grouping(entries);
            let new_groups = grouping(entries.push(e));
            let key = parent_of(e.path);
            &&& forall|j: int|
                0 <= j < old_groups.len() && old_groups[j].key == key ==> new_groups
                    == old_groups.update(
                    j,
                    GroupView { key, members: insert_by_name(old_groups[j].members, e) },
                )
            &&& (forall|j: int| 0 <= j < old_groups.len() ==> old_groups[j].key != key)
                ==> new_groups == old_groups.push(GroupView { key, members: seq![e] })
        }),
{
    let old_groups = grouping(entries);
    let new_groups = grouping(entries.push(e));
    let key = parent_of(e.path);
    let old_keys = distinct(parents(entries));
    let new_keys = distinct(parents(entries.push(e)));
    assert(parents(entries.push(e)).drop_last() =~= parents(entries));
    assert(parents(entries.push(e)).last() == key);
    lemma_distinct(parents(entries));
    assert forall|k: Seq<char>| #![auto] members_of(entries.push(e), k) == if key == k {
        members_of(entries, k).push(e)
    } else {
        members_of(entries, k)
    } by {
        entries.lemma_filter_push(e, held_by(k));
    }
    let held = members_of(entries, key);
    assert(held.push(e).drop_last() =~= held);
    assert(sort_by_name(held.push(e)) == insert_by_name(sort_by_name(held), e));
    if old_keys.contains(key) {
        assert(new_keys == old_keys);
        let at = choose|i: int| 0 <= i < old_keys.len() && old_keys[i] == key;
        assert(old_groups[at].key == key);
        assert forall|j: int|
            0 <= j < old_groups.len() && old_groups[j].key == key implies new_groups
            == old_groups.update(
            j,
            GroupView { key, members: insert_by_name(old_groups[j].members, e) },
        ) by {
            let target = old_groups.update(
                j,
                GroupView { key, members: insert_by_name(old_groups[j].members, e) },
            );
            assert forall|i: int| 0 <= i < new_groups.len() implies new_groups[i] == target[i] by {
                if i != j {
                    assert(old_keys[i] != old_keys[j]);
                }
            }
            assert(new_groups =~= target);
        }
    } else {
        assert(new_keys == old_keys.push(key));
        assert(members_of(entries, key) =~= Seq::<EntryView>::empty()) by {
            let held = members_of(entries, key);
            if held.len() > 0 {
                entries.lemma_filter_pred(held_by(key), 0);
                assert(held.contains(held[0]));
                entries.lemma_filter_contains_rev(held_by(key), held[0]);
                let i = choose|i: int| 0 <= i < entries.len() && entries[i] == held[0];
                assert(parents(entries)[i] == key);
                assert(parents(entries).contains(key));
            }
        }
        assert(sort_by_name(Seq::<EntryView>::empty()) =~= Seq::<EntryView>::empty());
        assert(insert_by_name(Seq::<EntryView>::empty(), e) =~= seq![e]);
        let target = old_groups.push(GroupView { key, members: seq![e] });
        assert forall|i: int| 0 <= i < new_groups.len() implies new_groups[i] == target[i] by {
            if i < old_keys.len() {
                assert(old_keys.contains(old_keys[i]));
            }
        }
        assert(new_groups =~= target);
        assert forall|j: int| 0 <= j < old_groups.len() implies old_groups[j].key != key by {
            assert(old_keys.contains(old_keys[j]));
        }
    }
}

/// Every member of a group is a listed entry of the listing, and lies in
/// the directory that the group is keyed by.
pub proof fn lemma_members_belong(
    listing: Seq<EntryView>,
    max_depth: nat,
    names: Set<Seq<char>>,
    g: int,
    m: int,
)
    requires
        0 <= g < walk_spec(listing, max_depth, names).len(),
        0 <= m < walk_spec(listing, max_depth, names)[g].members.len(),
    ensures
        ({
            let group = walk_spec(listing, max_depth, names)[g];
            &&& parent_of(group.members[m].path) == group.key
            &&& listed(group.members[m].path, max_depth, names)
            &&& listing.contains(group.members[m])
        }),
{
    let kept = survivors(listing, max_depth, names);
    let group = grouping(kept)[g];
    let member = group.members[m];
    let held = members_of(kept, group.key);
    lemma_sort_permutes(held);
    assert(group.members.contains(member));
    assert(held.contains(member));
    let at = choose|at: int| 0 <= at < held.len() && held[at] == member;
    kept.lemma_filter_pred(held_by(group.key), at);
    kept.lemma_filter_contains_rev(held_by(group.key), member);
    let i = choose|i: int| 0 <= i < kept.len() && kept[i] == member;
    listing.lemma_filter_pred(listed_entry(max_depth, names), i);
    assert(kept.contains(member));
    listing.lemma_filter_contains_rev(listed_entry(max_depth, names), member);
}

/// No two groups are keyed by the same directory, and no group is empty.
pub proof fn lemma_groups_distinct(listing: Seq<EntryView>, max_depth: nat, names: Set<Seq<char>>)
    ensures
        forall|g: int, h: int|
            #![trigger walk_spec(listing, max_depth, names)[g], walk_spec(listing, max_depth, names)[h]]
            0 <= g < h < walk_spec(listing, max_depth, names).len() ==> walk_spec(
                listing,
                max_depth,
                names,
            )[g].key != walk_spec(listing, max_depth, names)[h].key,
        forall|g: int|
            0 <= g < walk_spec(listing, max_depth, names).len() ==> (#[trigger] walk_spec(
                listing,
                max_depth,
                names,
            )[g]).members.len() > 0,
{
    let kept = survivors(listing, max_depth, names);
    let keys = distinct(parents(kept));
    let groups = grouping(kept);
    lemma_distinct(parents(kept));
    assert forall|g: int| 0 <= g < groups.len() implies (#[trigger] groups[g]).members.len()
        > 0 by {
        assert(keys.contains(keys[g]));
        assert(parents(kept).contains(keys[g]));
        let i = choose|i: int| 0 <= i < kept.len() && parents(kept)[i] == keys[g];
        kept.lemma_filter_contains(held_by(keys[g]), i);
        lemma_sort_permutes(members_of(kept, keys[g]));
    }
}

/// Every listed entry of the listing is a member of one group, the group of
/// the directory that holds it, and that directory has no other group.
pub proof fn lemma_listed_entry_grouped(
    listing: Seq<EntryView>,
    max_depth: nat,
    names: Set<Seq<char>>,
    i: int,
) -> (g: int)
    requires
        0 <= i < listing.len(),
        listed(listing[i].path, max_depth, names),
    ensures
        0 <= g < walk_spec(listing, max_depth, names).len(),
        walk_spec(listing, max_depth, names)[g].key == parent_of(listing[i].path),
        walk_spec(listing, max_depth, names)[g].members.contains(listing[i]),
        forall|h: int|
            0 <= h < walk_spec(listing, max_depth, names).len() && (#[trigger] walk_spec(
                listing,
                max_depth,
                names,
            )[h]).key == parent_of(listing[i].path) ==> h == g,
{
    let kept = survivors(listing, max_depth, names);
    let keys = distinct(parents(kept));
    let key = parent_of(listing[i].path);
    listing.lemma_filter_contains(listed_entry(max_depth, names), i);
    let k = choose|k: int| 0 <= k < kept.len() && kept[k] == listing[i];
    assert(parents(kept)[k] == key);
    assert(parents(kept).contains(key));
    lemma_distinct(parents(kept));
    assert(keys.contains(key));
    let g = choose|g: int| 0 <= g < keys.len() && keys[g] == key;
    kept.lemma_filter_contains(held_by(key), k);
    lemma_sort_permutes(members_of(kept, key));
    g
}

/// A directory that lies above the depth cutoff and is not cut, and that
/// holds an entry whose name is not reserved, has exactly one group.
pub proof fn lemma_directory_grouped(
    listing: Seq<EntryView>,
    max_depth: nat,
    names: Set<Seq<char>>,
    i: int,
) -> (g: int)
    requires
        0 <= i < listing.len(),
        !is_root(listing[i].path),
        depth_of(parent_of(listing[i].path)) < max_depth,
        !pruned(parent_of(listing[i].path), names),
        !names.contains(name_of(listing[i].path)),
    ensures
        0 <= g < walk_spec(listing, max_depth, names).len(),
        walk_spec(listing, max_depth, names)[g].key == parent_of(listing[i].path),
        forall|h: int|
            0 <= h < walk_spec(listing, max_depth, names).len() && (#[trigger] walk_spec(
                listing,
                max_depth,
                names,
            )[h]).key == parent_of(listing[i].path) ==> h == g,
{
    lemma_listed_entry_grouped(listing, max_depth, names, i)
}

/// What bears a reserved name is cut, and so is everything below it.
pub proof fn lemma_reserved_cuts_below(dir: Seq<char>, path: Seq<char>, names: Set<Seq<char>>)
    requires
        !is_root(dir),
        names.contains(name_of(dir)),
        at_or_above(dir, path),
    ensures
        pruned(path, names),
    decreases path.len(),
{
    if dir != path {
        crate::text::lemma_last_index(path, crate::path::SEPARATOR);
        lemma_reserved_cuts_below(dir, parent_of(path), names);
    }
}

/// A path that continues `dir` behind a separator lies below `dir`.
pub proof fn lemma_continuation_below(dir: Seq<char>, rest: Seq<char>)
    ensures
        at_or_above(dir, dir + seq![crate::path::SEPARATOR] + rest),
    decreases rest.len(),
{
    let sep = crate::path::SEPARATOR;
    let path = dir + seq![sep] + rest;
    let at = crate::text::last_index(rest, sep);
    crate::text::lemma_last_index(rest, sep);
    assert(path[dir.len() as int] == sep);
    assert(path.len() > dir.len());
    if at < 0 {
        assert forall|j: int| dir.len() < j < path.len() implies path[j] != sep by {
            assert(path[j] == rest[j - dir.len() - 1]);
        }
        crate::text::lemma_last_index_unique(path, sep, dir.len() as int);
        assert(parent_of(path) =~= dir);
        assert(at_or_above(dir, dir));
        assert(at_or_above(dir, path));
    } else {
        let cut = dir.len() + 1 + at;
        assert(path[cut] == rest[at]);
        assert forall|j: int| cut < j < path.len() implies path[j] != sep by {
            assert(path[j] == rest[j - dir.len() - 1]);
        }
        crate::text::lemma_last_index_unique(path, sep, cut);
        assert(parent_of(path) =~= dir + seq![sep] + rest.take(at));
        lemma_continuation_below(dir, rest.take(at));
        assert(at_or_above(dir, path));
    }
}

/// Exclusion reaches down: a directory with a reserved name is in no group,
/// nor is anything that lies below it.
pub proof fn lemma_exclusion_recursive(
    listing: Seq<EntryView>,
    max_depth: nat,
    names: Set<Seq<char>>,
    dir: Seq<char>,
    g: int,
    m: int,
)
    requires
        !is_root(dir),
        names.contains(name_of(dir)),
        0 <= g < walk_spec(listing, max_depth, names).len(),
        0 <= m < walk_spec(listing, max_depth, names)[g].members.len(),
    ensures
        !at_or_above(dir, walk_spec(listing, max_depth, names)[g].members[m].path),
{
    let path = walk_spec(listing, max_depth, names)[g].members[m].path;
    lemma_members_belong(listing, max_depth, names, g, m);
    if at_or_above(dir, path) {
        lemma_reserved_cuts_below(dir, path, names);
    }
}

/// With a depth cutoff of one, the listed entries are the children of the
/// root whose name is not reserved, and nothing else.
pub proof fn lemma_cutoff_one(path: Seq<char>, names: Set<Seq<char>>)
    ensures
        listed(path, 1, names) <==> !is_root(path) && is_root(parent_of(path)) && !names.contains(
            name_of(path),
        ),
{
    crate::text::lemma_last_index(path, crate::path::SEPARATOR);
    if !is_root(path) {
        let up = parent_of(path);
        crate::text::lemma_last_index(up, crate::path::SEPARATOR);
        assert(depth_of(path) == 1 + depth_of(up));
        assert(pruned(path, names) == (names.contains(name_of(path)) || pruned(up, names)));
        if is_root(up) {
            assert(depth_of(up) == 0);
            assert(!pruned(up, names));
        } else {
            assert(depth_of(up) == 1 + depth_of(parent_of(up)));
        }
    } else {
        assert(depth_of(path) == 0);
    }
}

/// With a depth cutoff of one, every group is keyed by the root and holds
/// children of the root only.
pub proof fn lemma_cutoff_one_groups(
    listing: Seq<EntryView>,
    names: Set<Seq<char>>,
    g: int,
    m: int,
)
    requires
        0 <= g < walk_spec(listing, 1, names).len(),
        0 <= m < walk_spec(listing, 1, names)[g].members.len(),
    ensures
        is_root(walk_spec(listing, 1, names)[g].key),
        depth_of(walk_spec(listing, 1, names)[g].members[m].path) == 1,
{
    lemma_members_belong(listing, 1, names, g, m);
    lemma_cutoff_one(walk_spec(listing, 1, names)[g].members[m].path, names);
}

/// Within every group the entries stand in the order of their names.
pub proof fn lemma_members_in_name_order(
    listing: Seq<EntryView>,
    max_depth: nat,
    names: Set<Seq<char>>,
    g: int,
)
    requires
        0 <= g < walk_spec(listing, max_depth, names).len(),
    ensures
        in_name_order(walk_spec(listing, max_depth, names)[g].members),
{
    let kept = survivors(listing, max_depth, names);
    lemma_sort_ordered(members_of(kept, grouping(kept)[g].key));
}

/// A group holds the listed entries of its directory, each as often as the
/// listing does. Where the listing reports them in the order of their names,
/// as a traversal that sorts by name does, the group has them in the order
/// of the listing.
pub proof fn lemma_members_are_the_listed(
    listing: Seq<EntryView>,
    max_depth: nat,
    names: Set<Seq<char>>,
    g: int,
)
    requires
        0 <= g < walk_spec(listing, max_depth, names).len(),
    ensures
        ({
            let group = walk_spec(listing, max_depth, names)[g];
            let held = members_of(survivors(listing, max_depth, names), group.key);
            &&& group.members.to_multiset() == held.to_multiset()
            &&& in_name_order(held) ==> group.members == held
        }),
{
    let kept = survivors(listing, max_depth, names);
    let held = members_of(kept, grouping(kept)[g].key);
    lemma_sort_permutes(held);
    if in_name_order(held) {
        lemma_sort_fixed(held);
    }
}

/// Whether the entry at `path` is listed.
pub fn is_listed(path: &str, max_depth: usize, names: &Vec<String>) -> (r: bool)
    ensures
        r == listed(path@, max_depth as nat, name_set(names@)),
{
    let d = depth(path);
    1 <= d && d <= max_depth && !is_pruned(path, names)
}

/// The position of the first group of directory `key`, if there is one.
pub fn find_group(groups: &Vec<Group>, key: &String) -> (r: Option<usize>)
    ensures
        match r {
            Some(j) => j < groups.len() && groups[j as int].key@ == key@ && forall|k: int|
                0 <= k < j ==> groups[k].key@ != key@,
            None => forall|j: int| 0 <= j < groups.len() ==> groups[j].key@ != key@,
        },
{
    let mut j: usize = 0;
    while j < groups.len()
        invariant
            j <= groups.len(),
            forall|k: int| 0 <= k < j ==> groups[k].key@ != key@,
        decreases groups.len() - j,
    {
        if groups[j].key == *key {
            return Some(j);
        }
        j = j + 1;
    }
    None
}

/// Groups the listed entries of a traversal by the directory that holds them.
///
/// `listing` is what the traversal reported, in its order; `exclusions` are
/// the reserved names. The root itself is never listed, nor anything more than
/// `max_depth` levels below it, nor anything at or below a reserved name. A
/// directory without a listed entry gets no group. Each group has its entries
/// in the order of their names.
pub fn walk(listing: &Vec<Entry>, max_depth: usize, exclusions: &Vec<String>) -> (groups: Vec<
    Group,
>)
    ensures
        group_views(groups@) == walk_spec(
            entry_views(listing@),
            max_depth as nat,
            name_set(exclusions@),
        ),
{
    let mut groups: Vec<Group> = Vec::new();
    let mut i: usize = 0;
    let ghost all = entry_views(listing@);
    let ghost names = name_set(exclusions@);
    proof {
        reveal(Seq::filter);
        assert(all.take(0) =~= Seq::<EntryView>::empty());
        assert(group_views(groups@) =~= walk_spec(all.take(0), max_depth as nat, names));
    }
    while i < listing.len()
        invariant
            i <= listing.len(),
            all == entry_views(listing@),
            names == name_set(exclusions@),
            group_views(groups@) == walk_spec(all.take(i as int), max_depth as nat, names),
        decreases listing.len() - i,
    {
        let entry = &listing[i];
        let ghost seen = all.take(i as int);
        let ghost kept = survivors(seen, max_depth as nat, names);
        proof {
            assert(all.take(i + 1) =~= seen.push(entry@));
            seen.lemma_filter_push(entry@, listed_entry(max_depth as nat, names));
            lemma_grouping_push(kept, entry@);
        }
        if is_listed(entry.path.as_str(), max_depth, exclusions) {
            match parent(entry.path.as_str()) {
                Some(key) => {
                    match find_group(&groups, &key) {
                        Some(j) => {
                            let ghost before = groups@;
                            insert_member(&mut groups[j].members, entry.duplicate());
                            proof {
                                assert(group_views(groups@) =~= group_views(before).update(
                                    j as int,
                                    GroupView {
                                        key: key@,
                                        members: insert_by_name(
                                            group_views(before)[j as int].members,
                                            entry@,
                                        ),
                                    },
                                ));
                            }
                        },
                        None => {
                            let ghost before = groups@;
                            let mut members: Vec<Entry> = Vec::new();
                            members.push(entry.duplicate());
                            groups.push(Group { key, members });
                            proof {
                                assert(entry_views(groups@.last().members@) =~= seq![entry@]);
                                assert(group_views(groups@) =~= group_views(before).push(
                                    GroupView { key: key@, members: seq![entry@] },
                                ));
                            }
                        },
                    }
                },
                None => {
                    // A listed entry lies below the root, so it has a parent.
                    assert(false);
                },
            }
        }
        i = i + 1;
    }
    proof {
        assert(all.take(listing.len() as int) =~= all);
    }
    groups
}

} // verus!
