//! The order of entries within a directory: by name, as in a dictionary.
//!
//! Entries of one directory are kept in the order of their names. Entries
//! with the same name keep the order in which they came.

use vstd::prelude::*;
use crate::entry::{entry_views, Entry, EntryView};
use crate::path::{file_name, name_of};
use crate::text::{is_before, lemma_order_chain, lemma_order_one_way, stands_before};

verus! {

/// Whether the name of `a` stands before the name of `b`.
pub open spec fn entry_before(a: EntryView, b: EntryView) -> bool {
    stands_before(name_of(a.path), name_of(b.path))
}

/// Whether no entry of `s` has a name that stands before the name of an
/// entry in front of it.
pub open spec fn in_name_order(s: Seq<EntryView>) -> bool {
    forall|i: int, j: int| 0 <= i < j < s.len() ==> !entry_before(#[trigger] s[j], #[trigger] s[i])
}

/// Where `e` goes into `s`: in front of the entries at the end of `s` that
/// it stands before, behind everything else.
pub open spec fn slot(s: Seq<EntryView>, e: EntryView) -> int
    decreases s.len(),
{
    if s.len() == 0 || !entry_before(e, s.last()) {
        s.len() as int
    } else {
        slot(s.drop_last(), e)
    }
}

/// `s` with `e` put in at its slot.
pub open spec fn insert_by_name(s: Seq<EntryView>, e: EntryView) -> Seq<EntryView> {
    s.insert(slot(s, e), e)
}

/// The entries of `s` in the order of their names, entries of one name in
/// the order that they have in `s`.
pub open spec fn sort_by_name(s: Seq<EntryView>) -> Seq<EntryView>
    decreases s.len(),
{
    if s.len() == 0 {
        s
    } else {
        insert_by_name(sort_by_name(s.drop_last()), s.last())
    }
}

/// The slot of `e` lies behind every entry that `e` does not stand before
/// at the end of `s`, and in front of a run of entries that it stands before.
pub proof fn lemma_slot(s: Seq<EntryView>, e: EntryView)
    ensures
        0 <= slot(s, e) <= s.len(),
        forall|k: int| slot(s, e) <= k < s.len() ==> entry_before(e, #[trigger] s[k]),
        slot(s, e) > 0 ==> !entry_before(e, s[slot(s, e) - 1]),
    decreases s.len(),
{
    if s.len() > 0 && entry_before(e, s.last()) {
        let front = s.drop_last();
        lemma_slot(front, e);
        assert forall|k: int| slot(s, e) <= k < s.len() implies entry_before(e, #[trigger] s[k]) by {
            if k < front.len() {
                assert(s[k] == front[k]);
            }
        }
    }
}

/// A position with the properties of the slot is the slot.
pub proof fn lemma_slot_unique(s: Seq<EntryView>, e: EntryView, j: int)
    requires
        0 <= j <= s.len(),
        forall|k: int| j <= k < s.len() ==> entry_before(e, #[trigger] s[k]),
        j > 0 ==> !entry_before(e, s[j - 1]),
    ensures
        slot(s, e) == j,
    decreases s.len(),
{
    if s.len() > 0 {
        if j == s.len() {
        } else {
            assert(entry_before(e, s[s.len() - 1]));
            let front = s.drop_last();
            assert forall|k: int| j <= k < front.len() implies entry_before(
                e,
                #[trigger] front[k],
            ) by {
                assert(front[k] == s[k]);
            }
            lemma_slot_unique(front, e, j);
        }
    }
}

/// Putting an entry in keeps the order of names.
pub proof fn lemma_insert_ordered(s: Seq<EntryView>, e: EntryView)
    requires
        in_name_order(s),
    ensures
        in_name_order(insert_by_name(s, e)),
{
    lemma_slot(s, e);
    let at = slot(s, e);
    let t = insert_by_name(s, e);
    assert forall|i: int, j: int| 0 <= i < j < t.len() implies !entry_before(
        #[trigger] t[j],
        #[trigger] t[i],
    ) by {
        if j < at {
            assert(t[i] == s[i] && t[j] == s[j]);
        } else if j == at {
            assert(t[j] == e && t[i] == s[i]);
            if i < at - 1 {
                lemma_order_chain(name_of(s[i].path), name_of(s[at - 1].path), name_of(e.path));
            }
        } else if i == at {
            assert(t[i] == e && t[j] == s[j - 1]);
            lemma_order_one_way(name_of(e.path), name_of(s[j - 1].path));
        } else if i < at {
            assert(t[i] == s[i] && t[j] == s[j - 1]);
        } else {
            assert(t[i] == s[i - 1] && t[j] == s[j - 1]);
        }
    }
}

/// Sorting puts the entries in the order of their names.
pub proof fn lemma_sort_ordered(s: Seq<EntryView>)
    ensures
        in_name_order(sort_by_name(s)),
    decreases s.len(),
{
    if s.len() > 0 {
        lemma_sort_ordered(s.drop_last());
        lemma_insert_ordered(sort_by_name(s.drop_last()), s.last());
    }
}

/// Sorting neither adds an entry nor drops one: every entry occurs as often
/// as before.
pub proof fn lemma_sort_permutes(s: Seq<EntryView>)
    ensures
        sort_by_name(s).to_multiset() == s.to_multiset(),
        sort_by_name(s).len() == s.len(),
        forall|x: EntryView| sort_by_name(s).contains(x) <==> s.contains(x),
    decreases s.len(),
{
    broadcast use vstd::seq_lib::group_to_multiset_ensures;

    if s.len() > 0 {
        let front = s.drop_last();
        let sorted = sort_by_name(front);
        lemma_sort_permutes(front);
        lemma_slot(sorted, s.last());
        let at = slot(sorted, s.last());
        let out = sort_by_name(s);
        assert(out.remove(at) =~= sorted);
        assert(out[at] == s.last());
        assert(out.remove(at).to_multiset() =~= out.to_multiset().remove(out[at]));
        assert(front.push(s.last()) =~= s);
        assert(s.to_multiset() =~= front.to_multiset().insert(s.last()));
        assert(out.to_multiset().count(s.last()) > 0) by {
            assert(out.contains(s.last()));
        }
        assert(out.to_multiset() =~= sorted.to_multiset().insert(s.last()));
    }
    assert forall|x: EntryView| sort_by_name(s).contains(x) <==> s.contains(x) by {
        assert(sort_by_name(s).contains(x) <==> sort_by_name(s).to_multiset().count(x) > 0);
        assert(s.contains(x) <==> s.to_multiset().count(x) > 0);
    }
}

/// Entries that are in the order of their names stay as they are.
pub proof fn lemma_sort_fixed(s: Seq<EntryView>)
    requires
        in_name_order(s),
    ensures
        sort_by_name(s) == s,
    decreases s.len(),
{
    if s.len() > 0 {
        let front = s.drop_last();
        assert forall|i: int, j: int| 0 <= i < j < front.len() implies !entry_before(
            #[trigger] front[j],
            #[trigger] front[i],
        ) by {
            assert(front[i] == s[i] && front[j] == s[j]);
        }
        lemma_sort_fixed(front);
        if front.len() > 0 {
            assert(front.last() == s[s.len() - 2]);
            assert(!entry_before(s[s.len() - 1], s[s.len() - 2]));
        }
        assert(front.insert(front.len() as int, s.last()) =~= s);
    }
}

/// Puts `entry` into `members` at its slot.
pub fn insert_member(members: &mut Vec<Entry>, entry: Entry)
    ensures
        entry_views(final(members)@) == insert_by_name(entry_views(old(members)@), entry@),
{
    let name = file_name(entry.path.as_str());
    let ghost before = entry_views(members@);
    let mut j: usize = members.len();
    loop
        invariant
            j <= members.len(),
            members@ == old(members)@,
            before == entry_views(members@),
            name@ == name_of(entry@.path),
            forall|k: int| j <= k < before.len() ==> entry_before(entry@, #[trigger] before[k]),
        ensures
            j <= members.len(),
            members@ == old(members)@,
            before == entry_views(members@),
            forall|k: int| j <= k < before.len() ==> entry_before(entry@, #[trigger] before[k]),
            j > 0 ==> !entry_before(entry@, before[j - 1]),
        decreases j,
    {
        if j == 0 {
            break ;
        }
        let other = file_name(members[j - 1].path.as_str());
        assert(before[j - 1] == members@[j - 1]@);
        if !is_before(name.as_str(), other.as_str()) {
            break ;
        }
        j = j - 1;
    }
    proof {
        lemma_slot_unique(before, entry@, j as int);
    }
    members.insert(j, entry);
    proof {
        assert(entry_views(members@) =~= before.insert(j as int, entry@));
    }
}

} // verus!
