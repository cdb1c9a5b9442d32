//! Paths of a traversal, read as text.
//!
//! A path is the traversal root followed by one name per level, each behind a
//! `/`: `.` is a root, `./sub/b.txt` lies two levels below it. A path without
//! any `/` is a root. Everything here is total: no path is malformed, an
//! empty name is a name like any other.

use vstd::prelude::*;
use crate::text::{find_last, last_index, lemma_last_index, slice_of};

verus! {

/// The character that parts the levels of a path.
pub const SEPARATOR: char = '/';

/// A path that names the traversal root itself: it holds no separator.
pub open spec fn is_root(path: Seq<char>) -> bool {
    last_index(path, SEPARATOR) < 0
}

/// The directory that holds `path`: what stands in front of the last
/// separator. A root has no parent; for it this is the empty text.
pub open spec fn parent_of(path: Seq<char>) -> Seq<char> {
    if is_root(path) {
        Seq::empty()
    } else {
        path.take(last_index(path, SEPARATOR))
    }
}

/// The last name of `path`: what stands behind the last separator, or all of
/// `path` for a root.
pub open spec fn name_of(path: Seq<char>) -> Seq<char> {
    path.skip(last_index(path, SEPARATOR) + 1)
}

/// How many levels `path` lies below the root.
pub open spec fn depth_of(path: Seq<char>) -> nat
    decreases path.len(),
{
    if is_root(path) {
        0
    } else {
        proof {
            lemma_last_index(path, SEPARATOR);
        }
        1 + depth_of(parent_of(path))
    }
}

/// Whether `path` is cut from the traversal: its own name is one of `names`,
/// or the directory that holds it is cut. A root is never cut.
pub open spec fn pruned(path: Seq<char>, names: Set<Seq<char>>) -> bool
    decreases path.len(),
{
    if is_root(path) {
        false
    } else {
        proof {
            lemma_last_index(path, SEPARATOR);
        }
        names.contains(name_of(path)) || pruned(parent_of(path), names)
    }
}

/// Whether `high` is `low` itself or one of the directories above it.
pub open spec fn at_or_above(high: Seq<char>, low: Seq<char>) -> bool
    decreases low.len(),
{
    if high == low {
        true
    } else if is_root(low) {
        false
    } else {
        proof {
            lemma_last_index(low, SEPARATOR);
        }
        at_or_above(high, parent_of(low))
    }
}

/// The names that a list of strings holds.
pub open spec fn name_set(names: Seq<String>) -> Set<Seq<char>> {
    Set::new(|x: Seq<char>| exists|i: int| 0 <= i < names.len() && names[i]@ == x)
}

/// A path is its parent, a separator and its name.
pub proof fn lemma_path_parts(path: Seq<char>)
    requires
        !is_root(path),
    ensures
        path == parent_of(path) + seq![SEPARATOR] + name_of(path),
        parent_of(path).len() < path.len(),
        last_index(name_of(path), SEPARATOR) == -1,
{
    lemma_last_index(path, SEPARATOR);
    let i = last_index(path, SEPARATOR);
    assert(path =~= path.take(i) + seq![SEPARATOR] + path.skip(i + 1));
    let name = name_of(path);
    assert forall|j: int| 0 <= j < name.len() implies name[j] != SEPARATOR by {
        assert(name[j] == path[i + 1 + j]);
    }
    crate::text::lemma_last_index_unique(name, SEPARATOR, -1);
}

/// The directory that holds `path`, or `None` for a root.
pub fn parent(path: &str) -> (r: Option<String>)
    ensures
        match r {
            Some(p) => !is_root(path@) && p@ == parent_of(path@),
            None => is_root(path@),
        },
{
    match find_last(path, SEPARATOR) {
        Some(i) => {
            proof {
                lemma_last_index(path@, SEPARATOR);
            }
            Some(slice_of(path, 0, i))
        },
        None => None,
    }
}

/// The last name of `path`.
pub fn file_name(path: &str) -> (r: String)
    ensures
        r@ == name_of(path@),
{
    let len = path.unicode_len();
    match find_last(path, SEPARATOR) {
        Some(i) => {
            proof {
                lemma_last_index(path@, SEPARATOR);
            }
            slice_of(path, i + 1, len)
        },
        None => {
            assert(path@.skip(0) =~= path@);
            path.to_owned()
        },
    }
}

/// How many levels `path` lies below the root.
pub fn depth(path: &str) -> (d: usize)
    ensures
        d == depth_of(path@),
{
    let len = path.unicode_len();
    let mut rest: String = path.to_owned();
    let mut d: usize = 0;
    loop
        invariant
            depth_of(path@) == d + depth_of(rest@),
            d + rest@.len() <= len,
        ensures
            d == depth_of(path@),
        decreases rest@.len(),
    {
        match parent(rest.as_str()) {
            Some(p) => {
                proof {
                    lemma_last_index(rest@, SEPARATOR);
                }
                rest = p;
                d = d + 1;
            },
            None => {
                break ;
            },
        }
    }
    d
}

/// Whether `names` holds `name`.
pub fn holds_name(names: &Vec<String>, name: &String) -> (r: bool)
    ensures
        r == name_set(names@).contains(name@),
{
    let mut i: usize = 0;
    while i < names.len()
        invariant
            i <= names.len(),
            forall|j: int| 0 <= j < i ==> names@[j]@ != name@,
        decreases names.len() - i,
    {
        if names[i] == *name {
            return true;
        }
        i = i + 1;
    }
    false
}

/// Whether `path` is cut from the traversal by one of `names`.
pub fn is_pruned(path: &str, names: &Vec<String>) -> (r: bool)
    ensures
        r == pruned(path@, name_set(names@)),
{
    let mut rest: String = path.to_owned();
    loop
        invariant
            pruned(path@, name_set(names@)) == pruned(rest@, name_set(names@)),
        ensures
            !pruned(path@, name_set(names@)),
        decreases rest@.len(),
    {
        let name = file_name(rest.as_str());
        match parent(rest.as_str()) {
            Some(p) => {
                proof {
                    lemma_last_index(rest@, SEPARATOR);
                }
                if holds_name(names, &name) {
                    return true;
                }
                rest = p;
            },
            None => {
                break ;
            },
        }
    }
    false
}

} // verus!
