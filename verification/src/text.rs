//! Searching and cutting text by a separator character, and the dictionary
//! order of texts.
//!
//! Every function here works on characters (Unicode scalar values), never on
//! bytes, so that positions agree with the `Seq<char>` view of a string.

use vstd::prelude::*;

verus! {

/// Position of the first `c` in `s`, or `s.len()` where `s` holds none.
pub open spec fn first_index(s: Seq<char>, c: char) -> int
    decreases s.len(),
{
    if s.len() == 0 {
        0
    } else if s[0] == c {
        0
    } else {
        1 + first_index(s.skip(1), c)
    }
}

/// Position of the last `c` in `s`, or `-1` where `s` holds none.
pub open spec fn last_index(s: Seq<char>, c: char) -> int
    decreases s.len(),
{
    if s.len() == 0 {
        -1
    } else if s.last() == c {
        s.len() - 1
    } else {
        last_index(s.drop_last(), c)
    }
}

/// The part of `s` in front of its first `c`; all of `s` where it holds none.
pub open spec fn head_before(s: Seq<char>, c: char) -> Seq<char> {
    s.take(first_index(s, c))
}

/// The part of `s` behind its first `c`, if it holds one.
pub open spec fn tail_after(s: Seq<char>, c: char) -> Option<Seq<char>> {
    if first_index(s, c) < s.len() {
        Some(s.skip(first_index(s, c) + 1))
    } else {
        None
    }
}

/// `s` without its first character where that character is `c`, and the
/// empty text where `s` does not begin with `c`.
pub open spec fn rest_after_prefix(s: Seq<char>, c: char) -> Seq<char> {
    if s.len() > 0 && s[0] == c {
        s.skip(1)
    } else {
        Seq::empty()
    }
}

/// `first_index` is the least position that holds `c`.
pub proof fn lemma_first_index(s: Seq<char>, c: char)
    ensures
        0 <= first_index(s, c) <= s.len(),
        first_index(s, c) < s.len() ==> s[first_index(s, c)] == c,
        forall|j: int| 0 <= j < first_index(s, c) ==> s[j] != c,
    decreases s.len(),
{
    if s.len() > 0 && s[0] != c {
        let t = s.skip(1);
        lemma_first_index(t, c);
        assert forall|j: int| 0 <= j < first_index(s, c) implies s[j] != c by {
            if j > 0 {
                assert(s[j] == t[j - 1]);
            }
        }
    }
}

/// A position that holds `c` with no `c` in front of it is `first_index`.
pub proof fn lemma_first_index_unique(s: Seq<char>, c: char, i: int)
    requires
        0 <= i <= s.len(),
        i < s.len() ==> s[i] == c,
        forall|j: int| 0 <= j < i ==> s[j] != c,
    ensures
        first_index(s, c) == i,
{
    lemma_first_index(s, c);
    let f = first_index(s, c);
    if f < i {
        assert(s[f] != c);
    } else if i < f {
        assert(s[i] != c);
    }
}

/// `last_index` is the greatest position that holds `c`.
pub proof fn lemma_last_index(s: Seq<char>, c: char)
    ensures
        -1 <= last_index(s, c) < s.len(),
        last_index(s, c) >= 0 ==> s[last_index(s, c)] == c,
        forall|j: int| last_index(s, c) < j < s.len() ==> s[j] != c,
    decreases s.len(),
{
    if s.len() > 0 && s.last() != c {
        let t = s.drop_last();
        lemma_last_index(t, c);
        assert forall|j: int| last_index(s, c) < j < s.len() implies s[j] != c by {
            if j < t.len() {
                assert(s[j] == t[j]);
            }
        }
    }
}

/// A position that holds `c` with no `c` behind it is `last_index`.
pub proof fn lemma_last_index_unique(s: Seq<char>, c: char, i: int)
    requires
        -1 <= i < s.len(),
        i >= 0 ==> s[i] == c,
        forall|j: int| i < j < s.len() ==> s[j] != c,
    ensures
        last_index(s, c) == i,
{
    lemma_last_index(s, c);
    let l = last_index(s, c);
    if l > i {
        assert(s[l] != c);
    } else if i > l && i >= 0 {
        assert(s[i] != c);
    }
}

/// Finds the first `c` in `s`.
pub fn find_first(s: &str, c: char) -> (r: Option<usize>)
    ensures
        match r {
            Some(i) => i == first_index(s@, c) && i < s@.len(),
            None => first_index(s@, c) == s@.len(),
        },
{
    let len = s.unicode_len();
    let mut i: usize = 0;
    for x in it: s.chars()
        invariant
            it.seq() == s@,
            len == s@.len(),
            i == it.index(),
            i <= len,
            forall|j: int| 0 <= j < i ==> s@[j] != c,
    {
        if x == c {
            proof {
                lemma_first_index_unique(s@, c, i as int);
            }
            return Some(i);
        }
        i = i + 1;
    }
    proof {
        lemma_first_index_unique(s@, c, s@.len() as int);
    }
    None
}

/// Finds the last `c` in `s`.
pub fn find_last(s: &str, c: char) -> (r: Option<usize>)
    ensures
        match r {
            Some(i) => i == last_index(s@, c),
            None => last_index(s@, c) == -1,
        },
{
    let len = s.unicode_len();
    let mut i: usize = 0;
    let mut found: Option<usize> = None;
    for x in it: s.chars()
        invariant
            it.seq() == s@,
            len == s@.len(),
            i == it.index(),
            i <= len,
            match found {
                Some(k) => k < i && s@[k as int] == c && forall|j: int| k < j < i ==> s@[j] != c,
                None => forall|j: int| 0 <= j < i ==> s@[j] != c,
            },
    {
        if x == c {
            found = Some(i);
        }
        i = i + 1;
    }
    proof {
        match found {
            Some(k) => lemma_last_index_unique(s@, c, k as int),
            None => lemma_last_index_unique(s@, c, -1),
        }
    }
    found
}

/// The characters of `s` from position `from` up to, not including, `to`,
/// as a string of its own.
pub fn slice_of(s: &str, from: usize, to: usize) -> (r: String)
    requires
        from <= to <= s@.len(),
    ensures
        r@ == s@.subrange(from as int, to as int),
{
    s.substring_char(from, to).to_owned()
}

/// Cuts `s` at its first `c`: the part in front of it, and the part behind
/// it where `s` holds a `c`.
pub fn split_first(s: &str, c: char) -> (r: (String, Option<String>))
    ensures
        r.0@ == head_before(s@, c),
        match r.1 {
            Some(t) => tail_after(s@, c) == Some(t@),
            None => tail_after(s@, c) is None,
        },
{
    let len = s.unicode_len();
    match find_first(s, c) {
        Some(i) => (slice_of(s, 0, i), Some(slice_of(s, i + 1, len))),
        None => {
            assert(s@.take(s@.len() as int) =~= s@);
            (s.to_owned(), None)
        },
    }
}

/// `s` without its first character where that is `c`; the empty string
/// where `s` does not begin with `c`.
pub fn strip_first(s: &str, c: char) -> (r: String)
    ensures
        r@ == rest_after_prefix(s@, c),
{
    let len = s.unicode_len();
    if len > 0 && s.get_char(0) == c {
        slice_of(s, 1, len)
    } else {
        String::new()
    }
}

/// Whether `a` stands before `b` in dictionary order, characters being
/// compared by their code points. A text stands before every text that it
/// is a proper beginning of.
pub open spec fn stands_before(a: Seq<char>, b: Seq<char>) -> bool
    decreases a.len(),
{
    if b.len() == 0 {
        false
    } else if a.len() == 0 {
        true
    } else if a[0] != b[0] {
        (a[0] as u32) < (b[0] as u32)
    } else {
        stands_before(a.skip(1), b.skip(1))
    }
}

/// Of two texts, at most one stands before the other.
pub proof fn lemma_order_one_way(a: Seq<char>, b: Seq<char>)
    ensures
        !(stands_before(a, b) && stands_before(b, a)),
    decreases a.len(),
{
    if a.len() > 0 && b.len() > 0 && a[0] == b[0] {
        lemma_order_one_way(a.skip(1), b.skip(1));
    }
}

/// Where `c` does not stand before `b`, nor `b` before `a`, `c` does not
/// stand before `a`.
pub proof fn lemma_order_chain(a: Seq<char>, b: Seq<char>, c: Seq<char>)
    requires
        !stands_before(b, a),
        !stands_before(c, b),
    ensures
        !stands_before(c, a),
    decreases a.len(),
{
    if a.len() > 0 {
        assert(b.len() > 0);
        assert(c.len() > 0);
        if a[0] == b[0] && b[0] == c[0] {
            lemma_order_chain(a.skip(1), b.skip(1), c.skip(1));
        } else {
            vstd::utf8::char_u32_cast(a[0], a[0] as u32);
            vstd::utf8::char_u32_cast(b[0], b[0] as u32);
            vstd::utf8::char_u32_cast(c[0], c[0] as u32);
        }
    }
}

/// Whether `a` stands before `b` in dictionary order.
pub fn is_before(a: &str, b: &str) -> (r: bool)
    ensures
        r == stands_before(a@, b@),
{
    let alen = a.unicode_len();
    let blen = b.unicode_len();
    let mut i: usize = 0;
    proof {
        assert(a@.skip(0) =~= a@);
        assert(b@.skip(0) =~= b@);
    }
    while i < alen && i < blen
        invariant
            i <= alen,
            i <= blen,
            alen == a@.len(),
            blen == b@.len(),
            stands_before(a@, b@) == stands_before(a@.skip(i as int), b@.skip(i as int)),
        decreases alen - i,
    {
        let x = a.get_char(i);
        let y = b.get_char(i);
        proof {
            assert(a@.skip(i as int)[0] == x);
            assert(b@.skip(i as int)[0] == y);
            assert(a@.skip(i as int).skip(1) =~= a@.skip(i + 1));
            assert(b@.skip(i as int).skip(1) =~= b@.skip(i + 1));
        }
        if x != y {
            return (x as u32) < (y as u32);
        }
        i = i + 1;
    }
    i < blen
}

} // verus!
