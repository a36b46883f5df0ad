//! Key lists as the two indices hold them, and the edits made to them.

use vstd::prelude::*;

verus! {

/// The list stored under `label` in an index, or the empty list.
pub open spec fn list_of(m: Map<Seq<char>, Seq<Seq<char>>>, label: Seq<char>) -> Seq<Seq<char>> {
    if m.contains_key(label) {
        m[label]
    } else {
        Seq::empty()
    }
}

/// The position of the first occurrence of `k` in `s` (the length when absent).
pub open spec fn first_pos(s: Seq<Seq<char>>, k: Seq<char>) -> int
    decreases s.len(),
{
    if s.len() == 0 {
        0
    } else if s[0] == k {
        0
    } else {
        1 + first_pos(s.drop_first(), k)
    }
}

/// `s` without the first occurrence of `k`.
pub open spec fn remove_first(s: Seq<Seq<char>>, k: Seq<char>) -> Seq<Seq<char>> {
    if s.contains(k) {
        s.remove(first_pos(s, k))
    } else {
        s
    }
}

/// `s` with `k` appended, unless it is already there.
pub open spec fn add_member(s: Seq<Seq<char>>, k: Seq<char>) -> Seq<Seq<char>> {
    if s.contains(k) {
        s
    } else {
        s.push(k)
    }
}

/// The elements of `s` that are not in `other`, each at its first
/// occurrence, in the order of `s`.
pub open spec fn kept(s: Seq<Seq<char>>, other: Seq<Seq<char>>) -> Seq<Seq<char>>
    decreases s.len(),
{
    if s.len() == 0 {
        Seq::empty()
    } else {
        let prev = kept(s.drop_last(), other);
        let x = s.last();
        if !other.contains(x) && !prev.contains(x) {
            prev.push(x)
        } else {
            prev
        }
    }
}

/// `s` with `k` moved to the front.
pub open spec fn move_to_front(s: Seq<Seq<char>>, k: Seq<char>) -> Seq<Seq<char>> {
    seq![k] + remove_first(s, k)
}

/// The first position is the one before which `k` does not occur.
pub proof fn lemma_first_pos(s: Seq<Seq<char>>, k: Seq<char>, i: int)
    requires
        0 <= i < s.len(),
        s[i] == k,
        forall|j: int| 0 <= j < i ==> s[j] != k,
    ensures
        first_pos(s, k) == i,
    decreases i,
{
    if i > 0 {
        assert(s[0] != k);
        lemma_first_pos(s.drop_first(), k, i - 1);
    }
}

/// When `k` occurs, its first position holds it.
pub proof fn lemma_first_pos_found(s: Seq<Seq<char>>, k: Seq<char>)
    requires
        s.contains(k),
    ensures
        0 <= first_pos(s, k) < s.len(),
        s[first_pos(s, k)] == k,
    decreases s.len(),
{
    if s[0] != k {
        let j = choose|j: int| 0 <= j < s.len() && s[j] == k;
        assert(s.drop_first()[j - 1] == k);
        lemma_first_pos_found(s.drop_first(), k);
    }
}

/// Removing a key from a list without duplicates removes it entirely and
/// keeps the others.
pub proof fn lemma_remove_first(s: Seq<Seq<char>>, k: Seq<char>)
    requires
        s.no_duplicates(),
    ensures
        remove_first(s, k).no_duplicates(),
        forall|x: Seq<char>| #[trigger]
            remove_first(s, k).contains(x) <==> (s.contains(x) && x != k),
{
    if s.contains(k) {
        lemma_first_pos_found(s, k);
        let i = first_pos(s, k);
        let r = s.remove(i);
        assert forall|x: Seq<char>| #[trigger] r.contains(x) <==> (s.contains(x) && x != k) by {
            if r.contains(x) {
                let j = choose|j: int| 0 <= j < r.len() && r[j] == x;
                if j < i {
                    assert(s[j] == x);
                } else {
                    assert(s[j + 1] == x);
                }
            }
            if s.contains(x) && x != k {
                let j = choose|j: int| 0 <= j < s.len() && s[j] == x;
                if j < i {
                    assert(r[j] == x);
                } else {
                    assert(j != i);
                    assert(r[j - 1] == x);
                }
            }
        }
    }
}

/// Adding a key keeps a list free of duplicates and adds only that key.
pub proof fn lemma_add_member(s: Seq<Seq<char>>, k: Seq<char>)
    requires
        s.no_duplicates(),
    ensures
        add_member(s, k).no_duplicates(),
        forall|x: Seq<char>| #[trigger]
            add_member(s, k).contains(x) <==> (s.contains(x) || x == k),
{
    if !s.contains(k) {
        let r = s.push(k);
        assert(r.last() == k);
        assert forall|x: Seq<char>| #[trigger] r.contains(x) <==> (s.contains(x) || x == k) by {
            if r.contains(x) {
                let j = choose|j: int| 0 <= j < r.len() && r[j] == x;
                if j < s.len() {
                    assert(s[j] == x);
                }
            }
            if s.contains(x) {
                let j = choose|j: int| 0 <= j < s.len() && s[j] == x;
                assert(r[j] == x);
            }
        }
    }
}

/// What a list with one more element contains.
pub proof fn lemma_push_contains(s: Seq<Seq<char>>, a: Seq<char>)
    ensures
        forall|x: Seq<char>| #[trigger] s.push(a).contains(x) <==> (s.contains(x) || x == a),
{
    assert forall|x: Seq<char>| #[trigger] s.push(a).contains(x) <==> (s.contains(x) || x == a) by {
        if s.push(a).contains(x) {
            let j = choose|j: int| 0 <= j < s.push(a).len() && s.push(a)[j] == x;
            if j < s.len() {
                assert(s[j] == x);
            }
        }
        if s.contains(x) {
            let j = choose|j: int| 0 <= j < s.len() && s[j] == x;
            assert(s.push(a)[j] == x);
        }
        if x == a {
            assert(s.push(a)[s.len() as int] == x);
        }
    }
}

/// Adding a key twice is adding it once.
pub proof fn lemma_add_member_twice(s: Seq<Seq<char>>, k: Seq<char>)
    ensures
        add_member(s, k).contains(k),
        add_member(add_member(s, k), k) == add_member(s, k),
{
    lemma_push_contains(s, k);
}

} // verus!
