//! Stable ordering of sequences by an integer key.

use vstd::prelude::*;

verus! {

/// The keys never decrease from left to right.
pub open spec fn sorted_by<T>(s: Seq<T>, key: spec_fn(T) -> int) -> bool {
    forall|i: int, j: int| 0 <= i < j < s.len() ==> key(s[i]) <= key(s[j])
}

/// The keys strictly increase from left to right.
pub open spec fn strictly_sorted_by<T>(s: Seq<T>, key: spec_fn(T) -> int) -> bool {
    forall|i: int, j: int| 0 <= i < j < s.len() ==> key(s[i]) < key(s[j])
}

/// `x` put in front of the first item of `s` whose key is not below its own.
pub open spec fn place<T>(x: T, s: Seq<T>, key: spec_fn(T) -> int) -> Seq<T>
    decreases s.len(),
{
    if s.len() == 0 || key(x) <= key(s[0]) {
        seq![x] + s
    } else {
        seq![s[0]] + place(x, s.drop_first(), key)
    }
}

/// The items of `s` in the order of their keys; items with equal keys keep
/// the order they had in `s`.
pub open spec fn stable_sort<T>(s: Seq<T>, key: spec_fn(T) -> int) -> Seq<T>
    decreases s.len(),
{
    if s.len() == 0 {
        s
    } else {
        place(s[0], stable_sort(s.drop_first(), key), key)
    }
}

/// Where `place` puts its item: at the first index whose key is not below.
pub proof fn lemma_place_at<T>(x: T, s: Seq<T>, key: spec_fn(T) -> int, j: int)
    requires
        0 <= j <= s.len(),
        forall|i: int| 0 <= i < j ==> key(#[trigger] s[i]) < key(x),
        j < s.len() ==> key(x) <= key(s[j]),
    ensures
        place(x, s, key) == s.insert(j, x),
    decreases s.len(),
{
    if s.len() == 0 || key(x) <= key(s[0]) {
        if j > 0 {
            assert(key(s[0]) < key(x));
        }
        assert(seq![x] + s =~= s.insert(0, x));
    } else {
        assert(j > 0);
        let rest = s.drop_first();
        assert forall|i: int| 0 <= i < j - 1 implies key(#[trigger] rest[i]) < key(x) by {
            assert(rest[i] == s[i + 1]);
        }
        lemma_place_at(x, rest, key, j - 1);
        assert(seq![s[0]] + rest.insert(j - 1, x) =~= s.insert(j, x));
    }
}

/// Placing an item keeps every item and adds exactly the new one.
pub proof fn lemma_place_contains<T>(x: T, s: Seq<T>, key: spec_fn(T) -> int, y: T)
    ensures
        place(x, s, key).contains(y) <==> (y == x || s.contains(y)),
        place(x, s, key).len() == s.len() + 1,
    decreases s.len(),
{
    if s.len() == 0 || key(x) <= key(s[0]) {
        let r = seq![x] + s;
        assert(r[0] == x);
        if s.contains(y) {
            let i = choose|i: int| 0 <= i < s.len() && s[i] == y;
            assert(r[i + 1] == y);
        }
        if r.contains(y) {
            let i = choose|i: int| 0 <= i < r.len() && r[i] == y;
            if i > 0 {
                assert(s[i - 1] == y);
            }
        }
    } else {
        let rest = s.drop_first();
        let p = place(x, rest, key);
        lemma_place_contains(x, rest, key, y);
        let r = seq![s[0]] + p;
        assert(r[0] == s[0]);
        if y == x || s.contains(y) {
            if y == s[0] {
                assert(r.contains(y));
            } else {
                if y != x {
                    let i = choose|i: int| 0 <= i < s.len() && s[i] == y;
                    assert(rest[i - 1] == y);
                }
                assert(p.contains(y));
                let i = choose|i: int| 0 <= i < p.len() && p[i] == y;
                assert(r[i + 1] == y);
            }
        }
        if r.contains(y) {
            let i = choose|i: int| 0 <= i < r.len() && r[i] == y;
            if i > 0 {
                assert(p[i - 1] == y);
                assert(p.contains(y));
                if y != x {
                    let k = choose|k: int| 0 <= k < rest.len() && rest[k] == y;
                    assert(s[k + 1] == y);
                }
            }
        }
    }
}

/// Placing an item into a sorted sequence leaves it sorted.
pub proof fn lemma_place_sorted<T>(x: T, s: Seq<T>, key: spec_fn(T) -> int)
    requires
        sorted_by(s, key),
    ensures
        sorted_by(place(x, s, key), key),
    decreases s.len(),
{
    if s.len() == 0 || key(x) <= key(s[0]) {
        let r = seq![x] + s;
        assert forall|i: int, j: int| 0 <= i < j < r.len() implies key(r[i]) <= key(r[j]) by {
            if i == 0 {
                assert(r[j] == s[j - 1]);
                if j - 1 > 0 {
                    assert(key(s[0]) <= key(s[j - 1]));
                }
            } else {
                assert(r[i] == s[i - 1] && r[j] == s[j - 1]);
            }
        }
    } else {
        let rest = s.drop_first();
        assert forall|i: int, j: int| 0 <= i < j < rest.len() implies key(rest[i]) <= key(
            rest[j],
        ) by {
            assert(rest[i] == s[i + 1] && rest[j] == s[j + 1]);
        }
        lemma_place_sorted(x, rest, key);
        let p = place(x, rest, key);
        let r = seq![s[0]] + p;
        assert forall|i: int, j: int| 0 <= i < j < r.len() implies key(r[i]) <= key(r[j]) by {
            if i == 0 {
                assert(r[j] == p[j - 1]);
                lemma_place_contains(x, rest, key, p[j - 1]);
                assert(p.contains(p[j - 1]));
                if p[j - 1] != x {
                    let k = choose|k: int| 0 <= k < rest.len() && rest[k] == p[j - 1];
                    assert(rest[k] == s[k + 1]);
                }
            } else {
                assert(r[i] == p[i - 1] && r[j] == p[j - 1]);
            }
        }
    }
}

/// A stable sort yields a sorted sequence with exactly the items it was given.
pub proof fn lemma_stable_sort<T>(s: Seq<T>, key: spec_fn(T) -> int)
    ensures
        sorted_by(stable_sort(s, key), key),
        stable_sort(s, key).len() == s.len(),
        forall|y: T| stable_sort(s, key).contains(y) <==> s.contains(y),
    decreases s.len(),
{
    if s.len() > 0 {
        let rest = s.drop_first();
        let sorted_rest = stable_sort(rest, key);
        lemma_stable_sort(rest, key);
        lemma_place_sorted(s[0], sorted_rest, key);
        lemma_place_contains(s[0], sorted_rest, key, s[0]);
        assert forall|y: T| stable_sort(s, key).contains(y) <==> s.contains(y) by {
            lemma_place_contains(s[0], sorted_rest, key, y);
            if s.contains(y) && y != s[0] {
                let i = choose|i: int| 0 <= i < s.len() && s[i] == y;
                assert(rest[i - 1] == y);
            }
            if rest.contains(y) {
                let i = choose|i: int| 0 <= i < rest.len() && rest[i] == y;
                assert(s[i + 1] == y);
            }
        }
    }
}

/// Sorting a sequence that is already sorted changes nothing.
pub proof fn lemma_sort_of_sorted<T>(s: Seq<T>, key: spec_fn(T) -> int)
    requires
        sorted_by(s, key),
    ensures
        stable_sort(s, key) == s,
    decreases s.len(),
{
    if s.len() > 0 {
        let rest = s.drop_first();
        assert forall|i: int, j: int| 0 <= i < j < rest.len() implies key(rest[i]) <= key(
            rest[j],
        ) by {
            assert(rest[i] == s[i + 1] && rest[j] == s[j + 1]);
        }
        lemma_sort_of_sorted(rest, key);
        if rest.len() > 0 {
            assert(rest[0] == s[1]);
            assert(key(s[0]) <= key(s[1]));
        }
        assert(seq![s[0]] + rest =~= s);
    }
}

/// Two strictly sorted sequences with the same items are the same sequence.
pub proof fn lemma_strictly_sorted_unique<T>(s1: Seq<T>, s2: Seq<T>, key: spec_fn(T) -> int)
    requires
        strictly_sorted_by(s1, key),
        strictly_sorted_by(s2, key),
        forall|y: T| s1.contains(y) <==> s2.contains(y),
    ensures
        s1 == s2,
    decreases s1.len(),
{
    if s1.len() == 0 {
        if s2.len() > 0 {
            assert(s2.contains(s2[0]));
        }
        assert(s1 =~= s2);
    } else {
        let m1 = s1.last();
        assert(s1.contains(m1));
        assert(s2.contains(m1));
        let k2 = choose|k: int| 0 <= k < s2.len() && s2[k] == m1;
        let m2 = s2.last();
        assert(s2.contains(m2));
        assert(s1.contains(m2));
        let k1 = choose|k: int| 0 <= k < s1.len() && s1[k] == m2;
        if k2 < s2.len() - 1 {
            assert(key(s2[k2]) < key(s2[s2.len() - 1]));
            if k1 < s1.len() - 1 {
                assert(key(s1[k1]) < key(s1[s1.len() - 1]));
            }
            assert(false);
        }
        assert(m1 == m2);
        let r1 = s1.drop_last();
        let r2 = s2.drop_last();
        assert forall|y: T| r1.contains(y) <==> r2.contains(y) by {
            if r1.contains(y) {
                let i = choose|i: int| 0 <= i < r1.len() && r1[i] == y;
                assert(s1[i] == y);
                assert(key(s1[i]) < key(s1[s1.len() - 1]));
                assert(s1.contains(y));
                let j = choose|j: int| 0 <= j < s2.len() && s2[j] == y;
                assert(j < s2.len() - 1);
                assert(r2[j] == y);
            }
            if r2.contains(y) {
                let i = choose|i: int| 0 <= i < r2.len() && r2[i] == y;
                assert(s2[i] == y);
                assert(key(s2[i]) < key(s2[s2.len() - 1]));
                assert(s2.contains(y));
                let j = choose|j: int| 0 <= j < s1.len() && s1[j] == y;
                assert(j < s1.len() - 1);
                assert(r1[j] == y);
            }
        }
        assert forall|i: int, j: int| 0 <= i < j < r1.len() implies key(r1[i]) < key(r1[j]) by {
            assert(r1[i] == s1[i] && r1[j] == s1[j]);
        }
        assert forall|i: int, j: int| 0 <= i < j < r2.len() implies key(r2[i]) < key(r2[j]) by {
            assert(r2[i] == s2[i] && r2[j] == s2[j]);
        }
        lemma_strictly_sorted_unique(r1, r2, key);
        assert(s1 =~= r1.push(m1));
        assert(s2 =~= r2.push(m2));
    }
}

} // verus!
