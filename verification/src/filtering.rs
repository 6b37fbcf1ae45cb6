//! Facts about keeping the items of a sequence that meet a condition.

use crate::order::{sorted_by, strictly_sorted_by};
use vstd::prelude::*;

verus! {

/// Filtering one item more: the item is appended when it meets the condition.
pub proof fn lemma_filter_step<T>(s: Seq<T>, pred: spec_fn(T) -> bool, i: int)
    requires
        0 <= i < s.len(),
    ensures
        s.take(i + 1).filter(pred) == if pred(s[i]) {
            s.take(i).filter(pred).push(s[i])
        } else {
            s.take(i).filter(pred)
        },
        s.take(0).filter(pred) == Seq::<T>::empty(),
{
    reveal(Seq::filter);
    assert(s.take(i + 1).drop_last() =~= s.take(i));
    assert(s.take(0) =~= Seq::<T>::empty());
}

/// The filtered sequence holds exactly the items that meet the condition.
pub proof fn lemma_filter_members<T>(s: Seq<T>, pred: spec_fn(T) -> bool, y: T)
    ensures
        s.filter(pred).contains(y) <==> (s.contains(y) && pred(y)),
    decreases s.len(),
{
    reveal(Seq::filter);
    if s.len() > 0 {
        let rest = s.drop_last();
        let kept = rest.filter(pred);
        lemma_filter_members(rest, pred, y);
        if s.contains(y) && pred(y) {
            let i = choose|i: int| 0 <= i < s.len() && s[i] == y;
            if i < s.len() - 1 {
                assert(rest[i] == y);
                let j = choose|j: int| 0 <= j < kept.len() && kept[j] == y;
                assert(s.filter(pred)[j] == y);
            } else {
                assert(s.filter(pred).last() == y);
            }
        }
        if s.filter(pred).contains(y) {
            let j = choose|j: int| 0 <= j < s.filter(pred).len() && s.filter(pred)[j] == y;
            if j < kept.len() {
                assert(kept[j] == y);
                let i = choose|i: int| 0 <= i < rest.len() && rest[i] == y;
                assert(s[i] == y);
            } else {
                assert(s.last() == y);
            }
        }
    }
}

/// Filtering keeps a sequence whose items all meet the condition.
pub proof fn lemma_filter_all<T>(s: Seq<T>, pred: spec_fn(T) -> bool)
    requires
        forall|i: int| 0 <= i < s.len() ==> pred(#[trigger] s[i]),
    ensures
        s.filter(pred) == s,
    decreases s.len(),
{
    reveal(Seq::filter);
    if s.len() > 0 {
        let rest = s.drop_last();
        assert forall|i: int| 0 <= i < rest.len() implies pred(#[trigger] rest[i]) by {
            assert(rest[i] == s[i]);
        }
        lemma_filter_all(rest, pred);
        assert(rest.push(s.last()) =~= s);
    }
}

/// Filtering removes the one item that fails the condition.
pub proof fn lemma_filter_one_out<T>(s: Seq<T>, pred: spec_fn(T) -> bool, i: int)
    requires
        0 <= i < s.len(),
        !pred(s[i]),
        forall|j: int| 0 <= j < s.len() && j != i ==> pred(#[trigger] s[j]),
    ensures
        s.filter(pred) == s.remove(i),
    decreases s.len(),
{
    reveal(Seq::filter);
    let rest = s.drop_last();
    if i == s.len() - 1 {
        assert forall|j: int| 0 <= j < rest.len() implies pred(#[trigger] rest[j]) by {
            assert(rest[j] == s[j]);
        }
        lemma_filter_all(rest, pred);
        assert(rest =~= s.remove(i));
    } else {
        assert forall|j: int| 0 <= j < rest.len() && j != i implies pred(#[trigger] rest[j]) by {
            assert(rest[j] == s[j]);
        }
        assert(rest[i] == s[i]);
        lemma_filter_one_out(rest, pred, i);
        assert(pred(s[s.len() - 1]));
        assert(rest.remove(i).push(s.last()) =~= s.remove(i));
    }
}

/// Filtering keeps the order of the keys.
pub proof fn lemma_filter_sorted<T>(s: Seq<T>, pred: spec_fn(T) -> bool, key: spec_fn(T) -> int)
    ensures
        sorted_by(s, key) ==> sorted_by(s.filter(pred), key),
        strictly_sorted_by(s, key) ==> strictly_sorted_by(s.filter(pred), key),
    decreases s.len(),
{
    reveal(Seq::filter);
    if s.len() > 0 {
        let rest = s.drop_last();
        let kept = rest.filter(pred);
        lemma_filter_sorted(rest, pred, key);
        assert forall|a: int| 0 <= a < kept.len() implies exists|b: int|
            0 <= b < rest.len() && rest[b] == #[trigger] kept[a] by {
            lemma_filter_members(rest, pred, kept[a]);
            assert(kept.contains(kept[a]));
        }
        if sorted_by(s, key) {
            assert forall|a: int, b: int| 0 <= a < b < rest.len() implies key(rest[a]) <= key(
                rest[b],
            ) by {
                assert(rest[a] == s[a] && rest[b] == s[b]);
            }
            let out = s.filter(pred);
            assert forall|a: int, b: int| 0 <= a < b < out.len() implies key(out[a]) <= key(
                out[b],
            ) by {
                if b < kept.len() {
                    assert(out[a] == kept[a] && out[b] == kept[b]);
                } else {
                    assert(out[a] == kept[a]);
                    let i = choose|i: int| 0 <= i < rest.len() && rest[i] == kept[a];
                    assert(rest[i] == s[i]);
                    assert(key(s[i]) <= key(s[s.len() - 1]));
                }
            }
        }
        if strictly_sorted_by(s, key) {
            assert forall|a: int, b: int| 0 <= a < b < rest.len() implies key(rest[a]) < key(
                rest[b],
            ) by {
                assert(rest[a] == s[a] && rest[b] == s[b]);
            }
            let out = s.filter(pred);
            assert forall|a: int, b: int| 0 <= a < b < out.len() implies key(out[a]) < key(
                out[b],
            ) by {
                if b < kept.len() {
                    assert(out[a] == kept[a] && out[b] == kept[b]);
                } else {
                    assert(out[a] == kept[a]);
                    let i = choose|i: int| 0 <= i < rest.len() && rest[i] == kept[a];
                    assert(rest[i] == s[i]);
                    assert(key(s[i]) < key(s[s.len() - 1]));
                }
            }
        }
    }
}

/// Filtering a sequence in which nothing occurs twice gives such a sequence.
pub proof fn lemma_filter_no_duplicates<T>(s: Seq<T>, pred: spec_fn(T) -> bool)
    requires
        s.no_duplicates(),
    ensures
        s.filter(pred).no_duplicates(),
    decreases s.len(),
{
    reveal(Seq::filter);
    if s.len() > 0 {
        let rest = s.drop_last();
        let kept = rest.filter(pred);
        let out = s.filter(pred);
        assert forall|i: int, j: int| 0 <= i < rest.len() && 0 <= j < rest.len() && i
            != j implies rest[i] != rest[j] by {
            assert(rest[i] == s[i] && rest[j] == s[j]);
        }
        lemma_filter_no_duplicates(rest, pred);
        if pred(s.last()) {
            assert forall|i: int, j: int| 0 <= i < out.len() && 0 <= j < out.len() && i
                != j implies out[i] != out[j] by {
                if i < kept.len() && j == kept.len() {
                    lemma_filter_members(rest, pred, kept[i]);
                    assert(kept.contains(kept[i]));
                    let k = choose|k: int| 0 <= k < rest.len() && rest[k] == kept[i];
                    assert(s[k] != s[s.len() - 1]);
                }
                if j < kept.len() && i == kept.len() {
                    lemma_filter_members(rest, pred, kept[j]);
                    assert(kept.contains(kept[j]));
                    let k = choose|k: int| 0 <= k < rest.len() && rest[k] == kept[j];
                    assert(s[k] != s[s.len() - 1]);
                }
            }
        }
    }
}

} // verus!
