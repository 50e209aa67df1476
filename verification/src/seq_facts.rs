//! Facts about sequences that several modules use.

use vstd::prelude::*;

verus! {

/// Filtering one element more of a sequence keeps or drops that element.
pub proof fn lemma_filter_step<T>(s: Seq<T>, i: int, keep: spec_fn(T) -> bool)
    requires
        0 <= i < s.len(),
    ensures
        s.take(i + 1).filter(keep) == if keep(s[i]) {
            s.take(i).filter(keep).push(s[i])
        } else {
            s.take(i).filter(keep)
        },
{
    reveal(Seq::filter);
    assert(s.take(i + 1).drop_last() =~= s.take(i));
    assert(s.take(i + 1).last() == s[i]);
}

/// What is kept of a sequence has no repetitions, if none of the elements
/// that pass the test is repeated.
pub proof fn lemma_filter_no_duplicates<T>(s: Seq<T>, keep: spec_fn(T) -> bool)
    requires
        forall|i: int, j: int| 0 <= i < j < s.len() && keep(s[i]) && keep(s[j]) ==> s[i] != s[j],
    ensures
        s.filter(keep).no_duplicates(),
    decreases s.len(),
{
    reveal(Seq::filter);
    if s.len() > 0 {
        let init = s.drop_last();
        assert forall|i: int, j: int|
            0 <= i < j < init.len() && keep(init[i]) && keep(init[j]) implies init[i]
            != init[j] by {
            assert(init[i] == s[i] && init[j] == s[j]);
        }
        lemma_filter_no_duplicates(init, keep);
        if keep(s.last()) {
            let kept = init.filter(keep);
            assert forall|i: int| 0 <= i < kept.len() implies kept[i] != s.last() by {
                init.lemma_filter_pred(keep, i);
                assert(kept.contains(kept[i]));
                init.lemma_filter_contains_rev(keep, kept[i]);
                let j = choose|j: int| 0 <= j < init.len() && init[j] == kept[i];
                assert(s[j] == kept[i]);
                assert(keep(s[j]) && keep(s[s.len() - 1]));
            }
        }
    }
}

/// What is kept of a sequence is what passes the test, and nothing else.
pub proof fn lemma_filter_members<T>(s: Seq<T>, keep: spec_fn(T) -> bool)
    ensures
        forall|x: T| #[trigger] s.filter(keep).contains(x) <==> s.contains(x) && keep(x),
{
    assert forall|x: T| #[trigger] s.filter(keep).contains(x) <==> s.contains(x) && keep(
        x,
    ) by {
        if s.filter(keep).contains(x) {
            let i = choose|i: int| 0 <= i < s.filter(keep).len() && s.filter(keep)[i] == x;
            s.lemma_filter_pred(keep, i);
            s.lemma_filter_contains_rev(keep, x);
        }
        if s.contains(x) && keep(x) {
            let i = choose|i: int| 0 <= i < s.len() && s[i] == x;
            s.lemma_filter_contains(keep, i);
        }
    }
}

/// Collecting from a sequence of keys, one key at a time, those that pass a
/// test: a step keeps the key or drops it, and once all keys were looked
/// at, what was collected are the keys of `dom` that pass the test.
pub proof fn lemma_collect_step<K>(keys: Seq<K>, n: int, wanted: spec_fn(K) -> bool, dom: Set<K>)
    requires
        0 <= n < keys.len(),
        keys.to_set() == dom,
    ensures
        keys.take(n + 1).filter(wanted) == if wanted(keys[n]) {
            keys.take(n).filter(wanted).push(keys[n])
        } else {
            keys.take(n).filter(wanted)
        },
        n + 1 == keys.len() ==> forall|k: K| #[trigger]
            keys.take(n + 1).filter(wanted).contains(k) <==> dom.contains(k) && wanted(k),
{
    lemma_filter_step(keys, n, wanted);
    if n + 1 == keys.len() {
        assert(keys.take(n + 1) =~= keys);
        lemma_filter_members(keys, wanted);
        assert forall|k: K| #[trigger] keys.filter(wanted).contains(k) <==> dom.contains(k)
            && wanted(k) by {
            assert(dom.contains(k) <==> keys.contains(k));
        }
    }
}

/// What one element more of a sequence holds: what the elements before it
/// hold, and that element.
pub proof fn lemma_take_step_contains<K>(s: Seq<K>, i: int)
    requires
        0 <= i < s.len(),
    ensures
        forall|k: K| #[trigger] s.take(i + 1).contains(k) <==> s.take(i).contains(k) || k == s[i],
        s.take(i + 1).to_set() == s.take(i).to_set().insert(s[i]),
{
    let more = s.take(i + 1);
    let less = s.take(i);
    assert(more =~= less.push(s[i]));
    assert forall|k: K| #[trigger] more.contains(k) <==> less.contains(k) || k == s[i] by {
        if less.contains(k) {
            let p = choose|p: int| 0 <= p < less.len() && less[p] == k;
            assert(more[p] == k);
        }
        if k == s[i] {
            assert(more[i] == k);
        }
        if more.contains(k) && k != s[i] {
            let p = choose|p: int| 0 <= p < more.len() && more[p] == k;
            assert(less[p] == k);
        }
    }
    assert(more.to_set() =~= less.to_set().insert(s[i]));
}

} // verus!
