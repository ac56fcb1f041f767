//! Facts about sequences that the loops over vectors lean on.

use vstd::prelude::*;

verus! {

/// Filtering one element more: the element is kept at the end or left out.
pub proof fn lemma_filter_step<A>(s: Seq<A>, pred: spec_fn(A) -> bool, i: int)
    requires
        0 <= i < s.len(),
    ensures
        s.take(i + 1).filter(pred) == if pred(s[i]) {
            s.take(i).filter(pred).push(s[i])
        } else {
            s.take(i).filter(pred)
        },
        s.take(0).filter(pred) == Seq::<A>::empty(),
{
    assert(s.take(i + 1) =~= s.take(i).push(s[i]));
    s.take(i).lemma_filter_push(s[i], pred);
    lemma_filter_empty(s, pred);
}

/// Nothing is kept of nothing.
pub proof fn lemma_filter_empty<A>(s: Seq<A>, pred: spec_fn(A) -> bool)
    ensures
        s.take(0).filter(pred) == Seq::<A>::empty(),
{
    reveal(Seq::filter);
    assert(s.take(0) =~= Seq::<A>::empty());
    assert(s.take(0).filter(pred) =~= Seq::<A>::empty());
}

/// What is kept satisfies the predicate and was there; what satisfies the
/// predicate is kept.
pub proof fn lemma_filter_members<A>(s: Seq<A>, pred: spec_fn(A) -> bool)
    ensures
        forall|x: A| #[trigger] s.filter(pred).contains(x) <==> s.contains(x) && pred(x),
    decreases s.len(),
{
    reveal(Seq::filter);
    if s.len() > 0 {
        let rest = s.drop_last();
        lemma_filter_members(rest, pred);
        assert forall|x: A| #[trigger] s.filter(pred).contains(x) <==> s.contains(x) && pred(
            x,
        ) by {
            let kept = s.filter(pred);
            if kept.contains(x) {
                let k = choose|k: int| 0 <= k < kept.len() && kept[k] == x;
                if pred(s.last()) && k == kept.len() - 1 {
                    assert(s[s.len() - 1] == x);
                } else {
                    assert(rest.filter(pred)[k] == x);
                    assert(rest.filter(pred).contains(x));
                    let m = choose|m: int| 0 <= m < rest.len() && rest[m] == x;
                    assert(s[m] == x);
                }
            }
            if s.contains(x) && pred(x) {
                let m = choose|m: int| 0 <= m < s.len() && s[m] == x;
                if m == s.len() - 1 {
                    assert(kept[kept.len() - 1] == x);
                } else {
                    assert(rest[m] == x);
                    assert(rest.contains(x));
                    assert(rest.filter(pred).contains(x));
                    let k = choose|k: int|
                        0 <= k < rest.filter(pred).len() && rest.filter(pred)[k] == x;
                    assert(kept[k] == x);
                }
            }
        }
    }
}

/// No two elements of `s` have the same key.
pub open spec fn distinct_by<A, K>(s: Seq<A>, key: spec_fn(A) -> K) -> bool {
    forall|i: int, j: int|
        0 <= i < s.len() && 0 <= j < s.len() && i != j ==> key(#[trigger] s[i]) != key(
            #[trigger] s[j],
        )
}

/// What is kept of elements with distinct keys has distinct keys.
pub proof fn lemma_filter_keeps_distinct<A, K>(
    s: Seq<A>,
    keep: spec_fn(A) -> bool,
    key: spec_fn(A) -> K,
)
    requires
        distinct_by(s, key),
    ensures
        distinct_by(s.filter(keep), key),
    decreases s.len(),
{
    reveal(Seq::filter);
    if s.len() > 0 {
        let rest = s.drop_last();
        assert(distinct_by(rest, key)) by {
            assert forall|i: int, j: int|
                0 <= i < rest.len() && 0 <= j < rest.len() && i != j implies key(
                #[trigger] rest[i],
            ) != key(#[trigger] rest[j]) by {
                assert(rest[i] == s[i] && rest[j] == s[j]);
            }
        }
        lemma_filter_keeps_distinct(rest, keep, key);
        lemma_filter_members(rest, keep);
        let kept = s.filter(keep);
        let inner = rest.filter(keep);
        assert forall|i: int, j: int|
            0 <= i < kept.len() && 0 <= j < kept.len() && i != j implies key(#[trigger] kept[i])
            != key(#[trigger] kept[j]) by {
            if keep(s.last()) {
                assert(kept == inner.push(s.last()));
                let last = kept.len() - 1;
                if i == last || j == last {
                    let other = if i == last { j } else { i };
                    assert(inner[other] == kept[other]);
                    assert(inner.contains(kept[other]));
                    assert(rest.contains(kept[other]));
                    let m = choose|m: int| 0 <= m < rest.len() && rest[m] == kept[other];
                    assert(s[m] == kept[other]);
                    assert(s[s.len() - 1] == kept[last]);
                    assert(key(s[m]) != key(s[s.len() - 1]));
                } else {
                    assert(inner[i] == kept[i]);
                    assert(inner[j] == kept[j]);
                }
            } else {
                assert(kept == inner);
            }
        }
    }
}

} // verus!
