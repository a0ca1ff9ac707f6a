//! Facts about filtered sequences that the projections share.

use vstd::prelude::*;

verus! {

/// Filtering a sequence whose items all pass leaves it as it is.
pub proof fn lemma_filter_keeps_all<A>(s: Seq<A>, pred: spec_fn(A) -> bool)
    requires
        forall|i: int| 0 <= i < s.len() ==> pred(#[trigger] s[i]),
    ensures
        s.filter(pred) == s,
    decreases s.len(),
{
    reveal(Seq::filter);
    if s.len() > 0 {
        lemma_filter_keeps_all(s.drop_last(), pred);
        assert(s.drop_last().push(s.last()) =~= s);
    } else {
        assert(s.filter(pred) =~= s);
    }
}

/// Filtering a sequence of which no item passes leaves nothing.
pub proof fn lemma_filter_drops_all<A>(s: Seq<A>, pred: spec_fn(A) -> bool)
    requires
        forall|i: int| 0 <= i < s.len() ==> !pred(#[trigger] s[i]),
    ensures
        s.filter(pred) == Seq::<A>::empty(),
    decreases s.len(),
{
    reveal(Seq::filter);
    if s.len() > 0 {
        lemma_filter_drops_all(s.drop_last(), pred);
    }
}

/// Filtering one more item: the item is appended where it passes.
pub proof fn lemma_filter_push<A>(s: Seq<A>, a: A, pred: spec_fn(A) -> bool)
    ensures
        s.push(a).filter(pred) == if pred(a) {
            s.filter(pred).push(a)
        } else {
            s.filter(pred)
        },
{
    reveal(Seq::filter);
    assert(s.push(a).drop_last() =~= s);
}

/// Filtering goes through a split of the sequence at any index.
pub proof fn lemma_filter_split<A>(s: Seq<A>, k: int, pred: spec_fn(A) -> bool)
    requires
        0 <= k <= s.len(),
    ensures
        s.filter(pred) == s.take(k).filter(pred) + s.skip(k).filter(pred),
{
    assert(s =~= s.take(k) + s.skip(k));
    Seq::filter_distributes_over_add(s.take(k), s.skip(k), pred);
}

/// Filtering a sequence of which exactly the item at `k` fails takes that
/// item out.
pub proof fn lemma_filter_drops_one<A>(s: Seq<A>, k: int, pred: spec_fn(A) -> bool)
    requires
        0 <= k < s.len(),
        !pred(s[k]),
        forall|i: int| 0 <= i < s.len() && i != k ==> pred(#[trigger] s[i]),
    ensures
        s.filter(pred) == s.remove(k),
    decreases s.len(),
{
    reveal(Seq::filter);
    let front = s.drop_last();
    if k == s.len() - 1 {
        lemma_filter_keeps_all(front, pred);
        assert(s.remove(k) =~= front);
    } else {
        assert(front[k] == s[k]);
        lemma_filter_drops_one(front, k, pred);
        assert(s.remove(k) =~= front.remove(k).push(s.last()));
    }
}

/// Replacing a block inside the middle part of a sequence of three parts
/// replaces that block in the whole, and touches nothing before or behind
/// it.
pub proof fn lemma_splice<A>(
    head: Seq<A>,
    inner: Seq<A>,
    tail: Seq<A>,
    at: int,
    len: int,
    block: Seq<A>,
)
    requires
        0 <= at,
        0 <= len,
        at + len <= inner.len(),
    ensures
        ({
            let whole = head + inner + tail;
            let k = head.len() + at;
            &&& whole.subrange(k, k + len) == inner.subrange(at, at + len)
            &&& head + (inner.take(at) + block + inner.skip(at + len)) + tail == whole.take(k)
                + block + whole.skip(k + len)
        }),
{
    let whole = head + inner + tail;
    let k = head.len() + at;
    assert(whole.subrange(k, k + len) =~= inner.subrange(at, at + len));
    assert(whole.take(k) =~= head + inner.take(at));
    assert(whole.skip(k + len) =~= inner.skip(at + len) + tail);
    assert(head + (inner.take(at) + block + inner.skip(at + len)) + tail =~= (head + inner.take(at))
        + block + (inner.skip(at + len) + tail));
}

} // verus!
