//! Lists in order.
use vstd::prelude::*;

verus! {

/// A strict order in which things may also be alike: of two things not both
/// come first, and what does not come before something does not come before
/// what that one does not come before.
pub open spec fn is_order<A>(lt: spec_fn(A, A) -> bool) -> bool {
    &&& forall|a: A, b: A| !(#[trigger] lt(a, b) && lt(b, a))
    &&& forall|a: A, b: A, c: A|
        #![trigger lt(a, b), lt(b, c)]
        !lt(a, b) && !lt(b, c) ==> !lt(a, c)
}

/// A list with a thing put in behind those that do not come after it.
pub open spec fn inserted<A>(s: Seq<A>, e: A, lt: spec_fn(A, A) -> bool) -> Seq<A>
    decreases s.len(),
{
    if s.len() == 0 || !lt(e, s.last()) {
        s.push(e)
    } else {
        inserted(s.drop_last(), e, lt).push(s.last())
    }
}

/// A list in order; things that are alike stay as they were.
pub open spec fn in_order<A>(s: Seq<A>, lt: spec_fn(A, A) -> bool) -> Seq<A>
    decreases s.len(),
{
    if s.len() == 0 {
        s
    } else {
        inserted(in_order(s.drop_last(), lt), s.last(), lt)
    }
}

/// Where a thing is put in: behind one that does not come after it, before
/// those that do.
pub proof fn lemma_inserted_at<A>(s: Seq<A>, e: A, lt: spec_fn(A, A) -> bool, k: int)
    requires
        0 <= k <= s.len(),
        k > 0 ==> !lt(e, s[k - 1]),
        forall|i: int| k <= i < s.len() ==> lt(e, #[trigger] s[i]),
    ensures
        inserted(s, e, lt) == s.insert(k, e),
    decreases s.len(),
{
    if k < s.len() {
        lemma_inserted_at(s.drop_last(), e, lt, k);
        assert(inserted(s, e, lt) =~= s.insert(k, e));
    } else {
        assert(s.insert(k, e) =~= s.push(e));
    }
}

/// In a list in order nothing comes before what stands ahead of it.
pub proof fn lemma_in_order_sorted<A>(s: Seq<A>, lt: spec_fn(A, A) -> bool, i: int, j: int)
    requires
        is_order(lt),
        0 <= i < j < in_order(s, lt).len(),
    ensures
        !lt(in_order(s, lt)[j], in_order(s, lt)[i]),
    decreases s.len(),
{
    let before = in_order(s.drop_last(), lt);
    assert forall|a: int, b: int| 0 <= a < b < before.len() implies !lt(
        #[trigger] before[b],
        #[trigger] before[a],
    ) by {
        lemma_in_order_sorted(s.drop_last(), lt, a, b);
    }
    lemma_inserted_sorted(before, s.last(), lt);
}

proof fn lemma_inserted_sorted<A>(s: Seq<A>, e: A, lt: spec_fn(A, A) -> bool)
    requires
        is_order(lt),
        forall|a: int, b: int| 0 <= a < b < s.len() ==> !lt(#[trigger] s[b], #[trigger] s[a]),
    ensures
        inserted(s, e, lt).len() == s.len() + 1,
        forall|a: int, b: int|
            0 <= a < b < inserted(s, e, lt).len() ==> !lt(
                #[trigger] inserted(s, e, lt)[b],
                #[trigger] inserted(s, e, lt)[a],
            ),
        forall|a: int|
            0 <= a < inserted(s, e, lt).len() ==> #[trigger] inserted(s, e, lt)[a] == e
                || s.contains(inserted(s, e, lt)[a]),
    decreases s.len(),
{
    let r = inserted(s, e, lt);
    if s.len() == 0 || !lt(e, s.last()) {
        assert forall|a: int, b: int| 0 <= a < b < r.len() implies !lt(
            #[trigger] r[b],
            #[trigger] r[a],
        ) by {
            if b == s.len() && a < s.len() - 1 {
                assert(!lt(s[s.len() - 1], s[a]));
            }
        }
        assert forall|a: int| 0 <= a < r.len() implies #[trigger] r[a] == e || s.contains(r[a]) by {
            if a < s.len() {
                assert(r[a] == s[a]);
            }
        }
    } else {
        let head = s.drop_last();
        lemma_inserted_sorted(head, e, lt);
        let part = inserted(head, e, lt);
        assert forall|a: int, b: int| 0 <= a < b < r.len() implies !lt(
            #[trigger] r[b],
            #[trigger] r[a],
        ) by {
            if b == part.len() {
                assert(part[a] == e || head.contains(part[a]));
                if part[a] == e {
                    assert(!(lt(e, s.last()) && lt(s.last(), e)));
                } else {
                    let k = choose|k: int| 0 <= k < head.len() && head[k] == part[a];
                    assert(s[k] == part[a]);
                    assert(!lt(s[s.len() - 1], s[k]));
                }
            } else {
                assert(r[b] == part[b] && r[a] == part[a]);
            }
        }
        assert forall|a: int| 0 <= a < r.len() implies #[trigger] r[a] == e || s.contains(r[a]) by {
            if a < part.len() {
                assert(r[a] == part[a]);
                if part[a] != e {
                    let k = choose|k: int| 0 <= k < head.len() && head[k] == part[a];
                    assert(s[k] == r[a]);
                }
            } else {
                assert(s[s.len() - 1] == r[a]);
            }
        }
    }
}

/// Where no two things are alike, a list in order is so strictly.
pub proof fn lemma_in_order_strict<A>(s: Seq<A>, lt: spec_fn(A, A) -> bool, i: int, j: int)
    requires
        is_order(lt),
        forall|a: int, b: int|
            0 <= a < b < s.len() ==> lt(#[trigger] s[a], #[trigger] s[b]) || lt(s[b], s[a]),
        0 <= i < j < in_order(s, lt).len(),
    ensures
        lt(in_order(s, lt)[i], in_order(s, lt)[j]),
{
    broadcast use vstd::seq_lib::group_to_multiset_ensures;

    let r = in_order(s, lt);
    lemma_in_order_sorted(s, lt, i, j);
    lemma_in_order_same(s, lt);
    assert forall|a: A| !#[trigger] lt(a, a) by {
        assert(!(lt(a, a) && lt(a, a)));
    }
    assert(s.no_duplicates());
    s.lemma_multiset_has_no_duplicates();
    r.lemma_multiset_has_no_duplicates_conv();
    assert(r.to_multiset().contains(r[i]) && r.to_multiset().contains(r[j]));
    assert(s.contains(r[i]) && s.contains(r[j]));
    let a = choose|a: int| 0 <= a < s.len() && s[a] == r[i];
    let b = choose|b: int| 0 <= b < s.len() && s[b] == r[j];
    assert(r[i] != r[j]);
    assert(a != b);
}

/// Putting a list in order loses nothing and adds nothing.
pub proof fn lemma_in_order_same<A>(s: Seq<A>, lt: spec_fn(A, A) -> bool)
    ensures
        in_order(s, lt).to_multiset() == s.to_multiset(),
    decreases s.len(),
{
    broadcast use vstd::seq_lib::group_to_multiset_ensures;

    if s.len() > 0 {
        lemma_in_order_same(s.drop_last(), lt);
        lemma_inserted_same(in_order(s.drop_last(), lt), s.last(), lt);
        assert(s =~= s.drop_last().push(s.last()));
    }
}

proof fn lemma_inserted_same<A>(s: Seq<A>, e: A, lt: spec_fn(A, A) -> bool)
    ensures
        inserted(s, e, lt).to_multiset() == s.to_multiset().insert(e),
    decreases s.len(),
{
    broadcast use vstd::seq_lib::group_to_multiset_ensures;

    if !(s.len() == 0 || !lt(e, s.last())) {
        lemma_inserted_same(s.drop_last(), e, lt);
        assert(s =~= s.drop_last().push(s.last()));
        assert(inserted(s, e, lt).to_multiset() =~= s.to_multiset().insert(e));
    }
}

} // verus!
