//! Stable sorting by a numeric key.
//!
//! The sorted form of a sequence is defined once, for any element type and
//! any key, and the executable sort is proved to compute it.

use vstd::prelude::*;

verus! {

/// The condition that an element's key is at most `bound`.
pub open spec fn key_at_most<T>(key: spec_fn(T) -> nat, bound: nat) -> spec_fn(T) -> bool {
    |x: T| key(x) <= bound
}

/// The condition that an element's key is above `bound`.
pub open spec fn key_above<T>(key: spec_fn(T) -> nat, bound: nat) -> spec_fn(T) -> bool {
    |x: T| key(x) > bound
}

/// The condition that an element's key is `k`.
pub open spec fn key_is<T>(key: spec_fn(T) -> nat, k: nat) -> spec_fn(T) -> bool {
    |x: T| key(x) == k
}

/// The elements of `s` whose key is at most `bound`, in their order in `s`.
pub open spec fn up_to<T>(s: Seq<T>, key: spec_fn(T) -> nat, bound: nat) -> Seq<T> {
    s.filter(key_at_most(key, bound))
}

/// The elements of `s` whose key is above `bound`, in their order in `s`.
pub open spec fn above<T>(s: Seq<T>, key: spec_fn(T) -> nat, bound: nat) -> Seq<T> {
    s.filter(key_above(key, bound))
}

/// The elements of `s` whose key is `k`, in their order in `s`.
pub open spec fn with_key<T>(s: Seq<T>, key: spec_fn(T) -> nat, k: nat) -> Seq<T> {
    s.filter(key_is(key, k))
}

/// `x` placed into `sorted`: behind every element whose key is no larger
/// than its own, and before every element whose key is larger.
pub open spec fn placed<T>(sorted: Seq<T>, x: T, key: spec_fn(T) -> nat) -> Seq<T> {
    up_to(sorted, key, key(x)).push(x) + above(sorted, key, key(x))
}

/// The stable sort of `s` by `key`: the elements of `s` in ascending order of
/// their keys, those with equal keys in the order they have in `s`.
///
/// It is built from the front: the sort of all but the last element, with
/// the last element placed into it.
pub open spec fn stable_sort<T>(s: Seq<T>, key: spec_fn(T) -> nat) -> Seq<T>
    decreases s.len(),
{
    if s.len() == 0 {
        s
    } else {
        placed(stable_sort(s.drop_last(), key), s.last(), key)
    }
}

/// Keys never decrease along `s`.
pub open spec fn ordered<T>(s: Seq<T>, key: spec_fn(T) -> nat) -> bool {
    forall|i: int, j: int| 0 <= i <= j < s.len() ==> key(#[trigger] s[i]) <= key(#[trigger] s[j])
}

/// Filtering by a condition that every element meets changes nothing.
pub proof fn lemma_filter_all<T>(s: Seq<T>, pred: spec_fn(T) -> bool)
    requires
        forall|i: int| 0 <= i < s.len() ==> pred(#[trigger] s[i]),
    ensures
        s.filter(pred) == s,
    decreases s.len(),
{
    reveal(Seq::filter);
    if s.len() > 0 {
        lemma_filter_all(s.drop_last(), pred);
        assert(s.drop_last().push(s.last()) =~= s);
    }
}

/// Filtering by a condition that no element meets leaves nothing.
pub proof fn lemma_filter_none<T>(s: Seq<T>, pred: spec_fn(T) -> bool)
    requires
        forall|i: int| 0 <= i < s.len() ==> !pred(#[trigger] s[i]),
    ensures
        s.filter(pred) == Seq::<T>::empty(),
    decreases s.len(),
{
    reveal(Seq::filter);
    if s.len() > 0 {
        lemma_filter_none(s.drop_last(), pred);
    }
}

/// Every element of a filtered sequence meets the condition and comes from
/// the sequence that was filtered.
pub proof fn lemma_filter_members<T>(s: Seq<T>, pred: spec_fn(T) -> bool)
    ensures
        forall|i: int|
            0 <= i < s.filter(pred).len() ==> pred(#[trigger] s.filter(pred)[i]) && s.contains(
                s.filter(pred)[i],
            ),
    decreases s.len(),
{
    reveal(Seq::filter);
    if s.len() > 0 {
        let front = s.drop_last();
        lemma_filter_members(front, pred);
        assert forall|i: int| 0 <= i < s.filter(pred).len() implies pred(
            #[trigger] s.filter(pred)[i],
        ) && s.contains(s.filter(pred)[i]) by {
            if i < front.filter(pred).len() {
                let e = front.filter(pred)[i];
                assert(front.contains(e));
                let j = choose|j: int| 0 <= j < front.len() && front[j] == e;
                assert(s[j] == e);
            } else {
                assert(s[s.len() - 1] == s.last());
            }
        }
    }
}

/// Where a sequence is cut so that the front holds the keys up to that of
/// `x` and the back holds the larger ones, placing `x` puts it at the cut.
pub proof fn lemma_placed_at_cut<T>(front: Seq<T>, back: Seq<T>, x: T, key: spec_fn(T) -> nat)
    requires
        forall|i: int| 0 <= i < front.len() ==> key(#[trigger] front[i]) <= key(x),
        forall|i: int| 0 <= i < back.len() ==> key(#[trigger] back[i]) > key(x),
    ensures
        placed(front + back, x, key) == front.push(x) + back,
{
    let low = key_at_most(key, key(x));
    let high = key_above(key, key(x));
    Seq::filter_distributes_over_add(front, back, low);
    Seq::filter_distributes_over_add(front, back, high);
    lemma_filter_all(front, low);
    lemma_filter_none(back, low);
    lemma_filter_none(front, high);
    lemma_filter_all(back, high);
    assert(front + Seq::<T>::empty() =~= front);
    assert(Seq::<T>::empty() + back =~= back);
}

/// Filtering keeps the order of what remains.
pub proof fn lemma_filter_ordered<T>(s: Seq<T>, pred: spec_fn(T) -> bool, key: spec_fn(T) -> nat)
    requires
        ordered(s, key),
    ensures
        ordered(s.filter(pred), key),
    decreases s.len(),
{
    reveal(Seq::filter);
    if s.len() > 0 {
        let front = s.drop_last();
        assert(ordered(front, key)) by {
            assert forall|i: int, j: int| 0 <= i <= j < front.len() implies key(
                #[trigger] front[i],
            ) <= key(#[trigger] front[j]) by {
                assert(front[i] == s[i] && front[j] == s[j]);
            }
        }
        lemma_filter_ordered(front, pred, key);
        lemma_filter_members(front, pred);
        let kept = front.filter(pred);
        assert forall|i: int| 0 <= i < kept.len() implies key(#[trigger] kept[i]) <= key(
            s.last(),
        ) by {
            let e = kept[i];
            assert(front.contains(e));
            let j = choose|j: int| 0 <= j < front.len() && front[j] == e;
            assert(s[j] == e);
            assert(s[s.len() - 1] == s.last());
        }
    }
}

/// Placing an element into an ordered sequence gives an ordered sequence.
pub proof fn lemma_placed_ordered<T>(sorted: Seq<T>, x: T, key: spec_fn(T) -> nat)
    requires
        ordered(sorted, key),
    ensures
        ordered(placed(sorted, x, key), key),
{
    let low = key_at_most(key, key(x));
    let high = key_above(key, key(x));
    lemma_filter_ordered(sorted, low, key);
    lemma_filter_ordered(sorted, high, key);
    lemma_filter_members(sorted, low);
    lemma_filter_members(sorted, high);
    let a = sorted.filter(low);
    let b = sorted.filter(high);
    let r = placed(sorted, x, key);
    assert(r =~= a.push(x) + b);
    assert forall|i: int, j: int| 0 <= i <= j < r.len() implies key(#[trigger] r[i]) <= key(
        #[trigger] r[j],
    ) by {
        if j < a.len() {
            assert(r[i] == a[i] && r[j] == a[j]);
        } else if j == a.len() {
            if i < a.len() {
                assert(r[i] == a[i]);
            }
        } else {
            assert(r[j] == b[j - a.len() - 1]);
            if i < a.len() {
                assert(r[i] == a[i]);
            } else if i > a.len() {
                assert(r[i] == b[i - a.len() - 1]);
            }
        }
    }
}

/// A stable sort is in ascending order of its keys.
pub proof fn lemma_stable_sort_ordered<T>(s: Seq<T>, key: spec_fn(T) -> nat)
    ensures
        ordered(stable_sort(s, key), key),
    decreases s.len(),
{
    if s.len() > 0 {
        lemma_stable_sort_ordered(s.drop_last(), key);
        lemma_placed_ordered(stable_sort(s.drop_last(), key), s.last(), key);
    }
}

/// Sorting a sequence that is already in order changes nothing.
pub proof fn lemma_stable_sort_of_ordered<T>(s: Seq<T>, key: spec_fn(T) -> nat)
    requires
        ordered(s, key),
    ensures
        stable_sort(s, key) == s,
    decreases s.len(),
{
    if s.len() > 0 {
        let front = s.drop_last();
        assert(ordered(front, key)) by {
            assert forall|i: int, j: int| 0 <= i <= j < front.len() implies key(
                #[trigger] front[i],
            ) <= key(#[trigger] front[j]) by {
                assert(front[i] == s[i] && front[j] == s[j]);
            }
        }
        lemma_stable_sort_of_ordered(front, key);
        assert forall|i: int| 0 <= i < front.len() implies key(#[trigger] front[i]) <= key(
            s.last(),
        ) by {
            assert(front[i] == s[i]);
            assert(s[s.len() - 1] == s.last());
        }
        lemma_placed_at_cut(front, Seq::<T>::empty(), s.last(), key);
        assert(front + Seq::<T>::empty() =~= front);
        assert(front.push(s.last()) + Seq::<T>::empty() =~= s);
    }
}

/// Sorting twice is the same as sorting once.
pub proof fn lemma_stable_sort_idempotent<T>(s: Seq<T>, key: spec_fn(T) -> nat)
    ensures
        stable_sort(stable_sort(s, key), key) == stable_sort(s, key),
{
    lemma_stable_sort_ordered(s, key);
    lemma_stable_sort_of_ordered(stable_sort(s, key), key);
}

/// Filtering twice, the second time by a narrower condition, is filtering
/// by the narrower condition.
pub proof fn lemma_filter_narrower<T>(s: Seq<T>, wide: spec_fn(T) -> bool, narrow: spec_fn(T) -> bool)
    requires
        forall|x: T| #[trigger] narrow(x) ==> wide(x),
    ensures
        s.filter(wide).filter(narrow) == s.filter(narrow),
    decreases s.len(),
{
    reveal(Seq::filter);
    if s.len() > 0 {
        let front = s.drop_last();
        lemma_filter_narrower(front, wide, narrow);
        if wide(s.last()) {
            front.filter(wide).lemma_filter_push(s.last(), narrow);
        }
    }
}

/// Filtering twice by conditions that exclude each other leaves nothing.
pub proof fn lemma_filter_disjoint<T>(s: Seq<T>, first: spec_fn(T) -> bool, second: spec_fn(T) -> bool)
    requires
        forall|x: T| #[trigger] first(x) ==> !second(x),
    ensures
        s.filter(first).filter(second) == Seq::<T>::empty(),
{
    lemma_filter_members(s, first);
    lemma_filter_none(s.filter(first), second);
}

/// Placing an element adds it at the end of the elements that share its
/// key and leaves the elements of every other key as they were.
pub proof fn lemma_placed_groups<T>(sorted: Seq<T>, x: T, key: spec_fn(T) -> nat, k: nat)
    ensures
        with_key(placed(sorted, x, key), key, k) == if k == key(x) {
            with_key(sorted, key, k).push(x)
        } else {
            with_key(sorted, key, k)
        },
{
    let low = key_at_most(key, key(x));
    let high = key_above(key, key(x));
    let same = key_is(key, k);
    let a = sorted.filter(low);
    let b = sorted.filter(high);
    Seq::filter_distributes_over_add(a.push(x), b, same);
    a.lemma_filter_push(x, same);
    if k <= key(x) {
        lemma_filter_narrower(sorted, low, same);
        lemma_filter_disjoint(sorted, high, same);
        assert(a.filter(same).push(x) + Seq::<T>::empty() =~= a.filter(same).push(x));
        assert(a.filter(same) + Seq::<T>::empty() =~= a.filter(same));
    } else {
        lemma_filter_disjoint(sorted, low, same);
        lemma_filter_narrower(sorted, high, same);
        assert(Seq::<T>::empty() + b.filter(same) =~= b.filter(same));
    }
}

/// A stable sort keeps, for every key, the elements with that key in the
/// order they had.
pub proof fn lemma_stable_sort_groups<T>(s: Seq<T>, key: spec_fn(T) -> nat, k: nat)
    ensures
        with_key(stable_sort(s, key), key, k) == with_key(s, key, k),
    decreases s.len(),
{
    if s.len() > 0 {
        let front = s.drop_last();
        lemma_stable_sort_groups(front, key, k);
        lemma_placed_groups(stable_sort(front, key), s.last(), key, k);
        front.lemma_filter_push(s.last(), key_is(key, k));
        assert(front.push(s.last()) =~= s);
    }
}

/// The elements that meet a condition and the elements that do not are,
/// together, all the elements.
pub proof fn lemma_filter_partition<T>(s: Seq<T>, yes: spec_fn(T) -> bool, no: spec_fn(T) -> bool)
    requires
        forall|x: T| #[trigger] no(x) == !yes(x),
    ensures
        s.filter(yes).to_multiset().add(s.filter(no).to_multiset()) == s.to_multiset(),
    decreases s.len(),
{
    broadcast use vstd::seq_lib::to_multiset_build;
    broadcast use vstd::multiset::group_multiset_axioms;

    reveal(Seq::filter);
    if s.len() == 0 {
        s.to_multiset_ensures();
        assert(s.filter(yes).to_multiset().add(s.filter(no).to_multiset()) =~= s.to_multiset());
    } else {
        let front = s.drop_last();
        lemma_filter_partition(front, yes, no);
        assert(front.push(s.last()) =~= s);
        assert(s.filter(yes).to_multiset().add(s.filter(no).to_multiset()) =~= s.to_multiset());
    }
}

/// A stable sort holds exactly the elements of what was sorted, each as
/// often.
pub proof fn lemma_stable_sort_permutes<T>(s: Seq<T>, key: spec_fn(T) -> nat)
    ensures
        stable_sort(s, key).to_multiset() == s.to_multiset(),
        stable_sort(s, key).len() == s.len(),
    decreases s.len(),
{
    broadcast use vstd::seq_lib::to_multiset_build;
    broadcast use vstd::multiset::group_multiset_axioms;

    if s.len() > 0 {
        let front = s.drop_last();
        let x = s.last();
        let sorted = stable_sort(front, key);
        lemma_stable_sort_permutes(front, key);
        let a = up_to(sorted, key, key(x));
        let b = above(sorted, key, key(x));
        lemma_filter_partition(sorted, key_at_most(key, key(x)), key_above(key, key(x)));
        vstd::seq_lib::lemma_multiset_commutative(a.push(x), b);
        assert(front.push(x) =~= s);
        assert(stable_sort(s, key).to_multiset() =~= s.to_multiset());
    }
    stable_sort(s, key).to_multiset_ensures();
    s.to_multiset_ensures();
}

/// A stable sort holds a value exactly when what was sorted holds it.
pub proof fn lemma_stable_sort_members<T>(s: Seq<T>, key: spec_fn(T) -> nat, x: T)
    ensures
        stable_sort(s, key).contains(x) == s.contains(x),
{
    lemma_stable_sort_permutes(s, key);
    stable_sort(s, key).to_multiset_ensures();
    s.to_multiset_ensures();
    assert(stable_sort(s, key).to_multiset().count(x) == s.to_multiset().count(x));
}

/// Among the elements that meet one condition, those that meet a second
/// and those that do not are, in number, all that meet the first.
pub proof fn lemma_filter_split_count<T>(
    s: Seq<T>,
    yes: spec_fn(T) -> bool,
    no: spec_fn(T) -> bool,
    pred: spec_fn(T) -> bool,
)
    requires
        forall|x: T| #[trigger] no(x) == !yes(x),
    ensures
        s.filter(yes).filter(pred).len() + s.filter(no).filter(pred).len() == s.filter(pred).len(),
    decreases s.len(),
{
    reveal(Seq::filter);
    if s.len() > 0 {
        let front = s.drop_last();
        lemma_filter_split_count(front, yes, no, pred);
        front.filter(yes).lemma_filter_push(s.last(), pred);
        front.filter(no).lemma_filter_push(s.last(), pred);
    }
}

/// A stable sort holds as many elements that meet a condition as what was
/// sorted.
pub proof fn lemma_stable_sort_count<T>(s: Seq<T>, key: spec_fn(T) -> nat, pred: spec_fn(T) -> bool)
    ensures
        stable_sort(s, key).filter(pred).len() == s.filter(pred).len(),
    decreases s.len(),
{
    reveal(Seq::filter);
    if s.len() > 0 {
        let front = s.drop_last();
        let x = s.last();
        let sorted = stable_sort(front, key);
        lemma_stable_sort_count(front, key, pred);
        let a = up_to(sorted, key, key(x));
        let b = above(sorted, key, key(x));
        lemma_filter_split_count(sorted, key_at_most(key, key(x)), key_above(key, key(x)), pred);
        Seq::filter_distributes_over_add(a.push(x), b, pred);
        a.lemma_filter_push(x, pred);
    }
}

/// Replacing an element by one that meets a condition exactly when the
/// replaced element did leaves the number of elements that meet it unchanged.
pub proof fn lemma_update_count<T>(s: Seq<T>, index: int, x: T, pred: spec_fn(T) -> bool)
    requires
        0 <= index < s.len(),
        pred(x) == pred(s[index]),
    ensures
        s.update(index, x).filter(pred).len() == s.filter(pred).len(),
{
    let front = s.take(index);
    let back = s.skip(index + 1);
    assert(s =~= front.push(s[index]) + back);
    assert(s.update(index, x) =~= front.push(x) + back);
    Seq::filter_distributes_over_add(front.push(s[index]), back, pred);
    Seq::filter_distributes_over_add(front.push(x), back, pred);
    front.lemma_filter_push(s[index], pred);
    front.lemma_filter_push(x, pred);
}

/// Filtering first by another condition never adds elements that meet a
/// condition.
pub proof fn lemma_filter_count_shrinks<T>(
    s: Seq<T>,
    keep: spec_fn(T) -> bool,
    pred: spec_fn(T) -> bool,
)
    ensures
        s.filter(keep).filter(pred).len() <= s.filter(pred).len(),
    decreases s.len(),
{
    reveal(Seq::filter);
    if s.len() > 0 {
        let front = s.drop_last();
        lemma_filter_count_shrinks(front, keep, pred);
        front.filter(keep).lemma_filter_push(s.last(), pred);
    }
}

/// Two sequences hold, for every key, the same elements with that key in
/// the same order.
pub open spec fn same_groups<T>(a: Seq<T>, b: Seq<T>, key: spec_fn(T) -> nat) -> bool {
    forall|k: nat| #[trigger] with_key(a, key, k) == with_key(b, key, k)
}

/// All but the last element of an ordered sequence are ordered, and none of
/// them has a larger key than the last.
proof fn lemma_ordered_front<T>(s: Seq<T>, key: spec_fn(T) -> nat)
    requires
        ordered(s, key),
        s.len() > 0,
    ensures
        ordered(s.drop_last(), key),
        forall|i: int| 0 <= i < s.len() ==> key(#[trigger] s[i]) <= key(s.last()),
{
    let front = s.drop_last();
    assert forall|i: int, j: int| 0 <= i <= j < front.len() implies key(#[trigger] front[i])
        <= key(#[trigger] front[j]) by {
        assert(front[i] == s[i] && front[j] == s[j]);
    }
    assert forall|i: int| 0 <= i < s.len() implies key(#[trigger] s[i]) <= key(s.last()) by {
        assert(s[s.len() - 1] == s.last());
    }
}

/// Every element of a sequence is among the elements that have its key.
proof fn lemma_in_own_group<T>(s: Seq<T>, key: spec_fn(T) -> nat, i: int)
    requires
        0 <= i < s.len(),
    ensures
        with_key(s, key, key(s[i])).contains(s[i]),
{
    s.lemma_filter_contains(key_is(key, key(s[i])), i);
}

/// Ordered sequences that hold the same elements under every key, in the
/// same order, are the same sequence.
pub proof fn lemma_ordered_groups_unique<T>(a: Seq<T>, b: Seq<T>, key: spec_fn(T) -> nat)
    requires
        ordered(a, key),
        ordered(b, key),
        same_groups(a, b, key),
    ensures
        a == b,
    decreases a.len(),
{
    if a.len() == 0 {
        if b.len() > 0 {
            lemma_in_own_group(b, key, 0);
            let k = key(b[0]);
            assert(with_key(a, key, k) == with_key(b, key, k));
            lemma_filter_none(a, key_is(key, k));
        }
        assert(a =~= b);
    } else {
        let x = a.last();
        let top = key(x);
        let a_front = a.drop_last();
        lemma_ordered_front(a, key);
        assert(a_front.push(x) =~= a);
        a_front.lemma_filter_push(x, key_is(key, top));
        assert(with_key(a, key, top) == with_key(b, key, top));
        assert(with_key(a, key, top).last() == x);
        lemma_filter_members(b, key_is(key, top));
        assert(b.len() > 0) by {
            if b.len() == 0 {
                lemma_filter_none(b, key_is(key, top));
            }
        }
        let y = b.last();
        let b_front = b.drop_last();
        lemma_ordered_front(b, key);
        assert(b_front.push(y) =~= b);
        assert(key(y) == top) by {
            // The last of `b` has a key that occurs in `a`, so none above `top`.
            lemma_in_own_group(b, key, b.len() - 1);
            assert(b[b.len() - 1] == y);
            assert(with_key(a, key, key(y)) == with_key(b, key, key(y)));
            lemma_filter_members(a, key_is(key, key(y)));
            let among = with_key(a, key, key(y));
            let p = choose|p: int| 0 <= p < among.len() && among[p] == y;
            assert(a.contains(among[p]));
            let q = choose|q: int| 0 <= q < a.len() && a[q] == y;
            assert(key(a[q]) <= top);
            // And `x` occurs in `b`, so the last of `b` has no key below `top`.
            let group = with_key(b, key, top);
            assert(group[group.len() - 1] == x);
            assert(b.contains(group[group.len() - 1]));
            let r = choose|r: int| 0 <= r < b.len() && b[r] == x;
            assert(key(b[r]) <= key(y));
        }
        b_front.lemma_filter_push(y, key_is(key, top));
        assert(with_key(b, key, top).last() == y);
        assert(x == y);
        assert forall|k: nat| #[trigger] with_key(a_front, key, k) == with_key(b_front, key, k) by {
            a_front.lemma_filter_push(x, key_is(key, k));
            b_front.lemma_filter_push(y, key_is(key, k));
            assert(with_key(a, key, k) == with_key(b, key, k));
            if k == top {
                assert(with_key(a_front, key, k) =~= with_key(a, key, k).drop_last());
                assert(with_key(b_front, key, k) =~= with_key(b, key, k).drop_last());
            }
        }
        lemma_ordered_groups_unique(a_front, b_front, key);
    }
}

/// The stable sort of a sequence is the one sequence that is in ascending
/// order of its keys and holds, for every key, the elements with that key
/// in the order they have in the sequence.
pub proof fn lemma_stable_sort_unique<T>(s: Seq<T>, sorted: Seq<T>, key: spec_fn(T) -> nat)
    requires
        ordered(sorted, key),
        same_groups(sorted, s, key),
    ensures
        sorted == stable_sort(s, key),
{
    lemma_stable_sort_ordered(s, key);
    assert forall|k: nat| #[trigger]
        with_key(sorted, key, k) == with_key(stable_sort(s, key), key, k) by {
        lemma_stable_sort_groups(s, key, k);
        assert(with_key(sorted, key, k) == with_key(s, key, k));
    }
    lemma_ordered_groups_unique(sorted, stable_sort(s, key), key);
}

/// A value that is sorted by a number read off its view.
pub trait Ranked: View {
    /// The number by which a value with view `v` is sorted; smaller comes
    /// first.
    spec fn rank_of(v: Self::V) -> nat;

    fn rank(&self) -> (rank: u16)
        ensures
            rank as nat == Self::rank_of(self@),
    ;
}

/// The views of the elements of `s`, in order.
pub open spec fn views<T: View>(s: Seq<T>) -> Seq<T::V> {
    s.map_values(|x: T| x@)
}

/// The sort key of `T`, as a function on views.
pub open spec fn rank_fn<T: Ranked>() -> spec_fn(T::V) -> nat {
    |v: T::V| T::rank_of(v)
}

/// Moves the element at `index` forward into the ordered elements before
/// it: behind those that rank no higher than it, before those that rank
/// higher. The elements after `index` stay where they are.
pub fn settle<T: Ranked>(v: &mut Vec<T>, index: usize)
    requires
        index < old(v).len(),
        ordered(views(old(v)@.take(index as int)), rank_fn::<T>()),
    ensures
        final(v).len() == old(v).len(),
        views(final(v)@.take(index + 1)) == placed(
            views(old(v)@.take(index as int)),
            old(v)@[index as int]@,
            rank_fn::<T>(),
        ),
        final(v)@.skip(index + 1) == old(v)@.skip(index + 1),
{
    let rank = v[index].rank();
    let mut at = index;
    while at > 0 && v[at - 1].rank() > rank
        invariant
            at <= index < v.len(),
            v@ == old(v)@,
            rank as nat == T::rank_of(v@[index as int]@),
            forall|j: int| at <= j < index ==> T::rank_of(#[trigger] v@[j]@) > rank,
        decreases at,
    {
        at -= 1;
    }
    let moved = v.remove(index);
    v.insert(at, moved);
    proof {
        let key = rank_fn::<T>();
        let before = old(v)@.take(index as int);
        let front = views(before.take(at as int));
        let back = views(before.skip(at as int));
        assert(views(before) =~= front + back);
        assert(views(v@.take(index + 1)) =~= front.push(moved@) + back);
        assert(v@.skip(index + 1) =~= old(v)@.skip(index + 1));
        assert forall|j: int| 0 <= j < front.len() implies key(#[trigger] front[j]) <= key(
            moved@,
        ) by {
            if at > 0 {
                assert(views(before)[j] == front[j]);
                assert(views(before)[at - 1] == old(v)@[at - 1]@);
            }
        }
        assert forall|j: int| 0 <= j < back.len() implies key(#[trigger] back[j]) > key(
            moved@,
        ) by {
            assert(back[j] == old(v)@[at + j]@);
        }
        lemma_placed_at_cut(front, back, moved@, key);
    }
}

/// Sorts `v` by rank, keeping elements of equal rank in the order they had.
pub fn sort_by_rank<T: Ranked>(v: &mut Vec<T>)
    ensures
        views(final(v)@) == stable_sort(views(old(v)@), rank_fn::<T>()),
{
    let mut done: usize = 0;
    while done < v.len()
        invariant
            done <= v.len(),
            v.len() == old(v).len(),
            views(v@.take(done as int)) == stable_sort(
                views(old(v)@.take(done as int)),
                rank_fn::<T>(),
            ),
            v@.skip(done as int) == old(v)@.skip(done as int),
        decreases v.len() - done,
    {
        let ghost before = v@;
        proof {
            lemma_stable_sort_ordered(views(old(v)@.take(done as int)), rank_fn::<T>());
        }
        settle(v, done);
        proof {
            let grown = views(old(v)@.take(done + 1));
            assert(before[done as int] == before.skip(done as int)[0]);
            assert(old(v)@[done as int] == old(v)@.skip(done as int)[0]);
            assert(grown.drop_last() =~= views(old(v)@.take(done as int)));
            assert(grown.last() == old(v)@[done as int]@);
            assert(v@.skip(done + 1) =~= before.skip(done as int).skip(1));
            assert(old(v)@.skip(done + 1) =~= old(v)@.skip(done as int).skip(1));
        }
        done += 1;
    }
    proof {
        assert(v@.take(done as int) =~= v@);
        assert(old(v)@.take(done as int) =~= old(v)@);
    }
}

} // verus!
