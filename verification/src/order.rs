//! Sorting that keeps equal items in the order they came in.

use vstd::prelude::*;

use crate::duplicate::Duplicate;

verus! {

/// Items that are sorted by part of what they hold.
pub trait Sortable: Duplicate {
    /// Whether one item comes strictly before another.
    spec fn precedes(a: Self::V, b: Self::V) -> bool;

    fn is_before(&self, other: &Self) -> (r: bool)
        ensures
            r == Self::precedes(self.deep_view(), other.deep_view()),
    ;

    /// Nothing comes before itself, and of any third item one that comes
    /// before another is before it or has it before the other.
    proof fn order_is_weak(a: Self::V, b: Self::V, c: Self::V)
        ensures
            !Self::precedes(a, a),
            Self::precedes(a, b) ==> !Self::precedes(b, a),
            Self::precedes(a, b) ==> Self::precedes(a, c) || Self::precedes(c, b),
    ;
}

/// Where an item goes among sorted items: behind the last one that it does not
/// come before.
pub open spec fn slot<T: Sortable>(sorted: Seq<T::V>, x: T::V) -> nat
    decreases sorted.len(),
{
    if sorted.len() == 0 || !T::precedes(x, sorted.last()) {
        sorted.len()
    } else {
        slot::<T>(sorted.drop_last(), x)
    }
}

/// The items in order; of two that neither comes before the other, the one
/// that came first stays first.
pub open spec fn sorted<T: Sortable>(items: Seq<T::V>) -> Seq<T::V>
    decreases items.len(),
{
    if items.len() == 0 {
        items
    } else {
        let front = sorted::<T>(items.drop_last());
        front.insert(slot::<T>(front, items.last()) as int, items.last())
    }
}

pub open spec fn in_order<T: Sortable>(s: Seq<T::V>) -> bool {
    forall|i: int, j: int|
        0 <= i < j < s.len() ==> !T::precedes(#[trigger] s[j], #[trigger] s[i])
}

proof fn slot_splits<T: Sortable>(s: Seq<T::V>, x: T::V)
    requires
        in_order::<T>(s),
    ensures
        slot::<T>(s, x) <= s.len(),
        forall|i: int| 0 <= i < slot::<T>(s, x) ==> !T::precedes(x, #[trigger] s[i]),
        forall|i: int| slot::<T>(s, x) <= i < s.len() ==> T::precedes(x, #[trigger] s[i]),
    decreases s.len(),
{
    if s.len() == 0 {
    } else if !T::precedes(x, s.last()) {
        assert forall|i: int| 0 <= i < s.len() implies !T::precedes(x, #[trigger] s[i]) by {
            if i < s.len() - 1 {
                assert(!T::precedes(s[s.len() - 1], s[i]));
                T::order_is_weak(x, s[i], s.last());
            }
        }
    } else {
        let front = s.drop_last();
        assert forall|i: int, j: int| 0 <= i < j < front.len() implies !T::precedes(
            #[trigger] front[j],
            #[trigger] front[i],
        ) by {
            assert(front[j] == s[j] && front[i] == s[i]);
        }
        slot_splits::<T>(front, x);
        assert forall|i: int| 0 <= i < slot::<T>(s, x) implies !T::precedes(
            x,
            #[trigger] s[i],
        ) by {
            assert(front[i] == s[i]);
        }
        assert forall|i: int| slot::<T>(s, x) <= i < s.len() implies T::precedes(
            x,
            #[trigger] s[i],
        ) by {
            if i < s.len() - 1 {
                assert(front[i] == s[i]);
            }
        }
    }
}

proof fn insertion_keeps_order<T: Sortable>(s: Seq<T::V>, x: T::V)
    requires
        in_order::<T>(s),
    ensures
        slot::<T>(s, x) <= s.len(),
        in_order::<T>(s.insert(slot::<T>(s, x) as int, x)),
{
    slot_splits::<T>(s, x);
    let k = slot::<T>(s, x) as int;
    let r = s.insert(k, x);
    assert forall|i: int, j: int| 0 <= i < j < r.len() implies !T::precedes(
        #[trigger] r[j],
        #[trigger] r[i],
    ) by {
        if i == k {
            assert(T::precedes(x, s[j - 1]));
            T::order_is_weak(x, s[j - 1], x);
        } else if j == k {
            assert(!T::precedes(x, s[i]));
        } else {
            let a = if i < k { i } else { i - 1 };
            let b = if j < k { j } else { j - 1 };
            assert(!T::precedes(s[b], s[a]));
        }
    }
}

/// Law: sorting gives the same items, with none before one it does not come
/// before.
pub proof fn sorting_orders<T: Sortable>(items: Seq<T::V>)
    ensures
        sorted::<T>(items).to_multiset() == items.to_multiset(),
        sorted::<T>(items).len() == items.len(),
        in_order::<T>(sorted::<T>(items)),
    decreases items.len(),
{
    broadcast use vstd::seq_lib::group_to_multiset_ensures;

    if items.len() > 0 {
        let front = sorted::<T>(items.drop_last());
        let x = items.last();
        sorting_orders::<T>(items.drop_last());
        insertion_keeps_order::<T>(front, x);
        assert(items =~= items.drop_last().push(x));
        let k = slot::<T>(front, x) as int;
        assert(front.insert(k, x).to_multiset() =~= front.to_multiset().insert(x));
    }
}

/// The items that neither come before a given one nor have it before them, in
/// their order.
pub open spec fn alike<T: Sortable>(items: Seq<T::V>, x: T::V) -> Seq<T::V> {
    items.filter(|y: T::V| !T::precedes(x, y) && !T::precedes(y, x))
}

/// Law: sorting keeps items that are alike in the order they came in.
pub proof fn sorting_is_stable<T: Sortable>(items: Seq<T::V>, x: T::V)
    ensures
        alike::<T>(sorted::<T>(items), x) == alike::<T>(items, x),
    decreases items.len(),
{
    reveal(Seq::filter);
    if items.len() > 0 {
        let last = items.last();
        let front = sorted::<T>(items.drop_last());
        let pick = |y: T::V| !T::precedes(x, y) && !T::precedes(y, x);
        sorting_is_stable::<T>(items.drop_last(), x);
        sorting_orders::<T>(items.drop_last());
        slot_splits::<T>(front, last);
        let k = slot::<T>(front, last) as int;
        let (head, tail) = (front.take(k), front.skip(k));
        assert(front.insert(k, last) =~= head.push(last) + tail);
        assert(front =~= head + tail);
        Seq::filter_distributes_over_add(head.push(last), tail, pick);
        Seq::filter_distributes_over_add(head, tail, pick);
        assert(head.push(last).drop_last() =~= head);
        if pick(last) {
            assert forall|i: int| 0 <= i < tail.len() implies !pick(#[trigger] tail[i]) by {
                assert(tail[i] == front[k + i]);
                assert(T::precedes(last, tail[i]));
                T::order_is_weak(last, tail[i], x);
            }
            none_picked(tail, pick);
            assert(tail.filter(pick) =~= Seq::<T::V>::empty());
            assert((head.push(last) + tail).filter(pick) =~= head.filter(pick).push(last));
        } else {
            assert((head.push(last) + tail).filter(pick) =~= (head + tail).filter(pick));
        }
    }
}

proof fn none_picked<V>(s: Seq<V>, pick: spec_fn(V) -> bool)
    requires
        forall|i: int| 0 <= i < s.len() ==> !pick(#[trigger] s[i]),
    ensures
        s.filter(pick) == Seq::<V>::empty(),
    decreases s.len(),
{
    reveal(Seq::filter);
    if s.len() > 0 {
        assert(!pick(s[s.len() - 1]));
        assert forall|i: int| 0 <= i < s.drop_last().len() implies !pick(
            #[trigger] s.drop_last()[i],
        ) by {
            assert(s.drop_last()[i] == s[i]);
        }
        none_picked(s.drop_last(), pick);
    }
}

/// Sorts items; those that are alike stay in the order they came in.
pub fn sort<T: Sortable>(items: &Vec<T>) -> (out: Vec<T>)
    ensures
        out.deep_view() == sorted::<T>(items.deep_view()),
{
    let ghost all = items.deep_view();
    let mut out: Vec<T> = Vec::new();
    assert(all.take(0) =~= Seq::<T::V>::empty());
    assert(out.deep_view() =~= Seq::<T::V>::empty());
    for i in 0..items.len()
        invariant
            all == items.deep_view(),
            out.deep_view() == sorted::<T>(all.take(i as int)),
    {
        let ghost before = out.deep_view();
        let ghost x = items@[i as int].deep_view();
        let mut k: usize = out.len();
        assert(before.take(k as int) =~= before);
        while k > 0 && items[i].is_before(&out[k - 1])
            invariant
                i < items@.len(),
                k <= out@.len(),
                before == out.deep_view(),
                x == items@[i as int].deep_view(),
                slot::<T>(before, x) == slot::<T>(before.take(k as int), x),
            decreases k,
        {
            assert(before.take(k as int).last() == out@[k - 1].deep_view());
            assert(before.take(k as int).drop_last() =~= before.take(k - 1));
            k = k - 1;
        }
        proof {
            if k > 0 {
                assert(before.take(k as int).last() == out@[k - 1].deep_view());
            }
            assert(slot::<T>(before, x) == k);
            assert(all.take(i + 1).drop_last() =~= all.take(i as int));
            assert(all.take(i + 1).last() == x);
        }
        out.insert(k, items[i].duplicate());
        assert(out.deep_view() =~= before.insert(k as int, x));
    }
    assert(all.take(items@.len() as int) =~= all);
    out
}

} // verus!
