//! Maps from names to values. Kept in name order, so that the same contents
//! always have the same form, in whatever order they were set.

use vstd::prelude::*;

use crate::duplicate::Duplicate;
use crate::text;

verus! {

/// Pairs in strictly ascending order of their names.
pub open spec fn in_key_order<V>(pairs: Seq<(Seq<char>, V)>) -> bool {
    forall|i: int, j: int|
        0 <= i < j < pairs.len() ==> text::text_before(
            (#[trigger] pairs[i]).0,
            (#[trigger] pairs[j]).0,
        )
}

/// The pairs as a map.
pub open spec fn as_map<V>(pairs: Seq<(Seq<char>, V)>) -> Map<Seq<char>, V>
    decreases pairs.len(),
{
    if pairs.len() == 0 {
        Map::empty()
    } else {
        as_map(pairs.drop_last()).insert(pairs.last().0, pairs.last().1)
    }
}

pub open spec fn has_key<V>(pairs: Seq<(Seq<char>, V)>, key: Seq<char>) -> bool {
    exists|i: int| 0 <= i < pairs.len() && (#[trigger] pairs[i]).0 == key
}

pub proof fn as_map_holds_pairs<V>(pairs: Seq<(Seq<char>, V)>)
    requires
        in_key_order(pairs),
    ensures
        forall|k: Seq<char>| #[trigger] as_map(pairs).contains_key(k) <==> has_key(pairs, k),
        forall|i: int|
            0 <= i < pairs.len() ==> as_map(pairs)[(#[trigger] pairs[i]).0] == pairs[i].1,
        as_map(pairs).dom().finite(),
        as_map(pairs).len() == pairs.len(),
    decreases pairs.len(),
{
    if pairs.len() > 0 {
        let front = pairs.drop_last();
        as_map_holds_pairs(front);
        assert forall|k: Seq<char>| #[trigger] as_map(pairs).contains_key(k) <==> has_key(
            pairs,
            k,
        ) by {
            if has_key(front, k) {
                let i = choose|i: int| 0 <= i < front.len() && (#[trigger] front[i]).0 == k;
                assert(pairs[i].0 == k);
            }
            if has_key(pairs, k) {
                let i = choose|i: int| 0 <= i < pairs.len() && (#[trigger] pairs[i]).0 == k;
                if i < front.len() {
                    assert(front[i].0 == k);
                } else {
                    assert(pairs.last().0 == k);
                }
            }
            assert(pairs[pairs.len() - 1] == pairs.last());
        }
        assert forall|i: int| 0 <= i < pairs.len() implies as_map(pairs)[(
        #[trigger] pairs[i]).0] == pairs[i].1 by {
            if i < front.len() {
                assert(front[i] == pairs[i]);
                text::text_before_is_total(pairs[i].0, pairs.last().0);
                assert(pairs[pairs.len() - 1] == pairs.last());
                assert(text::text_before(pairs[i].0, pairs[pairs.len() - 1].0));
            }
        }
        assert(!has_key(front, pairs.last().0)) by {
            if has_key(front, pairs.last().0) {
                let i = choose|i: int|
                    0 <= i < front.len() && (#[trigger] front[i]).0 == pairs.last().0;
                assert(pairs[i] == front[i]);
                assert(text::text_before(pairs[i].0, pairs[pairs.len() - 1].0));
                text::text_before_is_total(pairs[i].0, pairs.last().0);
            }
        }
        assert(!as_map(front).contains_key(pairs.last().0));
    } else {
        assert(!has_key(pairs, Seq::<char>::empty()));
    }
}

/// Law: the same contents always have the same form: lists in name order that
/// hold the same map are the same list.
pub proof fn form_is_canonical<V>(a: Seq<(Seq<char>, V)>, b: Seq<(Seq<char>, V)>)
    requires
        in_key_order(a),
        in_key_order(b),
        as_map(a) == as_map(b),
    ensures
        a == b,
    decreases a.len(),
{
    as_map_holds_pairs(a);
    as_map_holds_pairs(b);
    if a.len() > 0 {
        let n = a.len() - 1;
        let x = a[n];
        let y = b[n];
        assert(as_map(a).contains_key(x.0));
        assert(as_map(b).contains_key(y.0));
        let i = choose|i: int| 0 <= i < b.len() && (#[trigger] b[i]).0 == x.0;
        let j = choose|j: int| 0 <= j < a.len() && (#[trigger] a[j]).0 == y.0;
        text::text_before_is_total(x.0, y.0);
        if x.0 != y.0 {
            assert(i < n);
            assert(text::text_before(b[i].0, b[n].0));
            assert(j < n);
            assert(text::text_before(a[j].0, a[n].0));
            assert(false);
        }
        assert(as_map(a)[x.0] == x.1);
        assert(as_map(b)[y.0] == y.1);
        assert(x == y);
        let fa = a.drop_last();
        let fb = b.drop_last();
        as_map_holds_pairs(fa);
        as_map_holds_pairs(fb);
        assert(!as_map(fa).contains_key(x.0)) by {
            if has_key(fa, x.0) {
                let k = choose|k: int| 0 <= k < fa.len() && (#[trigger] fa[k]).0 == x.0;
                assert(a[k] == fa[k]);
                assert(text::text_before(a[k].0, a[n].0));
                text::text_before_is_total(a[k].0, x.0);
            }
        }
        assert(!as_map(fb).contains_key(x.0)) by {
            if has_key(fb, x.0) {
                let k = choose|k: int| 0 <= k < fb.len() && (#[trigger] fb[k]).0 == x.0;
                assert(b[k] == fb[k]);
                assert(text::text_before(b[k].0, b[n].0));
                text::text_before_is_total(b[k].0, x.0);
            }
        }
        assert(as_map(fa) =~= as_map(a).remove(x.0));
        assert(as_map(fb) =~= as_map(b).remove(x.0));
        form_is_canonical(fa, fb);
        assert(a =~= fa.push(x));
        assert(b =~= fb.push(x));
    } else {
        assert(a =~= b);
    }
}

/// Pairs with one more, in its place.
spec fn with_pair<V>(pairs: Seq<(Seq<char>, V)>, key: Seq<char>, v: V) -> Seq<(Seq<char>, V)>
    decreases pairs.len(),
{
    if pairs.len() == 0 {
        seq![(key, v)]
    } else if text::text_before(pairs.last().0, key) {
        pairs.push((key, v))
    } else {
        with_pair(pairs.drop_last(), key, v).push(pairs.last())
    }
}

proof fn with_pair_keeps_order<V>(pairs: Seq<(Seq<char>, V)>, key: Seq<char>, v: V)
    requires
        in_key_order(pairs),
        !has_key(pairs, key),
    ensures
        in_key_order(with_pair(pairs, key, v)),
        as_map(with_pair(pairs, key, v)) == as_map(pairs).insert(key, v),
        forall|i: int|
            0 <= i < with_pair(pairs, key, v).len() ==> {
                let x = (#[trigger] with_pair(pairs, key, v)[i]).0;
                x == key || has_key(pairs, x)
            },
    decreases pairs.len(),
{
    let all = with_pair(pairs, key, v);
    if pairs.len() == 0 {
        assert(all.drop_last() =~= pairs);
    } else {
        let front = pairs.drop_last();
        let last = pairs.last();
        assert(pairs[pairs.len() - 1] == last);
        text::text_before_is_total(last.0, key);
        if text::text_before(last.0, key) {
            assert(all.drop_last() =~= pairs);
            assert forall|i: int, j: int| 0 <= i < j < all.len() implies text::text_before(
                (#[trigger] all[i]).0,
                (#[trigger] all[j]).0,
            ) by {
                if j == pairs.len() && i < pairs.len() - 1 {
                    assert(text::text_before(pairs[i].0, pairs[pairs.len() - 1].0));
                    text::text_before_is_transitive(pairs[i].0, last.0, key);
                }
            }
            assert forall|i: int| 0 <= i < all.len() implies {
                let x = (#[trigger] all[i]).0;
                x == key || has_key(pairs, x)
            } by {
                if i < pairs.len() {
                    assert(pairs[i] == all[i]);
                }
            }
        } else {
            assert(!has_key(front, key)) by {
                if has_key(front, key) {
                    let i = choose|i: int| 0 <= i < front.len() && (#[trigger] front[i]).0 == key;
                    assert(pairs[i].0 == key);
                }
            }
            with_pair_keeps_order(front, key, v);
            let rest = with_pair(front, key, v);
            assert(all.drop_last() =~= rest);
            assert(as_map(all) =~= as_map(pairs).insert(key, v));
            assert forall|i: int| 0 <= i < all.len() implies {
                let x = (#[trigger] all[i]).0;
                (x == key || has_key(pairs, x)) && (i < rest.len() ==> text::text_before(x, last.0))
            } by {
                if i < rest.len() {
                    let x = rest[i].0;
                    if x != key {
                        let k = choose|k: int| 0 <= k < front.len() && (#[trigger] front[k]).0 == x;
                        assert(pairs[k].0 == x);
                        assert(text::text_before(pairs[k].0, pairs[pairs.len() - 1].0));
                    }
                } else {
                    assert(pairs[pairs.len() - 1].0 == all[i].0);
                }
            }
            assert forall|i: int, j: int| 0 <= i < j < all.len() implies text::text_before(
                (#[trigger] all[i]).0,
                (#[trigger] all[j]).0,
            ) by {
                if j < rest.len() {
                    assert(rest[i] == all[i] && rest[j] == all[j]);
                }
            }
        }
    }
}

/// Every finite map has a form in name order.
pub proof fn maps_have_a_form<V>(m: Map<Seq<char>, V>)
    requires
        m.dom().finite(),
    ensures
        exists|pairs: Seq<(Seq<char>, V)>| in_key_order(pairs) && as_map(pairs) == m,
    decreases m.dom().len(),
{
    if m.dom().len() == 0 {
        assert(m.dom() =~= Set::empty());
        let none = Seq::<(Seq<char>, V)>::empty();
        assert(as_map(none) =~= m);
        assert(in_key_order(none));
    } else {
        let key = m.dom().choose();
        let less = m.remove(key);
        assert(less.dom() =~= m.dom().remove(key));
        maps_have_a_form(less);
        let pairs = choose|pairs: Seq<(Seq<char>, V)>|
            in_key_order(pairs) && as_map(pairs) == less;
        as_map_holds_pairs(pairs);
        assert(!as_map(pairs).contains_key(key));
        with_pair_keeps_order(pairs, key, m[key]);
        assert(less.insert(key, m[key]) =~= m);
        assert(in_key_order(with_pair(pairs, key, m[key])));
    }
}

#[derive(Debug, PartialEq)]
pub struct NameMap<T: DeepView> {
    pairs: Vec<(String, T)>,
}

impl<T: DeepView> DeepView for NameMap<T> {
    type V = Map<Seq<char>, T::V>;

    closed spec fn deep_view(&self) -> Map<Seq<char>, T::V> {
        as_map(self.pairs.deep_view())
    }
}

impl<T: DeepView> View for NameMap<T> {
    type V = Map<Seq<char>, T::V>;

    open spec fn view(&self) -> Map<Seq<char>, T::V> {
        self.deep_view()
    }
}

impl<T: DeepView> Default for NameMap<T> {
    fn default() -> (map: Self)
        ensures
            map@ == Map::<Seq<char>, T::V>::empty(),
    {
        NameMap::new()
    }
}

impl<T: Duplicate> Duplicate for NameMap<T> {
    fn duplicate(&self) -> (copy: Self) {
        proof {
            use_type_invariant(self);
        }
        let mut pairs: Vec<(String, T)> = Vec::new();
        for i in 0..self.pairs.len()
            invariant
                pairs@.len() == i,
                forall|k: int|
                    0 <= k < i ==> (#[trigger] pairs@[k]).deep_view() == self.pairs@[k].deep_view(),
        {
            pairs.push((self.pairs[i].0.clone(), self.pairs[i].1.duplicate()));
        }
        assert(pairs.deep_view() =~= self.pairs.deep_view());
        NameMap { pairs }
    }
}

impl<T: Duplicate> Clone for NameMap<T> {
    fn clone(&self) -> (copy: Self)
        ensures
            copy@ == self@,
    {
        self.duplicate()
    }
}

impl<T: DeepView> NameMap<T> {
    #[verifier::type_invariant]
    spec fn ordered(&self) -> bool {
        in_key_order(self.pairs.deep_view())
    }

    pub fn new() -> (map: Self)
        ensures
            map@ == Map::<Seq<char>, T::V>::empty(),
    {
        let pairs: Vec<(String, T)> = Vec::new();
        assert(pairs.deep_view() =~= Seq::<(Seq<char>, T::V)>::empty());
        NameMap { pairs }
    }

    pub fn len(&self) -> (count: usize)
        ensures
            count == self@.len(),
            self@.dom().finite(),
    {
        proof {
            use_type_invariant(self);
            as_map_holds_pairs(self.pairs.deep_view());
        }
        self.pairs.len()
    }

    pub fn is_empty(&self) -> (empty: bool)
        ensures
            empty == (self@ == Map::<Seq<char>, T::V>::empty()),
    {
        proof {
            use_type_invariant(self);
            as_map_holds_pairs(self.pairs.deep_view());
            if self.pairs@.len() > 0 {
                assert(has_key(self.pairs.deep_view(), self.pairs.deep_view()[0].0));
                assert(self@.contains_key(self.pairs.deep_view()[0].0));
            } else {
                assert(self.pairs.deep_view() =~= Seq::<(Seq<char>, T::V)>::empty());
            }
        }
        self.pairs.len() == 0
    }

    /// The place of a key, or the place where it would stand.
    fn place(&self, key: &str) -> (at: usize)
        ensures
            at <= self.pairs@.len(),
            forall|i: int|
                0 <= i < at ==> text::text_before(
                    (#[trigger] self.pairs.deep_view()[i]).0,
                    key@,
                ),
            at < self.pairs@.len() ==> !text::text_before(
                self.pairs.deep_view()[at as int].0,
                key@,
            ),
    {
        let mut at: usize = 0;
        while at < self.pairs.len() && text::before(self.pairs[at].0.as_str(), key)
            invariant
                at <= self.pairs@.len(),
                forall|i: int|
                    0 <= i < at ==> text::text_before(
                        (#[trigger] self.pairs.deep_view()[i]).0,
                        key@,
                    ),
            decreases self.pairs@.len() - at,
        {
            at = at + 1;
        }
        at
    }

    /// Whether the pair at the place of a key is the key's own.
    fn found(&self, at: usize, key: &str) -> (found: bool)
        requires
            at <= self.pairs@.len(),
            forall|i: int|
                0 <= i < at ==> text::text_before(
                    (#[trigger] self.pairs.deep_view()[i]).0,
                    key@,
                ),
            at < self.pairs@.len() ==> !text::text_before(
                self.pairs.deep_view()[at as int].0,
                key@,
            ),
        ensures
            found == self@.contains_key(key@),
            found ==> at < self.pairs@.len() && self.pairs.deep_view()[at as int].0 == key@
                && self@[key@] == self.pairs.deep_view()[at as int].1,
            !found && at < self.pairs@.len() ==> text::text_before(
                key@,
                self.pairs.deep_view()[at as int].0,
            ),
    {
        let ghost pairs = self.pairs.deep_view();
        proof {
            use_type_invariant(self);
            as_map_holds_pairs(pairs);
            if at < pairs.len() {
                text::text_before_is_total(key@, pairs[at as int].0);
            }
        }
        let found = at < self.pairs.len() && text::same(self.pairs[at].0.as_str(), key);
        proof {
            if found {
                assert(has_key(pairs, key@));
            } else if has_key(pairs, key@) {
                let i = choose|i: int| 0 <= i < pairs.len() && (#[trigger] pairs[i]).0 == key@;
                text::text_before_is_total(key@, key@);
                if i > at {
                    assert(text::text_before(pairs[at as int].0, pairs[i].0));
                }
                assert(false);
            }
        }
        found
    }

    pub fn contains_key(&self, key: &str) -> (found: bool)
        ensures
            found == self@.contains_key(key@),
    {
        let at: usize = self.place(key);
        self.found(at, key)
    }

    pub fn get(&self, key: &str) -> (value: Option<&T>)
        ensures
            match value {
                Some(v) => self@.contains_key(key@) && v.deep_view() == self@[key@],
                None => !self@.contains_key(key@),
            },
    {
        let at: usize = self.place(key);
        if self.found(at, key) {
            Some(&self.pairs[at].1)
        } else {
            None
        }
    }

    /// Sets a value; gives what was there before.
    pub fn insert(&mut self, key: String, value: T) -> (previous: Option<T>)
        ensures
            final(self)@ == old(self)@.insert(key@, value.deep_view()),
            match previous {
                Some(v) => old(self)@.contains_key(key@) && v.deep_view() == old(self)@[key@],
                None => !old(self)@.contains_key(key@),
            },
    {
        let at: usize = self.place(key.as_str());
        let found = self.found(at, key.as_str());
        proof {
            use_type_invariant(&*self);
        }
        let ghost before = self.pairs.deep_view();
        let ghost added = (key@, value.deep_view());
        let mut pairs: Vec<(String, T)> = Vec::new();
        std::mem::swap(&mut pairs, &mut self.pairs);
        let previous = if found {
            let previous = pairs.remove(at);
            pairs.insert(at, (key, value));
            assert(pairs.deep_view() =~= before.update(at as int, added));
            Some(previous.1)
        } else {
            pairs.insert(at, (key, value));
            assert(pairs.deep_view() =~= before.insert(at as int, added));
            None
        };
        proof {
            let after = pairs.deep_view();
            assert forall|i: int, j: int| 0 <= i < j < after.len() implies text::text_before(
                (#[trigger] after[i]).0,
                (#[trigger] after[j]).0,
            ) by {
                if !found {
                    let x = if i < at {
                        i
                    } else {
                        i - 1
                    };
                    let y = if j < at {
                        j
                    } else {
                        j - 1
                    };
                    if i == at {
                        assert(after[j] == before[y]);
                        if y > at {
                            assert(text::text_before(before[at as int].0, before[y].0));
                            text::text_before_is_transitive(
                                added.0,
                                before[at as int].0,
                                before[y].0,
                            );
                        }
                    } else if j == at {
                        assert(after[i] == before[x]);
                    } else {
                        assert(after[i] == before[x]);
                        assert(after[j] == before[y]);
                    }
                } else {
                    assert(text::text_before(before[i].0, before[j].0));
                }
            }
            as_map_holds_pairs(before);
            as_map_holds_pairs(after);
            assert forall|k: Seq<char>| has_key(after, k) <==> has_key(before, k) || k
                == added.0 by {
                if has_key(after, k) {
                    let i = choose|i: int| 0 <= i < after.len() && (#[trigger] after[i]).0 == k;
                    if i != at {
                        let x = if found || i < at {
                            i
                        } else {
                            i - 1
                        };
                        assert(before[x] == after[i]);
                    }
                }
                if has_key(before, k) {
                    let x = choose|x: int| 0 <= x < before.len() && (#[trigger] before[x]).0 == k;
                    let i = if found || x < at {
                        x
                    } else {
                        x + 1
                    };
                    assert(after[i].0 == k);
                }
                assert(after[at as int].0 == added.0);
            }
            assert forall|k: Seq<char>| #[trigger]
                as_map(after).contains_key(k) implies as_map(after)[k] == as_map(before).insert(
                added.0,
                added.1,
            )[k] by {
                let i = choose|i: int| 0 <= i < after.len() && (#[trigger] after[i]).0 == k;
                assert(as_map(after)[after[i].0] == after[i].1);
                if i != at {
                    let x = if found || i < at {
                        i
                    } else {
                        i - 1
                    };
                    assert(before[x] == after[i]);
                    assert(as_map(before)[before[x].0] == before[x].1);
                    if k == added.0 {
                        if i < at {
                            assert(text::text_before(after[i].0, after[at as int].0));
                        } else {
                            assert(text::text_before(after[at as int].0, after[i].0));
                        }
                        text::text_before_is_total(k, k);
                        assert(after[at as int].0 == added.0);
                        assert(false);
                    }
                }
            }
            assert(as_map(after) =~= as_map(before).insert(added.0, added.1));
        }
        self.pairs = pairs;
        previous
    }

    /// Takes a value out.
    pub fn remove(&mut self, key: &str) -> (removed: Option<T>)
        ensures
            final(self)@ == old(self)@.remove(key@),
            match removed {
                Some(v) => old(self)@.contains_key(key@) && v.deep_view() == old(self)@[key@],
                None => !old(self)@.contains_key(key@),
            },
    {
        let at: usize = self.place(key);
        let found = self.found(at, key);
        proof {
            use_type_invariant(&*self);
        }
        if !found {
            assert(self@ =~= old(self)@.remove(key@));
            return None;
        }
        let ghost before = self.pairs.deep_view();
        let mut pairs: Vec<(String, T)> = Vec::new();
        std::mem::swap(&mut pairs, &mut self.pairs);
        let removed = pairs.remove(at);
        proof {
            let after = pairs.deep_view();
            assert(after =~= before.remove(at as int));
            assert forall|i: int, j: int| 0 <= i < j < after.len() implies text::text_before(
                (#[trigger] after[i]).0,
                (#[trigger] after[j]).0,
            ) by {
                let x = if i < at {
                    i
                } else {
                    i + 1
                };
                let y = if j < at {
                    j
                } else {
                    j + 1
                };
                assert(after[i] == before[x]);
                assert(after[j] == before[y]);
            }
            as_map_holds_pairs(before);
            as_map_holds_pairs(after);
            assert forall|k: Seq<char>| has_key(after, k) <==> has_key(before, k) && k != key@ by {
                if has_key(after, k) {
                    let i = choose|i: int| 0 <= i < after.len() && (#[trigger] after[i]).0 == k;
                    let x = if i < at {
                        i
                    } else {
                        i + 1
                    };
                    assert(before[x] == after[i]);
                    text::text_before_is_total(before[x].0, before[at as int].0);
                    if x < at {
                        assert(text::text_before(before[x].0, before[at as int].0));
                    } else {
                        assert(text::text_before(before[at as int].0, before[x].0));
                    }
                }
                if has_key(before, k) && k != key@ {
                    let x = choose|x: int| 0 <= x < before.len() && (#[trigger] before[x]).0 == k;
                    let i = if x < at {
                        x
                    } else {
                        x - 1
                    };
                    assert(after[i] == before[x]);
                }
            }
            assert forall|k: Seq<char>| #[trigger]
                as_map(after).contains_key(k) implies as_map(after)[k] == as_map(before)[k] by {
                let i = choose|i: int| 0 <= i < after.len() && (#[trigger] after[i]).0 == k;
                let x = if i < at {
                    i
                } else {
                    i + 1
                };
                assert(before[x] == after[i]);
                assert(as_map(after)[after[i].0] == after[i].1);
                assert(as_map(before)[before[x].0] == before[x].1);
            }
            assert(as_map(after) =~= as_map(before).remove(key@));
        }
        self.pairs = pairs;
        Some(removed.1)
    }

    /// The contents in name order.
    pub fn pairs(&self) -> (pairs: &Vec<(String, T)>)
        ensures
            in_key_order(pairs.deep_view()),
            as_map(pairs.deep_view()) == self@,
    {
        proof {
            use_type_invariant(self);
        }
        &self.pairs
    }
}

} // verus!
