//! What a node agent knows about the Pods on its node.

use vstd::prelude::*;

use crate::pod::{Pod, PodName, PodView};
use crate::runtime::sandbox::{PodSandbox, SandboxView};
use crate::text;

verus! {

/// All that is known about one Pod: what was asked for, and what was made of
/// it.
#[derive(Debug, Clone, PartialEq)]
pub struct PodState {
    /// The manifest that the Pod was created from.
    pub pod: Pod,
    /// The Pod's containers.
    pub sandbox: PodSandbox,
}

/// What a `PodState` holds.
#[verifier::ext_equal]
pub struct PodStateView {
    pub pod: PodView,
    pub sandbox: SandboxView,
}

impl DeepView for PodState {
    type V = PodStateView;

    open spec fn deep_view(&self) -> PodStateView {
        PodStateView { pod: self.pod.deep_view(), sandbox: self.sandbox.deep_view() }
    }
}

/// The Pods of a node, by name. No name occurs twice.
#[derive(Debug)]
pub struct Store {
    pub pods: Vec<(PodName, PodState)>,
}

pub open spec fn keys(pairs: Seq<(Seq<char>, PodStateView)>) -> Seq<Seq<char>> {
    Seq::new(pairs.len(), |i: int| pairs[i].0)
}

impl View for Store {
    type V = Map<Seq<char>, PodStateView>;

    open spec fn view(&self) -> Map<Seq<char>, PodStateView> {
        let pairs = self.pods.deep_view();
        Map::new(
            |k: Seq<char>| keys(pairs).contains(k),
            |k: Seq<char>| pairs[keys(pairs).index_of(k)].1,
        )
    }
}

impl Default for Store {
    fn default() -> (store: Self)
        ensures
            store.wf(),
            store@ == Map::<Seq<char>, PodStateView>::empty(),
    {
        Store::new()
    }
}

impl Store {
    pub open spec fn wf(self) -> bool {
        keys(self.pods.deep_view()).no_duplicates()
    }

    proof fn holds(self, i: int)
        requires
            self.wf(),
            0 <= i < self.pods@.len(),
        ensures
            self@.contains_key(self.pods@[i].0@),
            self@[self.pods@[i].0@] == self.pods@[i].1.deep_view(),
    {
        let pairs = self.pods.deep_view();
        let ks = keys(pairs);
        assert(ks[i] == self.pods@[i].0@);
        assert(ks.contains(ks[i]));
        let j = ks.index_of(ks[i]);
        assert(0 <= j < ks.len() && ks[j] == ks[i]);
        assert(i == j);
    }

    proof fn replaced(self, after: Store, i: int)
        requires
            self.wf(),
            0 <= i < self.pods@.len(),
            after.pods@.len() == self.pods@.len(),
            after.pods@ == self.pods@.update(i, after.pods@[i]),
            after.pods@[i].0@ == self.pods@[i].0@,
        ensures
            after.wf(),
            after@ == self@.insert(self.pods@[i].0@, after.pods@[i].1.deep_view()),
    {
        let key = self.pods@[i].0@;
        let value = after.pods@[i].1.deep_view();
        let (was, now) = (self.pods.deep_view(), after.pods.deep_view());
        assert(now =~= was.update(i, (key, value)));
        assert(keys(now) =~= keys(was));
        self.holds(i);
        assert forall|k: Seq<char>| #[trigger] after@.contains_key(k) implies after@[k]
            == self@.insert(key, value)[k] by {
            let j = keys(now).index_of(k);
            after.holds(j);
            self.holds(j);
            if j != i {
                assert(keys(was)[j] != keys(was)[i]);
            }
        }
        assert(after@ =~= self@.insert(key, value));
    }

    pub fn new() -> (store: Self)
        ensures
            store.wf(),
            store@ == Map::<Seq<char>, PodStateView>::empty(),
    {
        let store = Store { pods: Vec::new() };
        assert(store@ =~= Map::<Seq<char>, PodStateView>::empty());
        store
    }

    fn find(&self, name: &str) -> (at: Option<usize>)
        requires
            self.wf(),
        ensures
            match at {
                Some(i) => i < self.pods@.len() && self.pods@[i as int].0@ == name@
                    && self@.contains_key(name@) && self@[name@]
                    == self.pods@[i as int].1.deep_view(),
                None => !self@.contains_key(name@),
            },
    {
        let ghost ks = keys(self.pods.deep_view());
        for i in 0..self.pods.len()
            invariant
                self.wf(),
                ks == keys(self.pods.deep_view()),
                forall|k: int| 0 <= k < i ==> #[trigger] ks[k] != name@,
        {
            assert(ks[i as int] == self.pods@[i as int].0@);
            if text::same(self.pods[i].0.as_str(), name) {
                proof {
                    self.holds(i as int);
                }
                return Some(i);
            }
        }
        None
    }

    /// Keeps a Pod under its name, in place of what was there.
    pub fn insert(&mut self, state: PodState)
        requires
            old(self).wf(),
        ensures
            final(self).wf(),
            final(self)@ == old(self)@.insert(state.deep_view().pod.metadata.name, state.deep_view()),
    {
        let name = state.pod.metadata.name.clone();
        self.put(name, state);
    }

    /// Keeps a Pod under a given name, in place of what was there.
    pub(crate) fn put(&mut self, name: PodName, state: PodState)
        requires
            old(self).wf(),
        ensures
            final(self).wf(),
            final(self)@ == old(self)@.insert(name@, state.deep_view()),
    {
        let ghost before = *self;
        let ghost pairs = self.pods.deep_view();
        let ghost key = name@;
        let ghost value = state.deep_view();
        match self.find(name.as_str()) {
            Some(i) => {
                self.pods.set(i, (name, state));
                proof {
                    before.replaced(*self, i as int);
                }
            },
            None => {
                self.pods.push((name, state));
                proof {
                    let now = self.pods.deep_view();
                    assert(now =~= pairs.push((key, value)));
                    assert(keys(now) =~= keys(pairs).push(key));
                    assert(!keys(pairs).contains(key));
                    assert(self.wf());
                    self.holds(pairs.len() as int);
                    assert forall|k: Seq<char>| #[trigger] self@.contains_key(k) <==> before@.insert(
                        key,
                        value,
                    ).contains_key(k) by {
                        if keys(pairs).contains(k) {
                            let j = keys(pairs).index_of(k);
                            assert(keys(now)[j] == k);
                        }
                        if keys(now).contains(k) && k != key {
                            let j = keys(now).index_of(k);
                            assert(keys(pairs)[j] == k);
                        }
                    }
                    assert forall|k: Seq<char>| #[trigger] self@.contains_key(k) implies self@[k]
                        == before@.insert(key, value)[k] by {
                        let j = keys(now).index_of(k);
                        self.holds(j);
                        if j < pairs.len() {
                            before.holds(j);
                            assert(keys(pairs)[j] == k);
                        }
                    }
                    assert(self@ =~= before@.insert(key, value));
                }
            },
        }
    }

    pub fn remove(&mut self, name: &str) -> (removed: Option<PodState>)
        requires
            old(self).wf(),
        ensures
            final(self).wf(),
            final(self)@ == old(self)@.remove(name@),
            match removed {
                Some(state) => old(self)@.contains_key(name@) && state.deep_view()
                    == old(self)@[name@],
                None => !old(self)@.contains_key(name@),
            },
    {
        let ghost before = *self;
        let ghost pairs = self.pods.deep_view();
        match self.find(name) {
            Some(i) => {
                let (_key, state) = self.pods.remove(i);
                proof {
                    let now = self.pods.deep_view();
                    let (ks, was) = (keys(now), keys(pairs));
                    assert(now =~= pairs.remove(i as int));
                    assert(ks =~= was.remove(i as int));
                    assert forall|a: int, b: int|
                        0 <= a < ks.len() && 0 <= b < ks.len() && a != b implies #[trigger] ks[a]
                        != #[trigger] ks[b] by {
                        let x = if a < i { a } else { a + 1 };
                        let y = if b < i { b } else { b + 1 };
                        assert(was[x] == ks[a] && was[y] == ks[b]);
                    }
                    assert(self.wf());
                    assert forall|k: Seq<char>| #[trigger] self@.contains_key(k)
                        <==> before@.remove(name@).contains_key(k) by {
                        if ks.contains(k) {
                            let j = ks.index_of(k);
                            let x = if j < i { j } else { j + 1 };
                            assert(was[x] == k);
                            assert(was[i as int] == name@);
                        }
                        if was.contains(k) && k != name@ {
                            let j = was.index_of(k);
                            let x = if j < i { j } else { j - 1 };
                            assert(was[i as int] == name@);
                            assert(ks[x] == k);
                        }
                    }
                    assert forall|k: Seq<char>| #[trigger] self@.contains_key(k) implies self@[k]
                        == before@.remove(name@)[k] by {
                        let j = ks.index_of(k);
                        let x = if j < i { j } else { j + 1 };
                        self.holds(j);
                        before.holds(x);
                        assert(self.pods@[j] == before.pods@[x]);
                    }
                    assert(self@ =~= before@.remove(name@));
                }
                Some(state)
            },
            None => {
                assert(before@.remove(name@) =~= before@);
                None
            },
        }
    }

    pub fn get(&self, name: &str) -> (state: Option<&PodState>)
        requires
            self.wf(),
        ensures
            match state {
                Some(s) => self@.contains_key(name@) && s.deep_view() == self@[name@],
                None => !self@.contains_key(name@),
            },
    {
        match self.find(name) {
            Some(i) => Some(&self.pods[i].1),
            None => None,
        }
    }

    /// What is known about a Pod, to be changed in place.
    pub fn get_mut(&mut self, name: &str) -> (state: Option<&mut PodState>)
        requires
            old(self).wf(),
        ensures
            final(self).wf(),
            state is Some <==> old(self)@.contains_key(name@),
            state is None ==> final(self)@ == old(self)@,
            state matches Some(s) ==> s.deep_view() == old(self)@[name@],
            state matches Some(s) ==> final(self)@ == old(self)@.insert(
                name@,
                final(s).deep_view(),
            ),
    {
        match self.find(name) {
            Some(i) => {
                let ghost before = *self;
                proof {
                    assert forall|after: Store|
                        #![trigger after.wf()]
                        #![trigger after.view()]
                        after.pods@.len() == before.pods@.len() && after.pods@
                            == before.pods@.update(i as int, after.pods@[i as int])
                            && after.pods@[i as int].0@ == name@ implies after.wf() && after@
                        == before@.insert(name@, after.pods@[i as int].1.deep_view()) by {
                        before.replaced(after, i as int);
                    }
                }
                Some(&mut self.pods[i].1)
            },
            None => None,
        }
    }

    pub fn contains(&self, name: &str) -> (r: bool)
        requires
            self.wf(),
        ensures
            r == self@.contains_key(name@),
    {
        self.find(name).is_some()
    }

    pub fn len(&self) -> (count: usize)
        requires
            self.wf(),
        ensures
            count == self@.dom().len(),
            self@.dom().finite(),
    {
        proof {
            let ks = keys(self.pods.deep_view());
            ks.unique_seq_to_set();
            assert(self@.dom() =~= ks.to_set());
        }
        self.pods.len()
    }

    pub fn is_empty(&self) -> (r: bool)
        requires
            self.wf(),
        ensures
            r == (self@ == Map::<Seq<char>, PodStateView>::empty()),
    {
        proof {
            if self.pods@.len() == 0 {
                assert(self@ =~= Map::<Seq<char>, PodStateView>::empty());
            } else {
                self.holds(0);
            }
        }
        self.pods.len() == 0
    }

    /// The names of all Pods, each once.
    pub fn names(&self) -> (names: Vec<PodName>)
        requires
            self.wf(),
        ensures
            names.deep_view().no_duplicates(),
            names.deep_view().to_set() == self@.dom(),
    {
        let ghost ks = keys(self.pods.deep_view());
        let mut names: Vec<PodName> = Vec::new();
        for i in 0..self.pods.len()
            invariant
                ks == keys(self.pods.deep_view()),
                names@.len() == i,
                forall|k: int| 0 <= k < i ==> (#[trigger] names@[k])@ == ks[k],
        {
            assert(ks[i as int] == self.pods@[i as int].0@);
            names.push(self.pods[i].0.clone());
        }
        assert(names.deep_view() =~= ks);
        assert(ks.to_set() =~= self@.dom());
        names
    }

    /// Takes all Pods out, each once with its name.
    pub fn drain(&mut self) -> (all: Vec<(PodName, PodState)>)
        requires
            old(self).wf(),
        ensures
            final(self).wf(),
            final(self)@ == Map::<Seq<char>, PodStateView>::empty(),
            keys(all.deep_view()).no_duplicates(),
            keys(all.deep_view()).to_set() == old(self)@.dom(),
            forall|i: int|
                0 <= i < all@.len() ==> old(self)@[(#[trigger] all.deep_view()[i]).0]
                    == all.deep_view()[i].1,
    {
        let ghost before = *self;
        let mut all: Vec<(PodName, PodState)> = Vec::new();
        std::mem::swap(&mut all, &mut self.pods);
        proof {
            assert(self.pods.deep_view() =~= Seq::<(Seq<char>, PodStateView)>::empty());
            assert(self@ =~= Map::<Seq<char>, PodStateView>::empty());
            assert(keys(all.deep_view()).to_set() =~= before@.dom());
            assert forall|i: int| 0 <= i < all@.len() implies before@[(
            #[trigger] all.deep_view()[i]).0] == all.deep_view()[i].1 by {
                before.holds(i);
            }
        }
        all
    }
}

} // verus!
