//! The per-scenario context: recorded results and the user state store.
//!
//! A scenario is owned by exactly one worker while it runs; its state
//! never outlives it.  The engine records one `TestResult` per hook and
//! step execution here; the user state `S` belongs to the handlers and the
//! engine never reads it.

use vstd::prelude::*;

use crate::result::TestResult;

verus! {

/// The context of one running scenario.
#[derive(Debug)]
pub struct Scenario<S> {
    /// The user state handlers share, created fresh for the scenario.
    /// Attachments and other user-provided data a handler wants later
    /// hooks to see live here too: the engine never reads `S`.
    pub state: S,
    /// One result per hook and step execution, in recording order.
    pub results: Vec<TestResult>,
}

impl<S> Scenario<S> {
    /// A fresh scenario context around the given user state.
    pub fn new(state: S) -> (r: Scenario<S>)
        ensures
            r.results@.len() == 0,
    {
        Scenario { state, results: Vec::new() }
    }
}

/// A store of one value per key, initialized lazily: the first request for
/// a key stores the value supplied with it, later requests return the
/// stored value unchanged.  The embedding program keys it by runtime type
/// identity to give handlers one shared value per type and scenario.
#[derive(Debug)]
pub struct StateStore<V> {
    entries: Vec<(u64, V)>,
}

impl<V> StateStore<V> {
    /// The stored mapping.
    pub closed spec fn view(&self) -> Map<u64, V> {
        Map::new(
            |k: u64| exists|i: int| 0 <= i < self.entries@.len() && self.entries@[i].0 == k,
            |k: u64|
                self.entries@[choose|i: int|
                    0 <= i < self.entries@.len() && self.entries@[i].0 == k].1,
        )
    }

    /// Keys are unique.
    pub closed spec fn wf(&self) -> bool {
        forall|i: int, j: int|
            0 <= i < j < self.entries@.len() ==> (#[trigger] self.entries@[i].0) != (
            #[trigger] self.entries@[j].0)
    }

    /// An empty store.
    pub fn new() -> (r: StateStore<V>)
        ensures
            r.wf(),
            r@ == Map::<u64, V>::empty(),
    {
        let r = StateStore { entries: Vec::new() };
        proof {
            assert(r@ =~= Map::<u64, V>::empty());
        }
        r
    }

    /// The value stored under `key`, if there is one.
    pub fn get(&self, key: u64) -> (r: Option<&V>)
        requires
            self.wf(),
        ensures
            match r {
                Some(v) => self@.dom().contains(key) && *v == self@[key],
                None => !self@.dom().contains(key),
            },
    {
        let mut i: usize = 0;
        while i < self.entries.len()
            invariant
                0 <= i <= self.entries@.len(),
                self.wf(),
                forall|j: int| 0 <= j < i ==> (#[trigger] self.entries@[j].0) != key,
            decreases self.entries@.len() - i,
        {
            if self.entries[i].0 == key {
                proof {
                    let w = choose|w: int|
                        0 <= w < self.entries@.len() && self.entries@[w].0 == key;
                    assert(w == i);
                }
                return Some(&self.entries[i].1);
            }
            i = i + 1;
        }
        proof {
            assert(!self@.dom().contains(key));
        }
        None
    }

    /// Stores `value` under `key` unless the key is already present: the
    /// first store for a key wins, later ones leave the store unchanged.
    pub fn init(&mut self, key: u64, value: V)
        requires
            old(self).wf(),
        ensures
            final(self).wf(),
            final(self)@ == if old(self)@.dom().contains(key) {
                old(self)@
            } else {
                old(self)@.insert(key, value)
            },
    {
        let mut i: usize = 0;
        while i < self.entries.len()
            invariant
                0 <= i <= self.entries@.len(),
                self.wf(),
                self == old(self),
                forall|j: int| 0 <= j < i ==> (#[trigger] self.entries@[j].0) != key,
            decreases self.entries@.len() - i,
        {
            if self.entries[i].0 == key {
                proof {
                    assert(self@.dom().contains(key));
                }
                return ;
            }
            i = i + 1;
        }
        proof {
            assert(!self@.dom().contains(key));
        }
        let ghost before = self.entries@;
        self.entries.push((key, value));
        proof {
            assert forall|a: int, b: int|
                0 <= a < b < self.entries@.len() implies (#[trigger] self.entries@[a].0) != (
            #[trigger] self.entries@[b].0) by {
                if b < before.len() {
                } else {
                    assert(self.entries@[b] == (key, value));
                    assert(self.entries@[a] == before[a]);
                }
            }
            assert forall|k: u64| #![auto] final(self)@.dom().contains(k) == old(self)@.insert(
                key,
                value,
            ).dom().contains(k) by {
                if k == key {
                    assert(self.entries@[before.len() as int].0 == key);
                } else {
                    if old(self)@.dom().contains(k) {
                        let w = choose|w: int| 0 <= w < before.len() && before[w].0 == k;
                        assert(self.entries@[w].0 == k);
                    } else {
                        if exists|i: int|
                            0 <= i < self.entries@.len() && self.entries@[i].0 == k {
                            let w = choose|w: int|
                                0 <= w < self.entries@.len() && self.entries@[w].0 == k;
                            assert(w < before.len());
                            assert(before[w].0 == k);
                        }
                    }
                }
            }
            assert forall|k: u64| #![auto] final(self)@.dom().contains(k) implies final(self)@[k]
                == old(self)@.insert(key, value)[k] by {
                let w = choose|w: int|
                    0 <= w < self.entries@.len() && self.entries@[w].0 == k;
                if k == key {
                    assert(self.entries@[before.len() as int].0 == key);
                    assert(w == before.len());
                } else {
                    assert(w < before.len());
                    assert(before[w].0 == k);
                    let w2 = choose|w2: int| 0 <= w2 < before.len() && before[w2].0 == k;
                    assert(w2 == w);
                }
            }
            assert(final(self)@ =~= old(self)@.insert(key, value));
        }
    }
}

/// A handle on one scenario-scoped value, handed to a handler parameter of
/// shared-state kind.
#[derive(Debug, PartialEq, Eq, PartialOrd, Ord, Hash)]
pub struct State<'a, T>(pub &'a T);

impl<'a, T> State<'a, T> {
    /// Wraps a reference to a scenario-scoped value.
    pub fn new(inner: &'a T) -> (r: State<'a, T>)
        ensures
            r.0 == inner,
    {
        State(inner)
    }

    /// The scenario-scoped value itself.
    pub fn inner(&self) -> (r: &'a T)
        ensures
            r == self.0,
    {
        self.0
    }
}

} // verus!
