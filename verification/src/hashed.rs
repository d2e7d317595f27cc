//! The hash-keyed variant: results are kept in an `FxHashMap`.
use crate::fx::{fx_get, fx_insert};
use crate::model::{Invocation, Memo};
use rustc_hash::FxHashMap;
use std::hash::Hash;
use vstd::prelude::*;
use vstd::std_specs::hash::obeys_key_model;

verus! {

/// A function together with the results it has returned so far, kept in a
/// hash map from argument to result.
pub struct Cached<A, B, F> {
    inner: F,
    store: FxHashMap<A, B>,
    calls: Ghost<Seq<Invocation<A, B>>>,
}

impl<A: Clone + Hash + Eq, B: Clone, F: FnMut(A) -> B> View for Cached<A, B, F> {
    type V = Memo<A, B>;

    closed spec fn view(&self) -> Memo<A, B> {
        Memo { store: self.store@, calls: self.calls@ }
    }
}

impl<A: Clone + Hash + Eq, B: Clone, F: FnMut(A) -> B> Cached<A, B, F> {
    /// The wrapped function.
    pub closed spec fn inner(&self) -> F {
        self.inner
    }

    /// The wrapper's invariant: the key type hashes and compares in the way
    /// the map relies on, and the state is consistent with the inner function.
    pub open spec fn wf(&self) -> bool {
        &&& obeys_key_model::<A>()
        &&& self@.consistent(self.inner())
    }

    /// Returns the result for `x`: a clone of the stored one if there is one,
    /// else what the inner function returns for a clone of `x`, of which a
    /// clone is then stored under `x`.
    ///
    /// The inner function is invoked only where `x` is not resolved, so only
    /// there does it have to accept `x`. Nothing is stored before it has
    /// returned.
    ///
    /// The result is stated through `cloned` and `call_ensures`, since neither
    /// `Clone` nor the inner function need be deterministic. For types whose
    /// clones are exact, `lemma_step_with_exact_clones` turns it into plain
    /// equalities.
    pub fn call(&mut self, x: A) -> (out: B)
        requires
            old(self).wf(),
            !old(self)@.resolved(x) ==> forall|arg: A|
                cloned(x, arg) ==> call_requires(old(self).inner(), (arg,)),
        ensures
            final(self).wf(),
            final(self).inner() == old(self).inner(),
            old(self)@.step(old(self).inner(), x, out, final(self)@),
    {
        if let Some(val) = fx_get(&self.store, &x) {
            val.clone()
        } else {
            let arg = x.clone();
            let ghost key = x;
            let ghost handed = arg;
            assert(cloned(key, handed));
            let val = (self.inner)(arg);
            let kept = val.clone();
            proof {
                old(self)@.lemma_miss_consistent(old(self).inner(), key, handed, val, kept);
            }
            fx_insert(&mut self.store, x, kept);
            self.calls = Ghost(self.calls@.push(Invocation { key, arg: handed, output: val }));
            val
        }
    }
}

/// Wraps `f` so that it is invoked at most once for each argument; the
/// results are kept in a hash map.
///
/// Two arguments are one key when they are equal under `==`. The contracts
/// cover the key types that meet `obeys_key_model`, the key model of `vstd`
/// for hash maps: hashing a key always gives the same value, `==` holds of
/// two keys exactly when they are the same value, and a clone of a key is
/// that key. `vstd` states this of the primitive integers, of `bool` and of
/// boxes of them; of another key type the caller has to know it. A key type
/// whose `==` ignores a part of the value is not covered.
pub fn cached<A: Clone + Hash + Eq, B: Clone, F: FnMut(A) -> B>(f: F) -> (wrapped: Cached<A, B, F>)
    requires
        obeys_key_model::<A>(),
    ensures
        wrapped@ == Memo::<A, B>::empty(),
        wrapped.inner() == f,
        wrapped.wf(),
{
    proof {
        Memo::<A, B>::lemma_empty_consistent(f);
    }
    Cached { inner: f, store: FxHashMap::default(), calls: Ghost(Seq::empty()) }
}

} // verus!
