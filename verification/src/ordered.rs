//! The order-keyed variant: results are kept in a `BTreeMap`.
use crate::model::{Invocation, Memo};
use std::collections::BTreeMap;
use vstd::laws_cmp::obeys_cmp;
use vstd::laws_eq::obeys_concrete_eq;
use vstd::prelude::*;

verus! {

/// A function together with the results it has returned so far, kept in an
/// ordered map from argument to result.
pub struct CachedOrd<A, B, F> {
    inner: F,
    store: BTreeMap<A, B>,
    calls: Ghost<Seq<Invocation<A, B>>>,
}

impl<A: Clone + Ord, B: Clone, F: FnMut(A) -> B> View for CachedOrd<A, B, F> {
    type V = Memo<A, B>;

    closed spec fn view(&self) -> Memo<A, B> {
        Memo { store: self.store@, calls: self.calls@ }
    }
}

impl<A: Clone + Ord, B: Clone, F: FnMut(A) -> B> CachedOrd<A, B, F> {
    /// The wrapped function.
    pub closed spec fn inner(&self) -> F {
        self.inner
    }

    /// The wrapper's invariant: the key type is totally ordered in the way
    /// the map relies on, two keys that compare as equal are the same value,
    /// and the state is consistent with the inner function.
    pub open spec fn wf(&self) -> bool {
        &&& obeys_cmp::<A>()
        &&& obeys_concrete_eq::<A>()
        &&& self@.consistent(self.inner())
    }

    /// Returns the result for `x`: a clone of the stored one if there is one,
    /// else what the inner function returns for a clone of `x`, of which a
    /// clone is then stored under `x`.
    ///
    /// The inner function is invoked only where `x` is not resolved, so only
    /// there does it have to accept `x`. Nothing is stored before it has
    /// returned.
    ///
    /// The result is stated through `cloned` and `call_ensures`, since neither
    /// `Clone` nor the inner function need be deterministic. For types whose
    /// clones are exact, `lemma_step_with_exact_clones` turns it into plain
    /// equalities.
    pub fn call(&mut self, x: A) -> (out: B)
        requires
            old(self).wf(),
            !old(self)@.resolved(x) ==> forall|arg: A|
                cloned(x, arg) ==> call_requires(old(self).inner(), (arg,)),
        ensures
            final(self).wf(),
            final(self).inner() == old(self).inner(),
            old(self)@.step(old(self).inner(), x, out, final(self)@),
    {
        if let Some(val) = self.store.get(&x) {
            val.clone()
        } else {
            let arg = x.clone();
            let ghost key = x;
            let ghost handed = arg;
            assert(cloned(key, handed));
            let val = (self.inner)(arg);
            let kept = val.clone();
            proof {
                old(self)@.lemma_miss_consistent(old(self).inner(), key, handed, val, kept);
            }
            self.store.insert(x, kept);
            self.calls = Ghost(self.calls@.push(Invocation { key, arg: handed, output: val }));
            val
        }
    }
}

/// Wraps `f` so that it is invoked at most once for each argument; the
/// results are kept in an ordered map.
///
/// Two arguments are one key when they compare as `Equal`. The contracts
/// cover the key types for which that is the case exactly when the two are
/// the same value: those with a lawful total order (`obeys_cmp`) whose `==`
/// tells apart any two different values (`obeys_concrete_eq`). `vstd` proves
/// both of the primitive integers and of tuples of them. A key type whose
/// order ignores a part of the value is not covered: `vstd` models the map
/// by the keys' values, and says nothing true of such a type.
pub fn cached_ord<A: Clone + Ord, B: Clone, F: FnMut(A) -> B>(f: F) -> (wrapped: CachedOrd<A, B, F>)
    requires
        obeys_cmp::<A>(),
        obeys_concrete_eq::<A>(),
    ensures
        wrapped@ == Memo::<A, B>::empty(),
        wrapped.inner() == f,
        wrapped.wf(),
{
    proof {
        Memo::<A, B>::lemma_empty_consistent(f);
    }
    CachedOrd { inner: f, store: BTreeMap::default(), calls: Ghost(Seq::empty()) }
}

} // verus!
