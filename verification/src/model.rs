//! The mathematical model of a memoizing wrapper, shared by both of its
//! variants.
//!
//! A wrapper is modelled by what it has stored and by the invocations of its
//! inner function that it has made. One call of the wrapper is a relation
//! between the state before, the key, the value returned and the state after:
//! a relation and not a function, because neither the inner function nor
//! `Clone` is assumed to be deterministic.
use vstd::prelude::*;

verus! {

/// One invocation of the inner function, as the wrapper that made it records it.
pub struct Invocation<A, B> {
    /// The key that the wrapper was called with.
    pub key: A,
    /// The clone of `key` that was handed to the inner function.
    pub arg: A,
    /// What the inner function returned for `arg`.
    pub output: B,
}

/// The abstract state of a memoizing wrapper.
#[verifier::ext_equal]
#[verifier::reject_recursive_types(A)]
pub struct Memo<A, B> {
    /// The stored results, by key.
    pub store: Map<A, B>,
    /// The invocations of the inner function so far, oldest first.
    pub calls: Seq<Invocation<A, B>>,
}

impl<A: Clone, B: Clone> Memo<A, B> {
    /// The state of a wrapper that has not been called yet.
    pub open spec fn empty() -> Self {
        Memo { store: Map::empty(), calls: Seq::empty() }
    }

    /// Whether `k` is resolved: a result is stored for it.
    pub open spec fn resolved(self, k: A) -> bool {
        self.store.contains_key(k)
    }

    /// The keys for which the inner function was invoked, in the order of
    /// the invocations.
    pub open spec fn invoked_keys(self) -> Seq<A> {
        self.calls.map_values(|c: Invocation<A, B>| c.key)
    }

    /// Whether `c` is an invocation that `f` can have made for a key of this
    /// state: the argument is a clone of the key, the output is one that `f`
    /// can return for the argument, and the stored result is a clone of the
    /// output.
    pub open spec fn holds<F: FnMut(A) -> B>(self, f: F, c: Invocation<A, B>) -> bool {
        &&& cloned(c.key, c.arg)
        &&& call_ensures(f, (c.arg,), c.output)
        &&& self.store.contains_key(c.key)
        &&& cloned(c.output, self.store[c.key])
    }

    /// The invariant of a wrapper around `f`: the inner function was invoked
    /// exactly once for each resolved key and for no other key, and each
    /// stored result is a clone of what that one invocation returned.
    pub open spec fn consistent<F: FnMut(A) -> B>(self, f: F) -> bool {
        &&& self.invoked_keys().no_duplicates()
        &&& self.invoked_keys().to_set() == self.store.dom()
        &&& forall|i: int| 0 <= i < self.calls.len() ==> self.holds(f, #[trigger] self.calls[i])
    }

    /// The state after a call with the unresolved key `x`, in which the inner
    /// function was handed `arg` and returned `output`, and `kept` was stored.
    pub open spec fn miss(self, x: A, arg: A, output: B, kept: B) -> Self {
        Memo {
            store: self.store.insert(x, kept),
            calls: self.calls.push(Invocation { key: x, arg, output }),
        }
    }

    /// One call of a wrapper around `f` with key `x`, which returns `out` and
    /// leaves the state `post`.
    ///
    /// Where `x` is resolved, `out` is a clone of the stored result, `f` is
    /// not invoked and nothing changes. Where it is not, `f` is invoked once,
    /// on a clone of `x`; `out` is what it returned, and a clone of `out` is
    /// stored under `x`.
    pub open spec fn step<F: FnMut(A) -> B>(self, f: F, x: A, out: B, post: Self) -> bool {
        if self.resolved(x) {
            &&& cloned(self.store[x], out)
            &&& post == self
        } else {
            &&& post.calls.len() == self.calls.len() + 1
            &&& post.resolved(x)
            &&& post == self.miss(x, post.calls.last().arg, out, post.store[x])
            &&& cloned(x, post.calls.last().arg)
            &&& call_ensures(f, (post.calls.last().arg,), out)
            &&& cloned(out, post.store[x])
        }
    }

    /// A wrapper that has not been called yet satisfies the invariant,
    /// whatever its inner function is.
    pub proof fn lemma_empty_consistent<F: FnMut(A) -> B>(f: F)
        ensures
            Self::empty().consistent(f),
    {
        let e = Self::empty();
        assert(e.invoked_keys() =~= Seq::<A>::empty());
        assert(e.invoked_keys().to_set() =~= e.store.dom());
    }

    /// A call with an unresolved key preserves the invariant.
    pub proof fn lemma_miss_consistent<F: FnMut(A) -> B>(
        self,
        f: F,
        x: A,
        arg: A,
        output: B,
        kept: B,
    )
        requires
            self.consistent(f),
            !self.resolved(x),
            cloned(x, arg),
            call_ensures(f, (arg,), output),
            cloned(output, kept),
        ensures
            self.miss(x, arg, output, kept).consistent(f),
    {
        let post = self.miss(x, arg, output, kept);
        let keys = self.invoked_keys();
        assert(post.invoked_keys() =~= keys.push(x));
        assert(!keys.contains(x)) by {
            if keys.contains(x) {
                assert(keys.to_set().contains(x));
            }
        }
        keys.lemma_push_to_set_commute(x);
        assert(post.invoked_keys().to_set() =~= post.store.dom());
        assert forall|i: int| 0 <= i < post.calls.len() implies post.holds(
            f,
            #[trigger] post.calls[i],
        ) by {
            if i < self.calls.len() {
                let c = self.calls[i];
                assert(self.holds(f, c));
                assert(keys[i] == c.key);
                assert(c.key != x);
            }
        }
    }
}

/// Whether cloning a `T` always gives back the value that was cloned.
pub open spec fn clones_exactly<T: Clone>() -> bool {
    forall|a: T, b: T| cloned(a, b) ==> a == b
}

/// Whether `f` can return only one value for each argument.
pub open spec fn deterministic<A, B, F: FnMut(A) -> B>(f: F) -> bool {
    forall|a: A, r1: B, r2: B|
        #![trigger call_ensures(f, (a,), r1), call_ensures(f, (a,), r2)]
        call_ensures(f, (a,), r1) && call_ensures(f, (a,), r2) ==> r1 == r2
}

/// Whether `states`, `keys` and `outs` are the course of consecutive calls of
/// one wrapper around `f`: the call number `i` finds the state `states[i]`,
/// is made with `keys[i]`, returns `outs[i]` and leaves `states[i + 1]`.
pub open spec fn is_run<A: Clone, B: Clone, F: FnMut(A) -> B>(
    f: F,
    states: Seq<Memo<A, B>>,
    keys: Seq<A>,
    outs: Seq<B>,
) -> bool {
    &&& states.len() == keys.len() + 1
    &&& outs.len() == keys.len()
    &&& forall|i: int|
        0 <= i < keys.len() ==> states[i].step(f, #[trigger] keys[i], outs[i], states[i + 1])
}

} // verus!
