//! What holds of every wrapper, whichever variant it is: both variants
//! specify a call by [`Memo::step`], so what is proved here of that relation
//! is proved of both.
use crate::hashed::Cached;
use crate::model::{clones_exactly, deterministic, is_run, Memo};
use crate::ordered::CachedOrd;
use std::hash::Hash;
use vstd::laws_cmp::{obeys_cmp, obeys_cmp_ord, obeys_cmp_partial_ord};
use vstd::laws_eq::obeys_concrete_eq;
use vstd::prelude::*;
use vstd::std_specs::cmp::{OrdSpec, PartialEqSpec, PartialOrdSpec};

verus! {

/// A call keeps the invariant.
pub proof fn lemma_step_keeps_consistent<A: Clone, B: Clone, F: FnMut(A) -> B>(
    f: F,
    pre: Memo<A, B>,
    x: A,
    out: B,
    post: Memo<A, B>,
)
    requires
        pre.consistent(f),
        pre.step(f, x, out, post),
    ensures
        post.consistent(f),
{
    if !pre.resolved(x) {
        pre.lemma_miss_consistent(f, x, post.calls.last().arg, out, post.store[x]);
    }
}

/// The invariant holds in every state of a run that starts in a state where
/// it holds.
pub proof fn lemma_run_keeps_consistent<A: Clone, B: Clone, F: FnMut(A) -> B>(
    f: F,
    states: Seq<Memo<A, B>>,
    keys: Seq<A>,
    outs: Seq<B>,
    n: int,
)
    requires
        is_run(f, states, keys, outs),
        states[0].consistent(f),
        0 <= n <= keys.len(),
    ensures
        states[n].consistent(f),
    decreases n,
{
    if n > 0 {
        lemma_run_keeps_consistent(f, states, keys, outs, n - 1);
        let x = keys[n - 1];
        lemma_step_keeps_consistent(f, states[n - 1], x, outs[n - 1], states[n]);
    }
}

/// In a consistent state the inner function has been invoked as many times
/// as there are resolved keys, and these are finitely many.
pub proof fn lemma_one_invocation_per_resolved_key<A: Clone, B: Clone, F: FnMut(A) -> B>(
    f: F,
    state: Memo<A, B>,
)
    requires
        state.consistent(f),
    ensures
        state.store.dom().finite(),
        state.calls.len() == state.store.dom().len(),
{
    state.invoked_keys().unique_seq_to_set();
}

/// After the first `n` calls of a run, the resolved keys are those that were
/// resolved at its start and the keys of these calls.
pub proof fn lemma_run_resolves_its_keys<A: Clone, B: Clone, F: FnMut(A) -> B>(
    f: F,
    states: Seq<Memo<A, B>>,
    keys: Seq<A>,
    outs: Seq<B>,
    n: int,
)
    requires
        is_run(f, states, keys, outs),
        0 <= n <= keys.len(),
    ensures
        states[n].store.dom() == states[0].store.dom().union(keys.take(n).to_set()),
    decreases n,
{
    if n == 0 {
        assert(keys.take(0).to_set() =~= Set::<A>::empty());
        assert(states[0].store.dom() =~= states[0].store.dom().union(Set::<A>::empty()));
    } else {
        lemma_run_resolves_its_keys(f, states, keys, outs, n - 1);
        let x = keys[n - 1];
        assert(states[n - 1].step(f, x, outs[n - 1], states[n]));
        keys.lemma_take_succ_push(n - 1);
        keys.take(n - 1).lemma_push_to_set_commute(x);
        assert(states[n].store.dom() =~= states[0].store.dom().union(keys.take(n).to_set()));
    }
}

/// The number of invocations of the inner function after a run of a fresh
/// wrapper is the number of distinct keys among the calls of the run.
pub proof fn lemma_invocations_count_distinct_keys<A: Clone, B: Clone, F: FnMut(A) -> B>(
    f: F,
    states: Seq<Memo<A, B>>,
    keys: Seq<A>,
    outs: Seq<B>,
)
    requires
        is_run(f, states, keys, outs),
        states[0] == Memo::<A, B>::empty(),
    ensures
        states.last().calls.len() == keys.to_set().len(),
{
    let n = keys.len() as int;
    Memo::<A, B>::lemma_empty_consistent(f);
    lemma_run_keeps_consistent(f, states, keys, outs, n);
    lemma_one_invocation_per_resolved_key(f, states[n]);
    lemma_run_resolves_its_keys(f, states, keys, outs, n);
    assert(keys.take(n) =~= keys);
    assert(states[n].store.dom() =~= keys.to_set());
}

/// A call of a run invokes the inner function exactly when its key was
/// neither resolved at the start of the run nor the key of an earlier call
/// of the run; the invocation is then for that key.
pub proof fn lemma_invoked_on_first_call_only<A: Clone, B: Clone, F: FnMut(A) -> B>(
    f: F,
    states: Seq<Memo<A, B>>,
    keys: Seq<A>,
    outs: Seq<B>,
    i: int,
)
    requires
        is_run(f, states, keys, outs),
        0 <= i < keys.len(),
    ensures
        states[0].resolved(keys[i]) || keys.take(i).contains(keys[i]) ==> states[i + 1].calls
            == states[i].calls,
        !states[0].resolved(keys[i]) && !keys.take(i).contains(keys[i]) ==> {
            &&& states[i + 1].calls == states[i].calls.push(states[i + 1].calls.last())
            &&& states[i + 1].calls.last().key == keys[i]
        },
{
    let x = keys[i];
    lemma_run_resolves_its_keys(f, states, keys, outs, i);
    assert(states[i].resolved(x) <==> states[0].resolved(x) || keys.take(i).to_set().contains(x));
    assert(states[i].step(f, x, outs[i], states[i + 1]));
}

/// In a run of calls that all have the same key, unresolved at the start, the
/// inner function is invoked once, by the first call, and by no later one.
pub proof fn lemma_same_key_invokes_once<A: Clone, B: Clone, F: FnMut(A) -> B>(
    f: F,
    states: Seq<Memo<A, B>>,
    keys: Seq<A>,
    outs: Seq<B>,
    k: A,
    n: int,
)
    requires
        is_run(f, states, keys, outs),
        !states[0].resolved(k),
        forall|i: int| 0 <= i < keys.len() ==> keys[i] == k,
        1 <= n <= keys.len(),
    ensures
        states[1].calls == states[0].calls.push(states[1].calls.last()),
        states[1].calls.last().key == k,
        states[n] == states[1],
    decreases n,
{
    assert(states[0].step(f, keys[0], outs[0], states[1]));
    if n > 1 {
        lemma_same_key_invokes_once(f, states, keys, outs, k, n - 1);
        assert(states[n - 1].step(f, keys[n - 1], outs[n - 1], states[n]));
    }
}

/// Nothing that a wrapper has stored or recorded is changed or removed by a
/// later call.
pub proof fn lemma_stored_results_stay<A: Clone, B: Clone, F: FnMut(A) -> B>(
    f: F,
    states: Seq<Memo<A, B>>,
    keys: Seq<A>,
    outs: Seq<B>,
    i: int,
    j: int,
)
    requires
        is_run(f, states, keys, outs),
        0 <= i <= j <= keys.len(),
    ensures
        states[i].store.submap_of(states[j].store),
        states[i].calls.is_prefix_of(states[j].calls),
    decreases j - i,
{
    if i < j {
        lemma_stored_results_stay(f, states, keys, outs, i, j - 1);
        assert(states[j - 1].step(f, keys[j - 1], outs[j - 1], states[j]));
    }
}

/// Once a call of a run was made with a key, every later call with that key
/// returns a clone of the result that was stored when the first of them
/// returned; and where that call invoked the inner function, the stored
/// result is a clone of what it returned.
pub proof fn lemma_repeat_returns_stored_result<A: Clone, B: Clone, F: FnMut(A) -> B>(
    f: F,
    states: Seq<Memo<A, B>>,
    keys: Seq<A>,
    outs: Seq<B>,
    i: int,
    j: int,
)
    requires
        is_run(f, states, keys, outs),
        0 <= i < j < keys.len(),
        keys[i] == keys[j],
    ensures
        states[i + 1].resolved(keys[i]),
        cloned(states[i + 1].store[keys[i]], outs[j]),
        !states[i].resolved(keys[i]) ==> cloned(outs[i], states[i + 1].store[keys[i]]),
{
    let x = keys[i];
    assert(states[i].step(f, x, outs[i], states[i + 1]));
    assert(states[j].step(f, keys[j], outs[j], states[j + 1]));
    lemma_stored_results_stay(f, states, keys, outs, i + 1, j);
    assert(states[i + 1].store.dom().contains(x));
}

/// Where cloning a result gives back the same result, two calls of a run
/// with the same key return the same value.
pub proof fn lemma_equal_keys_equal_results<A: Clone, B: Clone, F: FnMut(A) -> B>(
    f: F,
    states: Seq<Memo<A, B>>,
    keys: Seq<A>,
    outs: Seq<B>,
    i: int,
    j: int,
)
    requires
        is_run(f, states, keys, outs),
        clones_exactly::<B>(),
        0 <= i < j < keys.len(),
        keys[i] == keys[j],
    ensures
        outs[i] == outs[j],
{
    let x = keys[i];
    lemma_repeat_returns_stored_result(f, states, keys, outs, i, j);
    assert(states[i].step(f, x, outs[i], states[i + 1]));
}

/// A call in its plain form, for types whose clones are exact: a resolved key
/// gets the stored result and nothing changes; an unresolved key gets what
/// the inner function returns for it, which is stored under it.
pub proof fn lemma_step_with_exact_clones<A: Clone, B: Clone, F: FnMut(A) -> B>(
    f: F,
    pre: Memo<A, B>,
    x: A,
    out: B,
    post: Memo<A, B>,
)
    requires
        pre.step(f, x, out, post),
        clones_exactly::<A>(),
        clones_exactly::<B>(),
    ensures
        pre.resolved(x) ==> out == pre.store[x] && post == pre,
        !pre.resolved(x) ==> call_ensures(f, (x,), out) && post == pre.miss(x, x, out, out),
{
}

/// Two runs from the same state with the same keys invoke the inner function
/// for the same keys in the same order, and so the same number of times,
/// whatever the inner function returns.
pub proof fn lemma_runs_invoke_alike<A: Clone, B: Clone, F: FnMut(A) -> B>(
    f: F,
    keys: Seq<A>,
    states1: Seq<Memo<A, B>>,
    outs1: Seq<B>,
    states2: Seq<Memo<A, B>>,
    outs2: Seq<B>,
    n: int,
)
    requires
        is_run(f, states1, keys, outs1),
        is_run(f, states2, keys, outs2),
        states1[0] == states2[0],
        0 <= n <= keys.len(),
    ensures
        states1[n].store.dom() == states2[n].store.dom(),
        states1[n].invoked_keys() == states2[n].invoked_keys(),
        states1[n].calls.len() == states2[n].calls.len(),
    decreases n,
{
    if n > 0 {
        lemma_runs_invoke_alike(f, keys, states1, outs1, states2, outs2, n - 1);
        let x = keys[n - 1];
        assert(states1[n - 1].step(f, x, outs1[n - 1], states1[n]));
        assert(states2[n - 1].step(f, x, outs2[n - 1], states2[n]));
        assert(states1[n].store.dom() =~= states2[n].store.dom());
        if !states1[n - 1].resolved(x) {
            assert(states1[n].invoked_keys() =~= states1[n - 1].invoked_keys().push(x));
            assert(states2[n].invoked_keys() =~= states2[n - 1].invoked_keys().push(x));
        }
    }
}

/// Around a deterministic inner function, and with exact clones, two runs
/// from the same state with the same keys return the same values and pass
/// through the same states.
pub proof fn lemma_runs_agree<A: Clone, B: Clone, F: FnMut(A) -> B>(
    f: F,
    keys: Seq<A>,
    states1: Seq<Memo<A, B>>,
    outs1: Seq<B>,
    states2: Seq<Memo<A, B>>,
    outs2: Seq<B>,
)
    requires
        is_run(f, states1, keys, outs1),
        is_run(f, states2, keys, outs2),
        states1[0] == states2[0],
        deterministic(f),
        clones_exactly::<A>(),
        clones_exactly::<B>(),
    ensures
        outs1 == outs2,
        states1 == states2,
{
    assert forall|n: int| 0 <= n <= keys.len() implies states1[n] == states2[n] by {
        lemma_runs_agree_up_to(f, keys, states1, outs1, states2, outs2, n);
    }
    assert forall|n: int| 0 <= n < keys.len() implies outs1[n] == outs2[n] by {
        lemma_runs_agree_up_to(f, keys, states1, outs1, states2, outs2, n + 1);
    }
    assert(outs1 =~= outs2);
    assert(states1 =~= states2);
}

proof fn lemma_runs_agree_up_to<A: Clone, B: Clone, F: FnMut(A) -> B>(
    f: F,
    keys: Seq<A>,
    states1: Seq<Memo<A, B>>,
    outs1: Seq<B>,
    states2: Seq<Memo<A, B>>,
    outs2: Seq<B>,
    n: int,
)
    requires
        is_run(f, states1, keys, outs1),
        is_run(f, states2, keys, outs2),
        states1[0] == states2[0],
        deterministic(f),
        clones_exactly::<A>(),
        clones_exactly::<B>(),
        0 <= n <= keys.len(),
    ensures
        states1[n] == states2[n],
        n > 0 ==> outs1[n - 1] == outs2[n - 1],
    decreases n,
{
    if n > 0 {
        lemma_runs_agree_up_to(f, keys, states1, outs1, states2, outs2, n - 1);
        let x = keys[n - 1];
        lemma_step_with_exact_clones(f, states1[n - 1], x, outs1[n - 1], states1[n]);
        lemma_step_with_exact_clones(f, states2[n - 1], x, outs2[n - 1], states2[n]);
    }
}

/// The two variants agree on a call. For a key type that both can take,
/// around the same deterministic inner function and with exact clones, a
/// hash-keyed and an order-keyed wrapper in the same state return the same
/// value for the same key and are in the same state afterwards, so that they
/// have invoked the inner function equally often.
pub proof fn lemma_variants_agree<A: Clone + Hash + Ord, B: Clone, F: FnMut(A) -> B>(
    hashed: Cached<A, B, F>,
    ordered: CachedOrd<A, B, F>,
    x: A,
    hashed_out: B,
    hashed_after: Cached<A, B, F>,
    ordered_out: B,
    ordered_after: CachedOrd<A, B, F>,
)
    requires
        hashed.inner() == ordered.inner(),
        hashed@ == ordered@,
        deterministic(hashed.inner()),
        clones_exactly::<A>(),
        clones_exactly::<B>(),
        hashed@.step(hashed.inner(), x, hashed_out, hashed_after@),
        ordered@.step(ordered.inner(), x, ordered_out, ordered_after@),
    ensures
        hashed_out == ordered_out,
        hashed_after@ == ordered_after@,
        hashed_after@.calls.len() == ordered_after@.calls.len(),
{
    lemma_step_with_exact_clones(hashed.inner(), hashed@, x, hashed_out, hashed_after@);
    lemma_step_with_exact_clones(ordered.inner(), ordered@, x, ordered_out, ordered_after@);
}

/// Two wrappers share nothing, even around the same inner function: after a
/// run of each from its fresh state, a key is resolved in a wrapper exactly
/// if that wrapper itself was called with it.
pub proof fn lemma_wrappers_do_not_share<A: Clone, B: Clone, F: FnMut(A) -> B>(
    f: F,
    states1: Seq<Memo<A, B>>,
    keys1: Seq<A>,
    outs1: Seq<B>,
    states2: Seq<Memo<A, B>>,
    keys2: Seq<A>,
    outs2: Seq<B>,
    k: A,
)
    requires
        is_run(f, states1, keys1, outs1),
        is_run(f, states2, keys2, outs2),
        states1[0] == Memo::<A, B>::empty(),
        states2[0] == Memo::<A, B>::empty(),
        keys1.contains(k),
        !keys2.contains(k),
    ensures
        states1.last().resolved(k),
        !states2.last().resolved(k),
{
    lemma_run_resolves_its_keys(f, states1, keys1, outs1, keys1.len() as int);
    lemma_run_resolves_its_keys(f, states2, keys2, outs2, keys2.len() as int);
    assert(keys1.take(keys1.len() as int) =~= keys1);
    assert(keys2.take(keys2.len() as int) =~= keys2);
    assert(keys1.to_set().contains(k));
    assert(!keys2.to_set().contains(k));
}

/// For a key type that the order-keyed variant covers, two keys that compare
/// as `Equal` are the same value: to be one key under the order and to be one
/// key of the model is the same.
pub proof fn lemma_order_equal_keys_are_one_key<A: Ord>(k1: A, k2: A)
    requires
        obeys_cmp::<A>(),
        obeys_concrete_eq::<A>(),
        k1.cmp_spec(&k2) is Equal,
    ensures
        k1 == k2,
{
    reveal(obeys_cmp_partial_ord);
    reveal(obeys_cmp_ord);
    reveal(obeys_concrete_eq);
    assert(k1.partial_cmp_spec(&k2) == Some(k1.cmp_spec(&k2)));
    assert(k1.eq_spec(&k2));
}

/// A call of an order-keyed wrapper with a key that compares as `Equal` to a
/// resolved key does not invoke the inner function and changes nothing: it
/// returns a clone of what is stored for the resolved key.
pub proof fn lemma_order_equal_key_hits<A: Clone + Ord, B: Clone, F: FnMut(A) -> B>(
    before: CachedOrd<A, B, F>,
    resolved: A,
    x: A,
    out: B,
    after: CachedOrd<A, B, F>,
)
    requires
        before.wf(),
        before@.resolved(resolved),
        x.cmp_spec(&resolved) is Equal,
        before@.step(before.inner(), x, out, after@),
    ensures
        after@ == before@,
        cloned(before@.store[resolved], out),
{
    lemma_order_equal_keys_are_one_key(x, resolved);
}

/// A call of a hash-keyed wrapper with a key that is equal under `==` to a
/// resolved key does not invoke the inner function and changes nothing: it
/// returns a clone of what is stored for the resolved key. The key model
/// that the wrapper relies on makes `==` tell apart any two different
/// values, which is what `obeys_concrete_eq` says of `eq_spec`.
pub proof fn lemma_equal_key_hits<A: Clone + Hash + Eq, B: Clone, F: FnMut(A) -> B>(
    before: Cached<A, B, F>,
    resolved: A,
    x: A,
    out: B,
    after: Cached<A, B, F>,
)
    requires
        before.wf(),
        obeys_concrete_eq::<A>(),
        before@.resolved(resolved),
        x.eq_spec(&resolved),
        before@.step(before.inner(), x, out, after@),
    ensures
        after@ == before@,
        cloned(before@.store[resolved], out),
{
    reveal(obeys_concrete_eq);
}

} // verus!
