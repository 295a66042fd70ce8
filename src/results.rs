//! Folds over sequences that stop at the first failure, with their lemmas.

use vstd::prelude::*;

verus! {

/// Apply `g` to each item of `s` in order and concatenate the outputs; the first failure is the
/// result.
pub open spec fn fold_results<A, B, E>(s: Seq<A>, g: spec_fn(A) -> Result<Seq<B>, E>) -> Result<
    Seq<B>,
    E,
>
    decreases s.len(),
{
    if s.len() == 0 {
        Ok(Seq::empty())
    } else {
        match fold_results(s.drop_last(), g) {
            Ok(acc) => match g(s.last()) {
                Ok(x) => Ok(acc + x),
                Err(e) => Err(e),
            },
            Err(e) => Err(e),
        }
    }
}

/// One more item: the fold of a prefix extended by one item.
pub proof fn lemma_fold_step<A, B, E>(s: Seq<A>, i: int, g: spec_fn(A) -> Result<Seq<B>, E>)
    requires
        0 <= i < s.len(),
    ensures
        fold_results(s.subrange(0, i + 1), g) == match fold_results(s.subrange(0, i), g) {
            Ok(acc) => match g(s[i]) {
                Ok(x) => Ok(acc + x),
                Err(e) => Err(e),
            },
            Err(e) => Err(e),
        },
{
    assert(s.subrange(0, i + 1).drop_last() =~= s.subrange(0, i));
}

/// Once a prefix fails, every longer prefix fails with the same error.
pub proof fn lemma_fold_error_stays<A, B, E>(
    s: Seq<A>,
    k: int,
    m: int,
    g: spec_fn(A) -> Result<Seq<B>, E>,
)
    requires
        0 <= k <= m <= s.len(),
        fold_results(s.subrange(0, k), g) is Err,
    ensures
        fold_results(s.subrange(0, m), g) == fold_results(s.subrange(0, k), g),
    decreases m - k,
{
    if k < m {
        lemma_fold_error_stays(s, k, m - 1, g);
        lemma_fold_step(s, m - 1, g);
    }
}

/// The whole sequence is its own longest prefix.
pub proof fn lemma_fold_full<A, B, E>(s: Seq<A>, g: spec_fn(A) -> Result<Seq<B>, E>)
    ensures
        fold_results(s.subrange(0, s.len() as int), g) == fold_results(s, g),
{
    assert(s.subrange(0, s.len() as int) =~= s);
}

/// The fold of no items succeeds with nothing.
pub proof fn lemma_fold_empty<A, B, E>(s: Seq<A>, g: spec_fn(A) -> Result<Seq<B>, E>)
    ensures
        fold_results(s.subrange(0, 0), g) == Ok::<Seq<B>, E>(Seq::empty()),
{
    assert(s.subrange(0, 0).len() == 0);
}

/// The fold of one item is that item's result.
pub proof fn lemma_fold_single<A, B, E>(s: Seq<A>, g: spec_fn(A) -> Result<Seq<B>, E>)
    requires
        s.len() == 1,
    ensures
        fold_results(s, g) == match g(s[0]) {
            Ok(x) => Ok(Seq::<B>::empty() + x),
            Err(e) => Err(e),
        },
{
    assert(s.drop_last().len() == 0);
    assert(fold_results(s.drop_last(), g) == Ok::<Seq<B>, E>(Seq::empty()));
}

/// The fold fails where some item fails.
pub proof fn lemma_fold_fails_if_some<A, B, E>(s: Seq<A>, i: int, g: spec_fn(A) -> Result<Seq<B>, E>)
    requires
        0 <= i < s.len(),
        g(s[i]) is Err,
    ensures
        fold_results(s, g) is Err,
    decreases s.len(),
{
    if i < s.len() - 1 {
        lemma_fold_fails_if_some(s.drop_last(), i, g);
    }
}

/// Where every item gives exactly one output, a successful fold gives one output per item, and
/// the output at position `i` is item `i`'s own.
pub proof fn lemma_fold_one_each<A, B, E>(s: Seq<A>, g: spec_fn(A) -> Result<Seq<B>, E>, i: int)
    requires
        forall|j: int| 0 <= j < s.len() ==> (#[trigger] g(s[j]) is Ok ==> g(s[j])->Ok_0.len() == 1),
        fold_results(s, g) is Ok,
        0 <= i < s.len(),
    ensures
        fold_results(s, g)->Ok_0.len() == s.len(),
        g(s[i]) is Ok,
        fold_results(s, g)->Ok_0[i] == g(s[i])->Ok_0[0],
    decreases s.len(),
{
    let t = s.drop_last();
    assert forall|j: int| 0 <= j < t.len() implies (#[trigger] g(t[j]) is Ok ==> g(t[j])->Ok_0.len() == 1) by {
        assert(t[j] == s[j]);
    }
    assert(fold_results(t, g) is Ok);
    assert(g(s.last()) is Ok);
    let acc = fold_results(t, g)->Ok_0;
    let x = g(s.last())->Ok_0;
    assert(g(s[s.len() - 1]) is Ok);
    assert(fold_results(s, g)->Ok_0 == acc + x);
    if t.len() > 0 {
        lemma_fold_one_each(t, g, 0);
    } else {
        assert(acc.len() == 0);
    }
    if i < s.len() - 1 {
        lemma_fold_one_each(t, g, i);
        assert(t[i] == s[i]);
    }
}

/// Run the step `f` over the items of `s` in order from the state `init`; the first failure is
/// the result.
pub open spec fn fold_state<A, S, E>(s: Seq<A>, init: S, f: spec_fn(S, A) -> Result<S, E>) -> Result<S, E>
    decreases s.len(),
{
    if s.len() == 0 {
        Ok(init)
    } else {
        match fold_state(s.drop_last(), init, f) {
            Ok(st) => f(st, s.last()),
            Err(e) => Err(e),
        }
    }
}

/// One more item: the run over a prefix extended by one item.
pub proof fn lemma_state_step<A, S, E>(s: Seq<A>, i: int, init: S, f: spec_fn(S, A) -> Result<S, E>)
    requires
        0 <= i < s.len(),
    ensures
        fold_state(s.subrange(0, i + 1), init, f) == match fold_state(s.subrange(0, i), init, f) {
            Ok(st) => f(st, s[i]),
            Err(e) => Err(e),
        },
{
    assert(s.subrange(0, i + 1).drop_last() =~= s.subrange(0, i));
}

/// Once a prefix fails, every longer prefix fails with the same error.
pub proof fn lemma_state_error_stays<A, S, E>(
    s: Seq<A>,
    k: int,
    m: int,
    init: S,
    f: spec_fn(S, A) -> Result<S, E>,
)
    requires
        0 <= k <= m <= s.len(),
        fold_state(s.subrange(0, k), init, f) is Err,
    ensures
        fold_state(s.subrange(0, m), init, f) == fold_state(s.subrange(0, k), init, f),
    decreases m - k,
{
    if k < m {
        lemma_state_error_stays(s, k, m - 1, init, f);
        lemma_state_step(s, m - 1, init, f);
    }
}

/// The run over the whole sequence, and over none of it.
pub proof fn lemma_state_ends<A, S, E>(s: Seq<A>, init: S, f: spec_fn(S, A) -> Result<S, E>)
    ensures
        fold_state(s.subrange(0, s.len() as int), init, f) == fold_state(s, init, f),
        fold_state(s.subrange(0, 0), init, f) == Ok::<S, E>(init),
{
    assert(s.subrange(0, s.len() as int) =~= s);
    assert(s.subrange(0, 0).len() == 0);
}

/// Folds of two sequences of the same length agree where the steps agree item by item.
pub proof fn lemma_fold_congruent<A1, A2, B, E>(
    s1: Seq<A1>,
    s2: Seq<A2>,
    g1: spec_fn(A1) -> Result<Seq<B>, E>,
    g2: spec_fn(A2) -> Result<Seq<B>, E>,
)
    requires
        s1.len() == s2.len(),
        forall|i: int| 0 <= i < s1.len() ==> #[trigger] g1(s1[i]) == g2(s2[i]),
    ensures
        fold_results(s1, g1) == fold_results(s2, g2),
    decreases s1.len(),
{
    if s1.len() > 0 {
        let t1 = s1.drop_last();
        let t2 = s2.drop_last();
        assert forall|i: int| 0 <= i < t1.len() implies #[trigger] g1(t1[i]) == g2(t2[i]) by {
            assert(t1[i] == s1[i] && t2[i] == s2[i]);
        }
        lemma_fold_congruent(t1, t2, g1, g2);
        assert(g1(s1[s1.len() - 1]) == g2(s2[s2.len() - 1]));
    }
}

/// Where every item before position `k` succeeds and item `k` fails, the fold fails with item
/// `k`'s error.
pub proof fn lemma_fold_first_error<A, B, E>(s: Seq<A>, k: int, g: spec_fn(A) -> Result<Seq<B>, E>)
    requires
        0 <= k < s.len(),
        forall|i: int| 0 <= i < k ==> #[trigger] g(s[i]) is Ok,
        g(s[k]) is Err,
    ensures
        fold_results(s, g) == Err::<Seq<B>, E>(g(s[k])->Err_0),
{
    lemma_fold_prefix_ok(s, k, g);
    lemma_fold_step(s, k, g);
    lemma_fold_error_stays(s, k + 1, s.len() as int, g);
    lemma_fold_full(s, g);
}

/// Where every item before position `k` succeeds, so does the fold of those items.
pub proof fn lemma_fold_prefix_ok<A, B, E>(s: Seq<A>, k: int, g: spec_fn(A) -> Result<Seq<B>, E>)
    requires
        0 <= k <= s.len(),
        forall|i: int| 0 <= i < k ==> #[trigger] g(s[i]) is Ok,
    ensures
        fold_results(s.subrange(0, k), g) is Ok,
    decreases k,
{
    if k > 0 {
        lemma_fold_prefix_ok(s, k - 1, g);
        lemma_fold_step(s, k - 1, g);
    } else {
        lemma_fold_empty(s, g);
    }
}

} // verus!
