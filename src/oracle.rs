//! The reference model of a page bitmap: a plain array of flags, one per
//! member the set can hold, and the law that ties a run of calls on the set
//! to it.
use vstd::prelude::*;
use vstd::set_lib::{lemma_int_range, lemma_len_subset, set_int_range};

verus! {

/// One call on a page bitmap.
#[derive(Copy, Clone, Debug, PartialEq, Eq, Structural)]
pub enum BitvecCall {
    SetPage(u32),
    ClearPage(u32),
    TestPage(u32),
}

/// The flags after one call: `SetPage(i)` raises flag `i - 1`, `ClearPage(i)`
/// lowers it, `TestPage` changes nothing; an index outside `1 ..= a.len()`
/// changes nothing.
pub open spec fn oracle_step(a: Seq<bool>, c: BitvecCall) -> Seq<bool> {
    match c {
        BitvecCall::SetPage(i) => if 1 <= i <= a.len() {
            a.update(i - 1, true)
        } else {
            a
        },
        BitvecCall::ClearPage(i) => if 1 <= i <= a.len() {
            a.update(i - 1, false)
        } else {
            a
        },
        BitvecCall::TestPage(_) => a,
    }
}

/// The oracle's answer to `TestPage(i)`.
pub open spec fn oracle_answer(a: Seq<bool>, i: u32) -> bool {
    1 <= i <= a.len() && a[i - 1]
}

/// The flags after a run of calls.
pub open spec fn oracle_run(a: Seq<bool>, calls: Seq<BitvecCall>) -> Seq<bool>
    decreases calls.len(),
{
    if calls.len() == 0 {
        a
    } else {
        oracle_step(oracle_run(a, calls.drop_last()), calls.last())
    }
}

/// The members that the flags `v` describe, as indices of raised flags.
pub open spec fn flag_set(v: Seq<bool>) -> Set<int> {
    Set::new(|k: int| 0 <= k < v.len() && v[k])
}

/// The flag set of an array is finite; raising or lowering a flag adds or
/// removes one index.
pub(crate) proof fn lemma_flag_set(v: Seq<bool>, k: int)
    requires
        0 <= k < v.len(),
    ensures
        flag_set(v).finite(),
        flag_set(v.update(k, true)) == flag_set(v).insert(k),
        flag_set(v.update(k, false)) == flag_set(v).remove(k),
{
    lemma_flag_set_finite(v);
    assert(flag_set(v.update(k, true)) =~= flag_set(v).insert(k));
    assert(flag_set(v.update(k, false)) =~= flag_set(v).remove(k));
}

/// The flag set of an array is finite.
pub(crate) proof fn lemma_flag_set_finite(v: Seq<bool>)
    ensures
        flag_set(v).finite(),
{
    lemma_int_range(0, v.len() as int);
    lemma_len_subset(flag_set(v), set_int_range(0, v.len() as int));
}

/// One call on a set with flags `pre`, leaving flags `post` and answering
/// `answer`, as the contracts of `Bitvec::set` (when it succeeds),
/// `Bitvec::clear` and `Bitvec::test` describe it.
pub open spec fn call_step(pre: Seq<bool>, c: BitvecCall, post: Seq<bool>, answer: bool) -> bool {
    match c {
        BitvecCall::SetPage(i) => 1 <= i <= pre.len() && post == pre.update(i - 1, true),
        BitvecCall::ClearPage(i) => post == if 1 <= i <= pre.len() {
            pre.update(i - 1, false)
        } else {
            pre
        },
        BitvecCall::TestPage(i) => post == pre && answer == (1 <= i <= pre.len() && pre[i - 1]),
    }
}

/// A successful `set(i)` followed by `test(i)` answers `true`.
pub proof fn lemma_set_then_test(
    pre: Seq<bool>,
    i: u32,
    mid: Seq<bool>,
    post: Seq<bool>,
    answer: bool,
)
    requires
        call_step(pre, BitvecCall::SetPage(i), mid, false),
        call_step(mid, BitvecCall::TestPage(i), post, answer),
    ensures
        answer,
{
}

/// `clear(i)` followed by `test(i)` answers `false`, whatever `i` is and
/// whatever the set held.
pub proof fn lemma_clear_then_test(
    pre: Seq<bool>,
    i: u32,
    mid: Seq<bool>,
    post: Seq<bool>,
    answer: bool,
)
    requires
        call_step(pre, BitvecCall::ClearPage(i), mid, false),
        call_step(mid, BitvecCall::TestPage(i), post, answer),
    ensures
        !answer,
{
}

/// `test(i)` answers `false` when `i` is 0 or above the capacity.
pub proof fn lemma_test_out_of_range(pre: Seq<bool>, i: u32, post: Seq<bool>, answer: bool)
    requires
        call_step(pre, BitvecCall::TestPage(i), post, answer),
        i == 0 || i > pre.len(),
    ensures
        !answer,
{
}

/// `set` is idempotent: a second `set(i)` leaves the flags as the first
/// one left them.
pub proof fn lemma_set_idempotent(pre: Seq<bool>, i: u32, mid: Seq<bool>, post: Seq<bool>)
    requires
        call_step(pre, BitvecCall::SetPage(i), mid, false),
        call_step(mid, BitvecCall::SetPage(i), post, false),
    ensures
        post == mid,
{
    assert(post =~= mid);
}

/// Model equivalence: along any run of `set`, `clear` and `test` calls in
/// which every `set` succeeds, the set's flags after each call equal the
/// oracle's, and every `test` answers as the oracle does.
pub proof fn lemma_run_matches_oracle(
    states: Seq<Seq<bool>>,
    calls: Seq<BitvecCall>,
    answers: Seq<bool>,
)
    requires
        states.len() == calls.len() + 1,
        answers.len() == calls.len(),
        forall|k: int|
            0 <= k < calls.len() ==> call_step(states[k], calls[k], states[k + 1], answers[k]),
    ensures
        forall|k: int|
            0 <= k <= calls.len() ==> #[trigger] states[k] == oracle_run(states[0], calls.take(k)),
        forall|k: int|
            0 <= k < calls.len() && #[trigger] calls[k] is TestPage ==> answers[k]
                == oracle_answer(oracle_run(states[0], calls.take(k)), calls[k]->TestPage_0),
    decreases calls.len(),
{
    if calls.len() > 0 {
        let n = calls.len() - 1;
        let s2 = states.drop_last();
        let c2 = calls.drop_last();
        let a2 = answers.drop_last();
        assert forall|k: int| 0 <= k < c2.len() implies call_step(
            s2[k],
            c2[k],
            s2[k + 1],
            a2[k],
        ) by {
            assert(call_step(states[k], calls[k], states[k + 1], answers[k]));
        }
        lemma_run_matches_oracle(s2, c2, a2);
        assert forall|k: int| 0 <= k <= calls.len() implies #[trigger] states[k] == oracle_run(
            states[0],
            calls.take(k),
        ) by {
            if k <= n {
                assert(s2[k] == states[k]);
                assert(c2.take(k) =~= calls.take(k));
            } else {
                assert(calls.take(k) =~= calls);
                assert(c2.take(n) =~= c2);
                assert(s2[n] == states[n]);
                assert(call_step(states[n], calls[n], states[n + 1], answers[n]));
            }
        }
        assert forall|k: int|
            0 <= k < calls.len() && #[trigger] calls[k] is TestPage implies answers[k]
                == oracle_answer(oracle_run(states[0], calls.take(k)), calls[k]->TestPage_0) by {
            assert(call_step(states[k], calls[k], states[k + 1], answers[k]));
            assert(states[k] == oracle_run(states[0], calls.take(k)));
        }
    }
}

} // verus!
