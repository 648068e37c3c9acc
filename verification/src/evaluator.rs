//! The no-default evaluator.
//!
//! `Match` owns the remaining source items and the ordered arm list. Each
//! pull (`next`) consumes source items until one is accepted by an arm —
//! items no arm accepts are skipped — and returns the first matching arm's
//! result, or nothing once the source is exhausted. `outputs` is the
//! specification of everything a fully drained evaluator produces.

use vstd::prelude::*;

use core::marker::PhantomData;

use crate::arms::action_wf;
use crate::arms::arm_matches;
use crate::arms::arm_wf;
use crate::arms::filter_wf;
use crate::arms::lemma_action_result;
use crate::arms::lemma_filter_result;
use crate::arms::lemma_first_arm_wins;
use crate::arms::lemma_no_arm_matches;
use crate::arms::match_item;
use crate::with_default::MatchDefault;

verus! {

/// The derived sequence of a no-default evaluator: each source item is
/// replaced by its first matching arm's result, and items no arm accepts
/// are dropped.
pub open spec fn outputs<T, U, F: Fn(&T) -> bool, G: Fn(T) -> U>(
    arms: Seq<(F, G)>,
    source: Seq<T>,
) -> Seq<U>
    decreases source.len(),
{
    if source.len() == 0 {
        Seq::empty()
    } else {
        match match_item(arms, source[0]) {
            Some(u) => seq![u] + outputs(arms, source.drop_first()),
            None => outputs(arms, source.drop_first()),
        }
    }
}

/// An empty source produces an empty derived sequence, whatever the arms;
/// its evaluator signals completion on the first pull.
pub proof fn lemma_empty_source<T, U, F: Fn(&T) -> bool, G: Fn(T) -> U>(arms: Seq<(F, G)>)
    ensures
        outputs(arms, Seq::<T>::empty()) == Seq::<U>::empty(),
{
}

/// A source whose items are all accepted by no arm produces nothing.
pub proof fn lemma_outputs_all_skipped<T, U, F: Fn(&T) -> bool, G: Fn(T) -> U>(
    arms: Seq<(F, G)>,
    source: Seq<T>,
)
    requires
        forall|i: int| 0 <= i < source.len()
            ==> match_item(arms, #[trigger] source[i]) is None,
    ensures
        outputs(arms, source) == Seq::<U>::empty(),
    decreases source.len(),
{
    if source.len() == 0 {
    } else {
        let rest = source.drop_first();
        assert forall|i: int| 0 <= i < rest.len() implies
            match_item(arms, #[trigger] rest[i]) is None by {
            assert(rest[i] == source[i + 1]);
        }
        lemma_outputs_all_skipped(arms, rest);
    }
}

/// When the item at position `k` is the first one any arm accepts, the
/// derived sequence is that item's result followed by the derived sequence
/// of what comes after it.
pub proof fn lemma_outputs_first_match<T, U, F: Fn(&T) -> bool, G: Fn(T) -> U>(
    arms: Seq<(F, G)>,
    source: Seq<T>,
    k: int,
    u: U,
)
    requires
        0 <= k < source.len(),
        forall|i: int| 0 <= i < k ==> match_item(arms, #[trigger] source[i]) is None,
        match_item(arms, source[k]) == Some(u),
    ensures
        outputs(arms, source) == seq![u] + outputs(arms, source.skip(k + 1)),
    decreases k,
{
    if k == 0 {
        assert(source.drop_first() =~= source.skip(1));
    } else {
        let rest = source.drop_first();
        assert(match_item(arms, source[0]) is None);
        assert forall|i: int| 0 <= i < k - 1 implies
            match_item(arms, #[trigger] rest[i]) is None by {
            assert(rest[i] == source[i + 1]);
        }
        assert(rest[k - 1] == source[k]);
        lemma_outputs_first_match(arms, rest, k - 1, u);
        assert(rest.skip(k) =~= source.skip(k + 1));
    }
}

/// Builder and no-default evaluator in one: an ordered list of arms over a
/// wrapped source. Until a default is attached, pulling skips the items no
/// arm accepts.
#[verifier::reject_recursive_types(U)]
pub struct Match<T, U, F, G> where F: Fn(&T) -> bool, G: Fn(T) -> U {
    pub source: Vec<T>,
    pub arms: Vec<(F, G)>,
    pub marker: PhantomData<U>,
}

impl<T, U, F, G> Match<T, U, F, G> where F: Fn(&T) -> bool, G: Fn(T) -> U {
    /// Every registered arm is well formed: deterministic and callable on
    /// any item. Pulling assumes this; registration does not.
    pub open spec fn wf(self) -> bool {
        forall|j: int| 0 <= j < self.arms@.len() ==> #[trigger] arm_wf(self.arms@[j])
    }

    /// Appends an arm to the end of the arm list; the source and all
    /// earlier arms are kept unchanged, in order. Registration always
    /// succeeds and invokes nothing.
    pub fn arm(self, filter: F, action: G) -> (r: Self)
        ensures
            r.source@ == self.source@,
            r.arms@ == self.arms@.push((filter, action)),
            self.wf() && filter_wf(filter) && action_wf(action) ==> r.wf(),
    {
        let mut s = self;
        s.arms.push((filter, action));
        proof {
            if self.wf() && filter_wf(filter) && action_wf(action) {
                assert forall|j: int| 0 <= j < s.arms@.len() implies
                    #[trigger] arm_wf(s.arms@[j]) by {
                    if j < self.arms@.len() {
                        assert(s.arms@[j] == self.arms@[j]);
                    }
                }
            }
        }
        s
    }

    /// Attaches a default action, turning the skipping evaluator into one
    /// that produces exactly one output per source item. The source and the
    /// arm list carry over unchanged.
    pub fn default<D: Fn() -> U>(self, default: D) -> (r: MatchDefault<T, U, F, G, D>)
        ensures
            r.inner.source@ == self.source@,
            r.inner.arms@ == self.arms@,
            r.default == default,
    {
        MatchDefault { inner: self, default }
    }

    /// One pull. Source items are consumed one at a time; each is tested
    /// against the arms in registration order. The first item some arm
    /// accepts is transformed by the first such arm's action and returned;
    /// the items before it are consumed and dropped. When no remaining item
    /// is accepted, the whole source is drained and nothing is returned.
    #[verifier::loop_isolation(false)]
    pub fn next(&mut self) -> (r: Option<U>)
        requires
            old(self).wf(),
        ensures
            final(self).wf(),
            final(self).arms@ == old(self).arms@,
            match r {
                Some(u) => exists|k: int|
                    {
                        &&& 0 <= k < old(self).source@.len()
                        &&& forall|i: int| 0 <= i < k
                            ==> match_item(old(self).arms@, #[trigger] old(self).source@[i]) is None
                        &&& match_item(old(self).arms@, old(self).source@[k]) == Some(u)
                        &&& final(self).source@ == old(self).source@.skip(k + 1)
                    },
                None => {
                    &&& final(self).source@.len() == 0
                    &&& forall|i: int| 0 <= i < old(self).source@.len()
                        ==> match_item(old(self).arms@, #[trigger] old(self).source@[i]) is None
                },
            },
    {
        let ghost orig_source = self.source@;
        let ghost mut consumed: int = 0;
        while self.source.len() != 0
            invariant
                self.wf(),
                self.arms@ == old(self).arms@,
                0 <= consumed <= orig_source.len(),
                self.source@ == orig_source.skip(consumed),
                forall|i: int| 0 <= i < consumed
                    ==> match_item(self.arms@, #[trigger] orig_source[i]) is None,
            decreases self.source@.len(),
        {
            let item = self.source.remove(0);
            let ghost t = item;
            proof {
                assert(orig_source.skip(consumed).drop_first() =~= orig_source.skip(consumed + 1));
                assert(t == orig_source[consumed]);
            }
            let n = self.arms.len();
            let mut j: usize = 0;
            while j < n
                invariant
                    self.wf(),
                    0 <= j <= n,
                    forall|i: int| 0 <= i < j ==> !arm_matches(#[trigger] self.arms@[i].0, t),
                decreases n - j,
            {
                proof {
                    assert(arm_wf(self.arms@[j as int]));
                }
                let matched = (self.arms[j].0)(&item);
                proof {
                    lemma_filter_result(self.arms@[j as int].0, t, matched);
                }
                if matched {
                    let u = (self.arms[j].1)(item);
                    proof {
                        lemma_action_result(self.arms@[j as int].1, t, u);
                        lemma_first_arm_wins(self.arms@, t, j as int);
                        assert(match_item(self.arms@, orig_source[consumed]) == Some(u));
                    }
                    return Some(u);
                }
                j += 1;
            }
            proof {
                lemma_no_arm_matches::<T, U, F, G>(self.arms@, t);
                consumed = consumed + 1;
            }
        }
        proof {
            assert(consumed == orig_source.len());
        }
        None
    }

    /// Drains the evaluator, returning everything it produces, in order:
    /// exactly the derived sequence `outputs` of the arm list over the
    /// remaining source.
    #[verifier::loop_isolation(false)]
    pub fn collect(self) -> (r: Vec<U>)
        requires
            self.wf(),
        ensures
            r@ == outputs(self.arms@, self.source@),
    {
        let mut m = self;
        let ghost orig_arms = m.arms@;
        let ghost orig_source = m.source@;
        let mut out: Vec<U> = Vec::new();
        while m.source.len() != 0
            invariant
                m.wf(),
                m.arms@ == orig_arms,
                outputs(orig_arms, orig_source) == out@ + outputs(orig_arms, m.source@),
            decreases m.source@.len(),
        {
            let ghost src0 = m.source@;
            match m.next() {
                Some(u) => {
                    proof {
                        let k = choose|k: int|
                            {
                                &&& 0 <= k < src0.len()
                                &&& forall|i: int| 0 <= i < k
                                    ==> match_item(orig_arms, #[trigger] src0[i]) is None
                                &&& match_item(orig_arms, src0[k]) == Some(u)
                                &&& m.source@ == src0.skip(k + 1)
                            };
                        lemma_outputs_first_match(orig_arms, src0, k, u);
                        assert(out@.push(u) =~= out@ + seq![u]);
                        assert(out@ + (seq![u] + outputs(orig_arms, m.source@))
                            =~= out@.push(u) + outputs(orig_arms, m.source@));
                    }
                    out.push(u);
                }
                None => {
                    proof {
                        lemma_outputs_all_skipped(orig_arms, src0);
                        assert(out@ + Seq::<U>::empty() =~= out@);
                    }
                }
            }
        }
        proof {
            assert(out@ + outputs(orig_arms, m.source@) =~= out@);
        }
        out
    }
}

/// The derived sequence depends only on the final arm list and the source:
/// two evaluators whose arms ended up equal and in the same order — however
/// the registration calls were chained — produce the same outputs from the
/// same source.
pub proof fn lemma_same_arms_same_outputs<T, U, F: Fn(&T) -> bool, G: Fn(T) -> U>(
    a: Match<T, U, F, G>,
    b: Match<T, U, F, G>,
)
    requires
        a.arms@ == b.arms@,
        a.source@ == b.source@,
    ensures
        outputs(a.arms@, a.source@) == outputs(b.arms@, b.source@),
{
}

} // verus!
