//! The with-default evaluator.
//!
//! `MatchDefault` carries a no-default evaluator plus a default action. Each
//! pull consumes exactly one source item — never more, never fewer — and
//! always produces an output for it: the first matching arm's result, or the
//! default's result when no arm accepts the item. `outputs_with_default` is
//! the specification of everything a fully drained evaluator produces.

use vstd::prelude::*;

use crate::arms::arm_wf;
use crate::arms::default_value;
use crate::arms::default_wf;
use crate::arms::lemma_action_result;
use crate::arms::lemma_default_result;
use crate::arms::lemma_filter_result;
use crate::arms::lemma_first_arm_wins;
use crate::arms::lemma_no_arm_matches;
use crate::arms::arm_matches;
use crate::arms::match_item;
use crate::evaluator::Match;

verus! {

/// What one source item becomes under an arm list and a default: the first
/// matching arm's result, or the default's result when no arm accepts it.
pub open spec fn step_with_default<T, U, F: Fn(&T) -> bool, G: Fn(T) -> U, D: Fn() -> U>(
    arms: Seq<(F, G)>,
    default: D,
    t: T,
) -> U {
    match match_item(arms, t) {
        Some(u) => u,
        None => default_value(default),
    }
}

/// The derived sequence of a with-default evaluator: every source item is
/// replaced by `step_with_default`, so the result has exactly one output
/// per source item.
pub open spec fn outputs_with_default<T, U, F: Fn(&T) -> bool, G: Fn(T) -> U, D: Fn() -> U>(
    arms: Seq<(F, G)>,
    default: D,
    source: Seq<T>,
) -> Seq<U>
    decreases source.len(),
{
    if source.len() == 0 {
        Seq::empty()
    } else {
        seq![step_with_default(arms, default, source[0])]
            + outputs_with_default(arms, default, source.drop_first())
    }
}

/// An empty source produces an empty derived sequence, whatever the arms
/// and the default; its evaluator signals completion on the first pull.
pub proof fn lemma_empty_source_with_default<
    T,
    U,
    F: Fn(&T) -> bool,
    G: Fn(T) -> U,
    D: Fn() -> U,
>(arms: Seq<(F, G)>, default: D)
    ensures
        outputs_with_default(arms, default, Seq::<T>::empty()) == Seq::<U>::empty(),
{
}

/// The with-default evaluator never skips: it produces exactly one output
/// per source item, so the derived sequence has the source's length.
pub proof fn lemma_with_default_length<T, U, F: Fn(&T) -> bool, G: Fn(T) -> U, D: Fn() -> U>(
    arms: Seq<(F, G)>,
    default: D,
    source: Seq<T>,
)
    ensures
        outputs_with_default(arms, default, source).len() == source.len(),
    decreases source.len(),
{
    if source.len() == 0 {
    } else {
        lemma_with_default_length(arms, default, source.drop_first());
    }
}

/// With no arms registered, the with-default evaluator degenerates to a
/// constant map: every source item becomes the default's value.
pub proof fn lemma_zero_arms_constant<T, U, F: Fn(&T) -> bool, G: Fn(T) -> U, D: Fn() -> U>(
    arms: Seq<(F, G)>,
    default: D,
    source: Seq<T>,
)
    requires
        arms.len() == 0,
    ensures
        outputs_with_default(arms, default, source)
            == Seq::new(source.len(), |i: int| default_value(default)),
    decreases source.len(),
{
    let constant = Seq::new(source.len(), |i: int| default_value(default));
    if source.len() == 0 {
        assert(outputs_with_default(arms, default, source) =~= constant);
    } else {
        lemma_zero_arms_constant(arms, default, source.drop_first());
        assert(outputs_with_default(arms, default, source) =~= constant);
    }
}

/// With-default evaluator: the wrapped builder plus the default action.
#[verifier::reject_recursive_types(U)]
pub struct MatchDefault<T, U, F, G, D> where F: Fn(&T) -> bool, G: Fn(T) -> U, D: Fn() -> U {
    pub inner: Match<T, U, F, G>,
    pub default: D,
}

impl<T, U, F, G, D> MatchDefault<T, U, F, G, D> where
    F: Fn(&T) -> bool,
    G: Fn(T) -> U,
    D: Fn() -> U,
 {
    /// Every arm and the default action are well formed. Pulling assumes
    /// this; registration does not.
    pub open spec fn wf(self) -> bool {
        self.inner.wf() && default_wf(self.default)
    }

    /// Appends an arm to the end of the arm list, keeping the source, all
    /// earlier arms and the default unchanged — arms may still be added
    /// after the default is attached.
    pub fn arm(self, filter: F, action: G) -> (r: Self)
        ensures
            r.inner.source@ == self.inner.source@,
            r.inner.arms@ == self.inner.arms@.push((filter, action)),
            r.default == self.default,
    {
        let d = self.default;
        self.inner.arm(filter, action).default(d)
    }

    /// One pull. Exactly one source item is consumed; when the source is
    /// already exhausted, nothing is returned and the default is not
    /// invoked. Otherwise the item is tested against the arms in
    /// registration order, and the output is the first matching arm's
    /// result, or the default's result when no arm accepts the item.
    #[verifier::loop_isolation(false)]
    pub fn next(&mut self) -> (r: Option<U>)
        requires
            old(self).wf(),
        ensures
            final(self).wf(),
            final(self).inner.arms@ == old(self).inner.arms@,
            final(self).default == old(self).default,
            old(self).inner.source@.len() == 0 ==> {
                &&& r is None
                &&& final(self).inner.source@ == old(self).inner.source@
            },
            old(self).inner.source@.len() > 0 ==> {
                &&& final(self).inner.source@ == old(self).inner.source@.drop_first()
                &&& r == Some(
                    step_with_default(
                        old(self).inner.arms@,
                        old(self).default,
                        old(self).inner.source@[0],
                    ),
                )
            },
    {
        if self.inner.source.len() == 0 {
            return None;
        }
        let item = self.inner.source.remove(0);
        let ghost t = item;
        let n = self.inner.arms.len();
        let mut j: usize = 0;
        while j < n
            invariant
                self.wf(),
                0 <= j <= n,
                forall|i: int| 0 <= i < j ==> !arm_matches(#[trigger] self.inner.arms@[i].0, t),
            decreases n - j,
        {
            proof {
                assert(arm_wf(self.inner.arms@[j as int]));
            }
            let matched = (self.inner.arms[j].0)(&item);
            proof {
                lemma_filter_result(self.inner.arms@[j as int].0, t, matched);
            }
            if matched {
                let u = (self.inner.arms[j].1)(item);
                proof {
                    lemma_action_result(self.inner.arms@[j as int].1, t, u);
                    lemma_first_arm_wins(self.inner.arms@, t, j as int);
                }
                return Some(u);
            }
            j += 1;
        }
        let u = (self.default)();
        proof {
            lemma_no_arm_matches::<T, U, F, G>(self.inner.arms@, t);
            lemma_default_result(self.default, u);
        }
        Some(u)
    }

    /// Drains the evaluator, returning everything it produces, in order:
    /// exactly the derived sequence `outputs_with_default` of the arm list
    /// and the default over the remaining source.
    #[verifier::loop_isolation(false)]
    pub fn collect(self) -> (r: Vec<U>)
        requires
            self.wf(),
        ensures
            r@ == outputs_with_default(self.inner.arms@, self.default, self.inner.source@),
    {
        let mut m = self;
        let ghost orig_arms = m.inner.arms@;
        let ghost orig_source = m.inner.source@;
        let mut out: Vec<U> = Vec::new();
        while m.inner.source.len() != 0
            invariant
                m.wf(),
                m.inner.arms@ == orig_arms,
                m.default == self.default,
                outputs_with_default(orig_arms, m.default, orig_source)
                    == out@ + outputs_with_default(orig_arms, m.default, m.inner.source@),
            decreases m.inner.source@.len(),
        {
            let ghost src0 = m.inner.source@;
            match m.next() {
                Some(u) => {
                    proof {
                        assert(out@.push(u) =~= out@ + seq![u]);
                        assert(out@ + (seq![u] + outputs_with_default(
                            orig_arms,
                            m.default,
                            m.inner.source@,
                        )) =~= out@.push(u) + outputs_with_default(
                            orig_arms,
                            m.default,
                            m.inner.source@,
                        ));
                    }
                    out.push(u);
                }
                None => {
                    // A nonempty source always yields an output here.
                    proof {
                        assert(false);
                    }
                }
            }
        }
        proof {
            assert(out@ + outputs_with_default(orig_arms, m.default, m.inner.source@) =~= out@);
        }
        out
    }
}

/// The derived sequence depends only on the final arm list, the default and
/// the source: two with-default evaluators whose arms ended up equal and in
/// the same order — however the registration calls were chained — produce
/// the same outputs from the same source.
pub proof fn lemma_same_arms_same_outputs_with_default<
    T,
    U,
    F: Fn(&T) -> bool,
    G: Fn(T) -> U,
    D: Fn() -> U,
>(
    a: MatchDefault<T, U, F, G, D>,
    b: MatchDefault<T, U, F, G, D>,
)
    requires
        a.inner.arms@ == b.inner.arms@,
        a.default == b.default,
        a.inner.source@ == b.inner.source@,
    ensures
        outputs_with_default(a.inner.arms@, a.default, a.inner.source@)
            == outputs_with_default(b.inner.arms@, b.default, b.inner.source@),
{
}

} // verus!
