//! A lazy, pull-based match combinator over sequences.
//!
//! A source of items is adapted into a builder that accumulates an ordered
//! list of arms (a predicate paired with an action). Pulling from the
//! resulting evaluator tests each source item against the arms in
//! registration order and applies the first matching arm's action. An
//! optional default action turns the skipping evaluator into one that
//! produces exactly one output per source item.

pub mod arms;
pub mod evaluator;
pub mod with_default;

pub use arms::arm_apply;
pub use arms::arm_matches;
pub use arms::arm_wf;
pub use arms::action_wf;
pub use arms::default_value;
pub use arms::default_wf;
pub use arms::filter_wf;
pub use arms::lemma_first_arm_wins;
pub use arms::match_item;
pub use evaluator::lemma_empty_source;
pub use evaluator::lemma_outputs_all_skipped;
pub use evaluator::lemma_outputs_first_match;
pub use evaluator::lemma_same_arms_same_outputs;
pub use evaluator::outputs;
pub use evaluator::Match;
pub use with_default::lemma_empty_source_with_default;
pub use with_default::lemma_same_arms_same_outputs_with_default;
pub use with_default::lemma_with_default_length;
pub use with_default::lemma_zero_arms_constant;
pub use with_default::outputs_with_default;
pub use with_default::step_with_default;
pub use with_default::MatchDefault;

use core::marker::PhantomData;
use vstd::prelude::*;

verus! {

/// The entry point: adapts a source of items into a builder with an empty
/// arm list and no default attached.
pub trait MatchExt<T>: View<V = Seq<T>> + Sized {
    /// Wraps the source in a builder holding no arms yet.
    fn match_on<U, F: Fn(&T) -> bool, G: Fn(T) -> U>(self) -> (m: Match<T, U, F, G>)
        ensures
            m.source@ == self@,
            m.arms@ == Seq::<(F, G)>::empty(),
    ;
}

impl<T> MatchExt<T> for Vec<T> {
    fn match_on<U, F: Fn(&T) -> bool, G: Fn(T) -> U>(self) -> (m: Match<T, U, F, G>) {
        Match { source: self, arms: Vec::new(), marker: PhantomData }
    }
}

} // verus!
