//! Arms and their specification-level meaning.
//!
//! An arm is a pair of a predicate over a borrowed item and an action that
//! consumes the item. Arms are ordinary closure (or function pointer) values;
//! their meaning at the specification level is recovered from their
//! postconditions, provided they are deterministic: `filter_wf` / `action_wf`
//! say that a callable can always be called and that its postcondition pins
//! down a unique result, and `arm_matches` / `arm_apply` name that result.

use vstd::prelude::*;

verus! {

/// A predicate is well formed when it can be called on any item and its
/// postcondition determines a unique answer for each item.
pub open spec fn filter_wf<T, F: Fn(&T) -> bool>(f: F) -> bool {
    &&& forall|t: &T| #[trigger] call_requires(f, (t,))
    &&& forall|t: &T, b1: bool, b2: bool|
        #[trigger] call_ensures(f, (t,), b1) && #[trigger] call_ensures(f, (t,), b2) ==> b1 == b2
}

/// An action is well formed when it can be called on any item and its
/// postcondition determines a unique result for each item.
pub open spec fn action_wf<T, U, G: Fn(T) -> U>(g: G) -> bool {
    &&& forall|t: T| #[trigger] call_requires(g, (t,))
    &&& forall|t: T, u1: U, u2: U|
        #[trigger] call_ensures(g, (t,), u1) && #[trigger] call_ensures(g, (t,), u2) ==> u1 == u2
}

/// A default action is well formed when it can be called and its
/// postcondition determines a unique result.
pub open spec fn default_wf<U, D: Fn() -> U>(d: D) -> bool {
    &&& call_requires(d, ())
    &&& forall|u1: U, u2: U|
        #[trigger] call_ensures(d, (), u1) && #[trigger] call_ensures(d, (), u2) ==> u1 == u2
}

/// An arm is well formed when both of its halves are.
pub open spec fn arm_wf<T, U, F: Fn(&T) -> bool, G: Fn(T) -> U>(a: (F, G)) -> bool {
    filter_wf(a.0) && action_wf(a.1)
}

/// The answer a well-formed predicate gives on an item.
pub open spec fn arm_matches<T, F: Fn(&T) -> bool>(f: F, t: T) -> bool {
    choose|b: bool| call_ensures(f, (&t,), b)
}

/// The result a well-formed action produces on an item.
pub open spec fn arm_apply<T, U, G: Fn(T) -> U>(g: G, t: T) -> U {
    choose|u: U| call_ensures(g, (t,), u)
}

/// The result a well-formed default action produces.
pub open spec fn default_value<U, D: Fn() -> U>(d: D) -> U {
    choose|u: U| call_ensures(d, (), u)
}

/// A call of a well-formed predicate returns exactly `arm_matches`.
pub proof fn lemma_filter_result<T, F: Fn(&T) -> bool>(f: F, t: T, b: bool)
    requires
        filter_wf(f),
        call_ensures(f, (&t,), b),
    ensures
        arm_matches(f, t) == b,
{
    assert(call_ensures(f, (&t,), arm_matches(f, t)));
}

/// A call of a well-formed action returns exactly `arm_apply`.
pub proof fn lemma_action_result<T, U, G: Fn(T) -> U>(g: G, t: T, u: U)
    requires
        action_wf(g),
        call_ensures(g, (t,), u),
    ensures
        arm_apply(g, t) == u,
{
    assert(call_ensures(g, (t,), arm_apply(g, t)));
}

/// A call of a well-formed default action returns exactly `default_value`.
pub proof fn lemma_default_result<U, D: Fn() -> U>(d: D, u: U)
    requires
        default_wf(d),
        call_ensures(d, (), u),
    ensures
        default_value(d) == u,
{
    assert(call_ensures(d, (), default_value(d)));
}

/// What an ordered list of arms makes of a single item: the result of the
/// first arm whose predicate accepts the item, or nothing when no arm does.
pub open spec fn match_item<T, U, F: Fn(&T) -> bool, G: Fn(T) -> U>(
    arms: Seq<(F, G)>,
    t: T,
) -> Option<U>
    decreases arms.len(),
{
    if arms.len() == 0 {
        None
    } else if arm_matches(arms[0].0, t) {
        Some(arm_apply(arms[0].1, t))
    } else {
        match_item(arms.drop_first(), t)
    }
}

/// Order-of-arms determinism: when an item is accepted by the arm at
/// position `j` and by no earlier arm, the item's result is that arm's
/// action applied to it — later arms never fire, however many of them
/// would also accept the item.
pub proof fn lemma_first_arm_wins<T, U, F: Fn(&T) -> bool, G: Fn(T) -> U>(
    arms: Seq<(F, G)>,
    t: T,
    j: int,
)
    requires
        0 <= j < arms.len(),
        arm_matches(arms[j].0, t),
        forall|i: int| 0 <= i < j ==> !arm_matches(#[trigger] arms[i].0, t),
    ensures
        match_item(arms, t) == Some(arm_apply(arms[j].1, t)),
    decreases j,
{
    if j == 0 {
    } else {
        assert(!arm_matches(arms[0].0, t));
        let rest = arms.drop_first();
        assert forall|i: int| 0 <= i < j - 1 implies !arm_matches(#[trigger] rest[i].0, t) by {
            assert(rest[i] == arms[i + 1]);
        }
        assert(rest[j - 1] == arms[j]);
        lemma_first_arm_wins(rest, t, j - 1);
    }
}

/// An item accepted by no arm produces nothing.
pub proof fn lemma_no_arm_matches<T, U, F: Fn(&T) -> bool, G: Fn(T) -> U>(
    arms: Seq<(F, G)>,
    t: T,
)
    requires
        forall|i: int| 0 <= i < arms.len() ==> !arm_matches(#[trigger] arms[i].0, t),
    ensures
        match_item::<T, U, F, G>(arms, t) is None,
    decreases arms.len(),
{
    if arms.len() == 0 {
    } else {
        assert(!arm_matches(arms[0].0, t));
        let rest = arms.drop_first();
        assert forall|i: int| 0 <= i < rest.len() implies !arm_matches(#[trigger] rest[i].0, t) by {
            assert(rest[i] == arms[i + 1]);
        }
        lemma_no_arm_matches::<T, U, F, G>(rest, t);
    }
}

} // verus!
