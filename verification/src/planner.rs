//! The dependency planner: the order in which fragments are woven.
//!
//! The order is kept by `topological_sort::TopologicalSort`. What the
//! weaver knows of it is stated here and believed, not proved.

use topological_sort::TopologicalSort;
use vstd::prelude::*;

verus! {

#[verifier::external_type_specification]
#[verifier::external_body]
#[verifier::reject_recursive_types(T)]
pub struct ExTopologicalSort<T>(TopologicalSort<T>);

/// What a planner holds: each element that waits to be handed out, with
/// the elements that were registered as coming after it.
pub uninterp spec fn waiting(planner: TopologicalSort<String>) -> Map<Seq<char>, Set<Seq<char>>>;

/// How many elements wait in a planner.
pub uninterp spec fn count(planner: TopologicalSort<String>) -> nat;

/// The plan in which nothing waits.
pub open spec fn empty_plan() -> Map<Seq<char>, Set<Seq<char>>> {
    Map::empty()
}

/// Whether every waiting element has a waiting element before it.
pub open spec fn all_blocked(plan: Map<Seq<char>, Set<Seq<char>>>) -> bool {
    forall|element: Seq<char>| #[trigger] plan.contains_key(element) ==> blocked(plan, element)
}

/// Whether some waiting element was registered as coming before `element`.
pub open spec fn blocked(plan: Map<Seq<char>, Set<Seq<char>>>, element: Seq<char>) -> bool {
    exists|before: Seq<char>| #[trigger] plan.contains_key(before) && plan[before].contains(element)
}

/// The plan after `element` was added to those that wait, if it was not
/// among them.
pub open spec fn with_element(plan: Map<Seq<char>, Set<Seq<char>>>, element: Seq<char>) -> Map<
    Seq<char>,
    Set<Seq<char>>,
> {
    if plan.contains_key(element) {
        plan
    } else {
        plan.insert(element, Set::empty())
    }
}

/// The plan after `succ` was registered as coming after `prec`.
pub open spec fn with_dependency(
    plan: Map<Seq<char>, Set<Seq<char>>>,
    prec: Seq<char>,
    succ: Seq<char>,
) -> Map<Seq<char>, Set<Seq<char>>> {
    let after = with_element(plan, prec);
    with_element(after.insert(prec, after[prec].insert(succ)), succ)
}

/// A planner in which nothing waits.
///
/// Trusted: `TopologicalSort::new` returns a sort that holds no element.
#[verifier::external_body]
pub(crate) fn planner_new() -> (planner: TopologicalSort<String>)
    ensures
        waiting(planner) == empty_plan(),
{
    TopologicalSort::new()
}

/// Adds `element` to those that wait.
///
/// Trusted: `TopologicalSort::insert` adds the element, with nothing
/// registered after it, unless it is already there, and changes nothing
/// else.
#[verifier::external_body]
pub(crate) fn planner_insert(planner: &mut TopologicalSort<String>, element: &String)
    ensures
        waiting(*final(planner)) == with_element(waiting(*old(planner)), element@),
{
    let _ = planner.insert(element);
}

/// Registers that `succ` comes after `prec`.
///
/// Trusted: `TopologicalSort::add_dependency` adds both elements to those
/// that wait, unless they are there, and `succ` to what comes after `prec`.
#[verifier::external_body]
pub(crate) fn planner_add_dependency(
    planner: &mut TopologicalSort<String>,
    prec: &String,
    succ: &String,
)
    ensures
        waiting(*final(planner)) == with_dependency(waiting(*old(planner)), prec@, succ@),
{
    planner.add_dependency(prec, succ)
}

/// Hands out an element that waits and that no other waiting element comes
/// before; `None` if there is no such element.
///
/// Trusted: `TopologicalSort::pop` removes and returns an element with no
/// predecessor among those that wait, so that one element less waits.
/// Which one it is where there are several is not stated: it depends on
/// the order in which a hash map is walked.
#[verifier::external_body]
pub(crate) fn planner_pop(planner: &mut TopologicalSort<String>) -> (r: Option<String>)
    ensures
        r.is_some() ==> waiting(*old(planner)).contains_key(r.unwrap()@),
        r.is_some() ==> !blocked(waiting(*old(planner)), r.unwrap()@),
        r.is_some() ==> waiting(*final(planner)) == waiting(*old(planner)).remove(r.unwrap()@),
        r.is_none() ==> waiting(*final(planner)) == waiting(*old(planner)),
        r.is_none() ==> all_blocked(waiting(*old(planner))),
        r.is_some() ==> count(*final(planner)) + 1 == count(*old(planner)),
{
    planner.pop()
}

/// Whether nothing waits.
///
/// Trusted: `TopologicalSort::is_empty` tells whether the sort holds no
/// element.
#[verifier::external_body]
pub(crate) fn planner_is_empty(planner: &TopologicalSort<String>) -> (r: bool)
    ensures
        r == (waiting(*planner) == empty_plan()),
{
    planner.is_empty()
}

} // verus!
