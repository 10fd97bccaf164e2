//! The search driver: a fresh match attempt at each start offset in turn.

use vstd::prelude::*;

use crate::ast::Pattern;
use crate::ast::Span;
use crate::ast::node_of;
use crate::ast::wf_node;
use crate::matcher::InputIter;
use crate::semantics::MatchOutcome;
use crate::semantics::step;

verus! {

/// The capture state a fresh attempt starts from: every group unset.
pub open spec fn empty_caps(groups: nat) -> Seq<Option<Span>> {
    Seq::new(groups, |i: int| None)
}

/// The outcome of a fresh attempt at `pos`.
pub open spec fn attempt_at(n: crate::ast::Node, groups: nat, input: Seq<char>, pos: int) -> MatchOutcome {
    step(n, input, pos, empty_caps(groups))
}

/// Whether some start offset before the end of the line begins a match.
pub open spec fn search_found(n: crate::ast::Node, groups: nat, input: Seq<char>) -> bool {
    exists|s: int| 0 <= s < input.len() && (#[trigger] attempt_at(n, groups, input, s)).ok
}

/// A capture array with every group unset.
fn new_state(groups: usize) -> (r: Vec<Option<Span>>)
    ensures
        r@ == empty_caps(groups as nat),
        r@.len() == groups,
{
    let mut v: Vec<Option<Span>> = Vec::new();
    let mut k: usize = 0;
    while k < groups
        invariant
            k <= groups,
            v@.len() == k,
            forall|i: int| 0 <= i < k ==> v@[i] is None,
        decreases groups - k,
    {
        v.push(None);
        k = k + 1;
    }
    proof {
        assert(v@ =~= empty_caps(groups as nat));
    }
    v
}

/// Attempt a match at offsets 0, 1, 2, ... up to (not including) the end of
/// the line, each attempt from a fresh all-unset capture array; the first
/// success gives that attempt's captures, and `None` says that no start
/// offset begins a match.
#[verifier::loop_isolation(false)]
pub fn search(pattern: &Pattern, group_count: usize, line: &Vec<char>) -> (r: Option<Vec<Option<Span>>>)
    requires
        wf_node(node_of(*pattern), group_count as nat),
    ensures
        ({
            let n = node_of(*pattern);
            let groups = group_count as nat;
            match r {
                Some(st) => exists|s: int|
                    0 <= s < line@.len() && (#[trigger] attempt_at(n, groups, line@, s)).ok
                        && st@ == attempt_at(n, groups, line@, s).caps && (forall|t: int|
                        0 <= t < s ==> !(#[trigger] attempt_at(n, groups, line@, t)).ok),
                None => !search_found(n, groups, line@),
            }
        }),
        (r is Some) == search_found(node_of(*pattern), group_count as nat, line@),
{
    let ghost n = node_of(*pattern);
    let ghost groups = group_count as nat;
    let mut start: usize = 0;
    while start < line.len()
        invariant
            start <= line@.len(),
            forall|t: int| 0 <= t < start ==> !(#[trigger] attempt_at(n, groups, line@, t)).ok,
        decreases line@.len() - start,
    {
        let mut state = new_state(group_count);
        let mut iter = InputIter { pos: start };
        let ok = pattern.matches(line, &mut iter, &mut state);
        if ok {
            proof {
                assert((attempt_at(n, groups, line@, start as int)).ok);
            }
            return Some(state);
        }
        start = start + 1;
    }
    None
}

} // verus!
