//! The executable matcher, verified against the model in `semantics`.

use vstd::prelude::*;

use crate::ast::Node;
use crate::ast::Pattern;
use crate::ast::Span;
use crate::ast::caps_ok;
use crate::ast::lemma_nodes_of;
use crate::ast::lemma_wf_either_element;
use crate::ast::lemma_wf_list_element;
use crate::ast::node_of;
use crate::ast::nodes_of;
use crate::ast::wf_node;
use crate::semantics::MatchOutcome;
use crate::semantics::is_digit_char;
use crate::semantics::ref_scan;
use crate::semantics::step;
use crate::semantics::step_alts;
use crate::semantics::step_items;
use crate::semantics::step_rep;
use crate::semantics::unicode_alphanumeric;

verus! {

broadcast use crate::ast::lemma_nodes_of;

/// A position over the input line; speculative attempts copy it and commit
/// the copy only on success.
#[derive(Clone, Copy, Debug, PartialEq, Eq, Structural)]
pub struct InputIter {
    pub pos: usize,
}

impl InputIter {
    /// A cursor standing at `pos`.
    pub fn new(pos: usize) -> (r: InputIter)
        ensures
            r.pos == pos,
    {
        InputIter { pos }
    }
}

/// Relies on char::is_alphanumeric: whether the character is alphanumeric
/// under Unicode; a function of the character alone.
#[verifier::external_body]
fn char_is_alphanumeric(c: char) -> (r: bool)
    ensures
        r == unicode_alphanumeric(c),
{
    c.is_alphanumeric()
}

/// A decimal digit.
fn char_is_digit(c: char) -> (r: bool)
    ensures
        r == is_digit_char(c),
{
    let u = c as u32;
    48 <= u && u <= 57
}

/// Membership of a character in a bracket set.
fn contains_char(chars: &Vec<char>, c: char) -> (r: bool)
    ensures
        r == chars@.contains(c),
{
    let mut k: usize = 0;
    while k < chars.len()
        invariant
            k <= chars@.len(),
            forall|i: int| 0 <= i < k ==> chars@[i] != c,
        decreases chars@.len() - k,
    {
        if chars[k] == c {
            proof {
                assert(chars@[k as int] == c);
            }
            return true;
        }
        k = k + 1;
    }
    false
}

/// Only the end-of-input anchor maps to the end-of-input anchor node.
proof fn lemma_end_anchor_shape(p: Pattern)
    ensures
        (node_of(p) is EndAnchor) == (p is EndAnchor),
{
    match p {
        Pattern::Literal(_) => {},
        Pattern::Digit => {},
        Pattern::Alphanumeric => {},
        Pattern::CharacterGroup { .. } => {},
        Pattern::StartAnchor => {},
        Pattern::EndAnchor => {},
        Pattern::OneOrMore(_) => {},
        Pattern::ZeroOrOne(_) => {},
        Pattern::Wildcard => {},
        Pattern::List(_) => {},
        Pattern::Either(_) => {},
        Pattern::Reference(_) => {},
        Pattern::CaptureGroup { .. } => {},
    }
}

impl Pattern {
    /// Whether this pattern matches the line at the cursor, consuming what it
    /// read and recording capture spans; the outcome is exactly `step` on the
    /// pattern's model.
    #[verifier::loop_isolation(false)]
    pub fn matches(&self, input: &Vec<char>, iter: &mut InputIter, state: &mut Vec<Option<Span>>) -> (r: bool)
        requires
            wf_node(node_of(*self), old(state)@.len() as nat),
            old(iter).pos <= input@.len(),
            caps_ok(old(state)@, input@.len() as int),
        ensures
            ({
                let m = step(node_of(*self), input@, old(iter).pos as int, old(state)@);
                r == m.ok && final(iter).pos == m.pos && final(state)@ == m.caps
            }),
            final(state)@.len() == old(state)@.len(),
            old(iter).pos <= final(iter).pos <= input@.len(),
            caps_ok(final(state)@, input@.len() as int),
        decreases *self,
    {
        let ghost pos0 = iter.pos as int;
        let ghost caps0 = state@;
        let ghost len0 = state@.len();
        if iter.pos >= input.len() {
            proof {
                lemma_end_anchor_shape(*self);
            }
            return match self {
                Pattern::EndAnchor => true,
                _ => false,
            };
        }
        let c = input[iter.pos];
        match self {
            Pattern::Literal(expected) => {
                iter.pos = iter.pos + 1;
                *expected == c
            },
            Pattern::Digit => {
                iter.pos = iter.pos + 1;
                char_is_digit(c)
            },
            Pattern::Alphanumeric => {
                iter.pos = iter.pos + 1;
                char_is_alphanumeric(c)
            },
            Pattern::CharacterGroup { positive, group } => {
                iter.pos = iter.pos + 1;
                let mem = contains_char(group, c);
                mem == *positive
            },
            Pattern::StartAnchor => iter.pos == 0,
            Pattern::EndAnchor => false,
            Pattern::Wildcard => {
                iter.pos = iter.pos + 1;
                true
            },
            Pattern::OneOrMore(inner) => {
                let ok0 = inner.matches(input, iter, state);
                if !ok0 {
                    false
                } else {
                    let ghost rep_pos0 = iter.pos as int;
                    let ghost rep_caps0 = state@;
                    let mut go = true;
                    while go
                        invariant
                            state@.len() == len0,
                            iter.pos <= input@.len(),
                            caps_ok(state@, input@.len() as int),
                            rep_pos0 <= iter.pos as int,
                            go ==> step_rep(node_of(**inner), input@, rep_pos0, rep_caps0)
                                == step_rep(node_of(**inner), input@, iter.pos as int, state@),
                            !go ==> step_rep(node_of(**inner), input@, rep_pos0, rep_caps0)
                                == (MatchOutcome { ok: true, pos: iter.pos as int, caps: state@ }),
                        decreases input@.len() - iter.pos + (if go { 1int } else { 0int }),
                    {
                        let checkpoint = iter.pos;
                        let mut tmp = InputIter { pos: checkpoint };
                        let ok2 = inner.matches(input, &mut tmp, state);
                        if ok2 && tmp.pos > checkpoint {
                            iter.pos = tmp.pos;
                        } else {
                            go = false;
                        }
                    }
                    true
                }
            },
            Pattern::ZeroOrOne(inner) => {
                let mut tmp = InputIter { pos: iter.pos };
                let ok1 = inner.matches(input, &mut tmp, state);
                if ok1 {
                    iter.pos = tmp.pos;
                }
                true
            },
            Pattern::List(items) => {
                let ghost nodes = nodes_of(items@);
                let mut k: usize = 0;
                while k < items.len()
                    invariant
                        nodes == nodes_of(items@),
                        wf_node(node_of(*self), len0 as nat),
                        *self == Pattern::List(*items),
                        k <= items@.len(),
                        state@.len() == len0,
                        iter.pos <= input@.len(),
                        caps_ok(state@, input@.len() as int),
                        pos0 <= iter.pos as int,
                        step_items(nodes, 0, input@, pos0, caps0)
                            == step_items(nodes, k as int, input@, iter.pos as int, state@),
                    decreases items@.len() - k,
                {
                    proof {
                        lemma_nodes_of(items@);
                        assert(node_of(*self) == Node::List(nodes_of(items@)));
                        lemma_wf_list_element(nodes_of(items@), len0 as nat, k as int);
                        assert(node_of(items@[k as int]) == nodes_of(items@)[k as int]);
                    }
                    let ok1 = items[k].matches(input, iter, state);
                    if !ok1 {
                        return false;
                    }
                    k = k + 1;
                }
                true
            },
            Pattern::Either(items) => {
                let ghost nodes = nodes_of(items@);
                let mut k: usize = 0;
                while k < items.len()
                    invariant
                        nodes == nodes_of(items@),
                        wf_node(node_of(*self), len0 as nat),
                        *self == Pattern::Either(*items),
                        k <= items@.len(),
                        state@.len() == len0,
                        iter.pos as int == pos0,
                        pos0 <= input@.len(),
                        caps_ok(state@, input@.len() as int),
                        step_alts(nodes, 0, input@, pos0, caps0)
                            == step_alts(nodes, k as int, input@, pos0, state@),
                    decreases items@.len() - k,
                {
                    proof {
                        lemma_nodes_of(items@);
                        assert(node_of(*self) == Node::Either(nodes_of(items@)));
                        lemma_wf_either_element(nodes_of(items@), len0 as nat, k as int);
                        assert(node_of(items@[k as int]) == nodes_of(items@)[k as int]);
                    }
                    let mut tmp = InputIter { pos: iter.pos };
                    let ok1 = items[k].matches(input, &mut tmp, state);
                    if ok1 {
                        iter.pos = tmp.pos;
                        return true;
                    }
                    k = k + 1;
                }
                false
            },
            Pattern::Reference(id) => {
                let sp_opt = state[*id];
                match sp_opt {
                    Some(sp) => {
                        let mut s = sp.start;
                        let e = sp.end;
                        while s < e
                            invariant
                                sp.start <= s <= e,
                                e <= input@.len(),
                                state@ == caps0,
                                iter.pos <= input@.len(),
                                pos0 <= iter.pos as int,
                                ref_scan(input@, sp.start as int, e as int, pos0)
                                    == ref_scan(input@, s as int, e as int, iter.pos as int),
                            decreases e - s,
                        {
                            if iter.pos >= input.len() {
                                return false;
                            }
                            let cin = input[iter.pos];
                            iter.pos = iter.pos + 1;
                            if input[s] != cin {
                                return false;
                            }
                            s = s + 1;
                        }
                        true
                    },
                    None => false,
                }
            },
            Pattern::CaptureGroup { id, item } => {
                let start = iter.pos;
                let ok1 = item.matches(input, iter, state);
                if ok1 {
                    let sp = Span { start, end: iter.pos };
                    state[*id] = Some(sp);
                    true
                } else {
                    false
                }
            },
        }
    }
}

} // verus!
