//! What a match attempt does: a mathematical model of the matcher.
//!
//! `step` takes a pattern node, the input line, the cursor position and the
//! capture state, and gives the outcome of one match attempt: whether it
//! succeeded, where the cursor ends, and the capture state afterwards.
//! Quantifiers are strictly greedy and nothing retries a committed choice;
//! a failed attempt may still have consumed characters and recorded captures,
//! exactly as the matcher behaves.

use vstd::prelude::*;

use crate::ast::Node;
use crate::ast::Span;

verus! {

/// The outcome of one match attempt.
pub ghost struct MatchOutcome {
    pub ok: bool,
    pub pos: int,
    pub caps: Seq<Option<Span>>,
}

/// A decimal digit.
pub open spec fn is_digit_char(c: char) -> bool {
    48 <= c as u32 <= 57
}

/// What `char::is_alphanumeric` returns: a function of the character alone.
pub uninterp spec fn unicode_alphanumeric(c: char) -> bool;

/// The outcome of matching one node at `pos`.
pub open spec fn step(n: Node, input: Seq<char>, pos: int, caps: Seq<Option<Span>>) -> MatchOutcome
    decreases n, input.len() - pos, 0int,
{
    if !(0 <= pos < input.len()) {
        MatchOutcome { ok: n is EndAnchor, pos, caps }
    } else {
        let c = input[pos];
        match n {
            Node::Literal(e) => MatchOutcome { ok: e == c, pos: pos + 1, caps },
            Node::Digit => MatchOutcome { ok: is_digit_char(c), pos: pos + 1, caps },
            Node::Alphanumeric => MatchOutcome {
                ok: unicode_alphanumeric(c),
                pos: pos + 1,
                caps,
            },
            Node::CharacterGroup { positive, group } => MatchOutcome {
                ok: group.contains(c) == positive,
                pos: pos + 1,
                caps,
            },
            Node::StartAnchor => MatchOutcome { ok: pos == 0, pos, caps },
            Node::EndAnchor => MatchOutcome { ok: false, pos, caps },
            Node::Wildcard => MatchOutcome { ok: true, pos: pos + 1, caps },
            Node::OneOrMore(inner) => {
                let first = step(*inner, input, pos, caps);
                if !first.ok {
                    MatchOutcome { ok: false, pos: first.pos, caps: first.caps }
                } else {
                    step_rep(*inner, input, first.pos, first.caps)
                }
            },
            Node::ZeroOrOne(inner) => {
                let r = step(*inner, input, pos, caps);
                MatchOutcome {
                    ok: true,
                    pos: if r.ok {
                        r.pos
                    } else {
                        pos
                    },
                    caps: r.caps,
                }
            },
            Node::List(items) => step_items(items, 0, input, pos, caps),
            Node::Either(items) => step_alts(items, 0, input, pos, caps),
            Node::Reference(id) => {
                if 0 <= id < caps.len() {
                    match caps[id] {
                        Some(sp) => {
                            let (ok, p2) = ref_scan(input, sp.start as int, sp.end as int, pos);
                            MatchOutcome { ok, pos: p2, caps }
                        },
                        None => MatchOutcome { ok: false, pos, caps },
                    }
                } else {
                    MatchOutcome { ok: false, pos, caps }
                }
            },
            Node::CaptureGroup { id, item } => {
                let r = step(*item, input, pos, caps);
                if r.ok {
                    MatchOutcome {
                        ok: true,
                        pos: r.pos,
                        caps: r.caps.update(
                            id,
                            Some(Span { start: pos as usize, end: r.pos as usize }),
                        ),
                    }
                } else {
                    r
                }
            },
        }
    }
}

/// Greedy repetition after one success: retry the child from the committed
/// position, committing each success, and stop at the first failure or at a
/// success that consumed nothing. The capture state of the last attempt is
/// kept even when that attempt failed.
pub open spec fn step_rep(inner: Node, input: Seq<char>, pos: int, caps: Seq<Option<Span>>) -> MatchOutcome
    decreases inner, input.len() - pos, 1int,
{
    let r = step(inner, input, pos, caps);
    if r.ok && pos < r.pos && r.pos <= input.len() {
        step_rep(inner, input, r.pos, r.caps)
    } else {
        MatchOutcome { ok: true, pos, caps: r.caps }
    }
}

/// A sequence: each element in turn on the live cursor; the first failure
/// fails the whole sequence at once.
pub open spec fn step_items(
    items: Seq<Node>,
    k: int,
    input: Seq<char>,
    pos: int,
    caps: Seq<Option<Span>>,
) -> MatchOutcome
    decreases items, items.len() - k, 0int,
{
    if !(0 <= k < items.len()) {
        MatchOutcome { ok: true, pos, caps }
    } else {
        let r = step(items[k], input, pos, caps);
        if !r.ok {
            MatchOutcome { ok: false, pos: r.pos, caps: r.caps }
        } else {
            step_items(items, k + 1, input, r.pos, r.caps)
        }
    }
}

/// Alternation: branches in order, each from the same position; the first
/// success commits. Captures recorded inside failed branches are kept.
pub open spec fn step_alts(
    items: Seq<Node>,
    k: int,
    input: Seq<char>,
    pos: int,
    caps: Seq<Option<Span>>,
) -> MatchOutcome
    decreases items, items.len() - k, 0int,
{
    if !(0 <= k < items.len()) {
        MatchOutcome { ok: false, pos, caps }
    } else {
        let r = step(items[k], input, pos, caps);
        if r.ok {
            MatchOutcome { ok: true, pos: r.pos, caps: r.caps }
        } else {
            step_alts(items, k + 1, input, pos, r.caps)
        }
    }
}

/// Back-reference text comparison: the captured range `[s, e)` of the line
/// against the input from `pos`, consuming what it read, the mismatching
/// character included.
pub open spec fn ref_scan(input: Seq<char>, s: int, e: int, pos: int) -> (bool, int)
    decreases e - s,
{
    if s >= e {
        (true, pos)
    } else if !(0 <= pos < input.len()) {
        (false, pos)
    } else if input[s] == input[pos] {
        ref_scan(input, s + 1, e, pos + 1)
    } else {
        (false, pos + 1)
    }
}

} // verus!
