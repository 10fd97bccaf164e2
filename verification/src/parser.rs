//! The executable parser, verified against the model in `grammar`.

use vstd::prelude::*;

use crate::ast::Node;
use crate::ast::Pattern;
use crate::ast::lemma_node_of_literal;
use crate::ast::lemma_node_shape;
use crate::ast::lemma_nodes_of_push;
use crate::ast::lemma_wf_mono;
use crate::ast::lemma_wf_nodes_push;
use crate::ast::node_of;
use crate::ast::nodes_of;
use crate::ast::wf_node;
use crate::ast::wf_nodes;
use crate::grammar::EndFlags;
use crate::grammar::ParseError;
use crate::grammar::ParseOutcome;
use crate::grammar::either_merge;
use crate::grammar::list_merge;
use crate::grammar::pk_atom;
use crate::grammar::pk_either;
use crate::grammar::pk_either_loop;
use crate::grammar::pk_list;
use crate::grammar::pk_list_loop;
use crate::grammar::pk_one;
use crate::grammar::scan_digits;
use crate::grammar::scan_quants;
use crate::grammar::scan_set;

verus! {

/// A position over the pattern text.
pub struct PatternIter {
    pub chars: Vec<char>,
    pub pos: usize,
}

impl PatternIter {
    /// A cursor at the start of the pattern text.
    pub fn new(chars: Vec<char>) -> (r: PatternIter)
        ensures
            r.chars@ == chars@,
            r.pos == 0,
    {
        PatternIter { chars, pos: 0 }
    }
}

/// The enclosing capture-group id as the model sees it.
pub open spec fn opt_id(p: Option<usize>) -> Option<int> {
    match p {
        Some(u) => Some(u as int),
        None => None,
    }
}

/// A parse result as the model sees it.
pub open spec fn res_view(r: Result<Option<Pattern>, ParseError>) -> Result<Option<Node>, ParseError> {
    match r {
        Ok(None) => Ok(None),
        Ok(Some(p)) => Ok(Some(node_of(p))),
        Err(e) => Err(e),
    }
}

/// A run of digits accumulated onto `num0`, saturating far above any
/// possible group count instead of overflowing.
#[verifier::loop_isolation(false)]
fn scan_digits_exec(iter: &mut PatternIter, num0: usize) -> (num: usize)
    requires
        old(iter).pos <= old(iter).chars@.len(),
    ensures
        final(iter).chars@ == old(iter).chars@,
        old(iter).pos <= final(iter).pos <= final(iter).chars@.len(),
        ({
            let m = scan_digits(old(iter).chars@, old(iter).pos as int, num0 as int);
            final(iter).pos as int == m.0 && num as int == m.1
        }),
{
    let mut num = num0;
    loop
        invariant
            iter.chars@ == old(iter).chars@,
            old(iter).pos <= iter.pos <= iter.chars@.len(),
            scan_digits(old(iter).chars@, old(iter).pos as int, num0 as int) == scan_digits(
                iter.chars@,
                iter.pos as int,
                num as int,
            ),
        decreases iter.chars@.len() - iter.pos,
    {
        if iter.pos >= iter.chars.len() {
            return num;
        }
        let c = iter.chars[iter.pos];
        let u = c as u32;
        if !(48 <= u && u <= 57) {
            return num;
        }
        let d = (u - 48) as usize;
        iter.pos = iter.pos + 1;
        let cap = (usize::MAX - 9) / 10;
        proof {
            assert(cap * 10 <= usize::MAX - 9);
        }
        num = if num <= cap {
            num * 10 + d
        } else {
            usize::MAX
        };
    }
}

/// A run of quantifier suffixes, each wrapping the atom parsed so far.
#[verifier::loop_isolation(false)]
fn scan_quants_exec(iter: &mut PatternIter, item0: Pattern) -> (r: Pattern)
    requires
        old(iter).pos <= old(iter).chars@.len(),
    ensures
        final(iter).chars@ == old(iter).chars@,
        old(iter).pos <= final(iter).pos <= final(iter).chars@.len(),
        ({
            let m = scan_quants(old(iter).chars@, old(iter).pos as int, node_of(item0));
            final(iter).pos as int == m.0 && node_of(r) == m.1
        }),
        res_view(Ok::<Option<Pattern>, ParseError>(Some(r))) == Ok::<Option<Node>, ParseError>(
            Some(scan_quants(old(iter).chars@, old(iter).pos as int, node_of(item0)).1),
        ),
        forall|g: nat| wf_node(node_of(item0), g) ==> #[trigger] wf_node(node_of(r), g),
{
    let mut item = item0;
    loop
        invariant
            iter.chars@ == old(iter).chars@,
            old(iter).pos <= iter.pos <= iter.chars@.len(),
            scan_quants(old(iter).chars@, old(iter).pos as int, node_of(item0)) == scan_quants(
                iter.chars@,
                iter.pos as int,
                node_of(item),
            ),
            forall|g: nat| wf_node(node_of(item0), g) ==> #[trigger] wf_node(node_of(item), g),
        decreases iter.chars@.len() - iter.pos,
    {
        if iter.pos >= iter.chars.len() {
            return item;
        }
        let c = iter.chars[iter.pos];
        let ghost prev_node = node_of(item);
        if c == '+' {
            iter.pos = iter.pos + 1;
            item = Pattern::OneOrMore(Box::new(item));
            proof {
                assert(node_of(item) == Node::OneOrMore(Box::new(prev_node)));
                assert forall|g: nat| wf_node(prev_node, g) implies #[trigger] wf_node(
                    node_of(item),
                    g,
                ) by {}
            }
        } else if c == '?' {
            iter.pos = iter.pos + 1;
            item = Pattern::ZeroOrOne(Box::new(item));
            proof {
                assert(node_of(item) == Node::ZeroOrOne(Box::new(prev_node)));
                assert forall|g: nat| wf_node(prev_node, g) implies #[trigger] wf_node(
                    node_of(item),
                    g,
                ) by {}
            }
        } else {
            return item;
        }
    }
}

/// The members of a bracket set up to its closing bracket.
#[verifier::loop_isolation(false)]
fn scan_set_exec(iter: &mut PatternIter, group: &mut Vec<char>) -> (r: Result<(), ParseError>)
    requires
        old(iter).pos <= old(iter).chars@.len(),
    ensures
        final(iter).chars@ == old(iter).chars@,
        old(iter).pos <= final(iter).pos <= final(iter).chars@.len(),
        ({
            let m = scan_set(old(iter).chars@, old(iter).pos as int, old(group)@);
            match (r, m) {
                (Ok(_), Ok((p2, g2))) => final(iter).pos as int == p2 && final(group)@ == g2,
                (Err(e), Err(e2)) => e == e2 && final(iter).pos == final(iter).chars@.len(),
                _ => false,
            }
        }),
{
    loop
        invariant
            iter.chars@ == old(iter).chars@,
            old(iter).pos <= iter.pos <= iter.chars@.len(),
            scan_set(old(iter).chars@, old(iter).pos as int, old(group)@) == scan_set(
                iter.chars@,
                iter.pos as int,
                group@,
            ),
        decreases iter.chars@.len() - iter.pos,
    {
        if iter.pos >= iter.chars.len() {
            return Err(ParseError::UnexpectedEnd);
        }
        let c = iter.chars[iter.pos];
        iter.pos = iter.pos + 1;
        if c == ']' {
            return Ok(());
        }
        group.push(c);
    }
}

impl Pattern {
    /// One atom without its quantifier suffixes; `Ok(None)` at the end of
    /// the text.
    #[verifier::loop_isolation(false)]
    #[verifier::rlimit(100)]
    fn parse_atom(
        iter: &mut PatternIter,
        capture_group_count: &mut usize,
        parent_capture_group: Option<usize>,
    ) -> (r: Result<Option<Pattern>, ParseError>)
        requires
            old(iter).pos <= old(iter).chars@.len(),
            *old(capture_group_count) + old(iter).chars@.len() - old(iter).pos <= usize::MAX,
        ensures
            final(iter).chars@ == old(iter).chars@,
            old(iter).pos <= final(iter).pos <= final(iter).chars@.len(),
            *old(capture_group_count) <= *final(capture_group_count),
            *final(capture_group_count) - *old(capture_group_count)
                <= final(iter).pos - old(iter).pos,
            *final(capture_group_count) + final(iter).chars@.len() - final(iter).pos
                <= usize::MAX,
            (r matches Ok(Some(_))) ==> old(iter).pos < final(iter).pos,
            (match r {
                Ok(Some(p)) => wf_node(node_of(p), *final(capture_group_count) as nat),
                _ => true,
            }),
            ({
                let m = pk_atom(
                    old(iter).chars@,
                    old(iter).pos as int,
                    *old(capture_group_count) as int,
                    opt_id(parent_capture_group),
                );
                res_view(r) == m.res && final(iter).pos as int == m.pos
                    && *final(capture_group_count) as int == m.count
            }),
        decreases old(iter).chars@.len() - old(iter).pos, 0int,
    {
        let ghost s = iter.chars@;
        let ghost pos0 = iter.pos as int;
        let ghost count0 = *capture_group_count as int;
        let ghost pv = opt_id(parent_capture_group);
        if iter.pos >= iter.chars.len() {
            return Ok(None);
        }
        let c = iter.chars[iter.pos];
        iter.pos = iter.pos + 1;
        if c == '\\' {
            if iter.pos >= iter.chars.len() {
                return Err(ParseError::UnexpectedEnd);
            }
            let c2 = iter.chars[iter.pos];
            iter.pos = iter.pos + 1;
            if c2 == 'd' {
                {
                    let a = Pattern::Digit;
                    let ghost an = node_of(a);
                    proof {
                        assert(pk_atom(s, pos0, count0, pv) == (ParseOutcome {
                            res: Ok::<Option<Node>, ParseError>(Some(an)),
                            pos: iter.pos as int,
                            count: *capture_group_count as int,
                        }));
                        assert(wf_node(an, *capture_group_count as nat));
                    }
                    return Ok(Some(a));
               }
            } else if c2 == 'w' {
                {
                    let a = Pattern::Alphanumeric;
                    let ghost an = node_of(a);
                    proof {
                        assert(pk_atom(s, pos0, count0, pv) == (ParseOutcome {
                            res: Ok::<Option<Node>, ParseError>(Some(an)),
                            pos: iter.pos as int,
                            count: *capture_group_count as int,
                        }));
                        assert(wf_node(an, *capture_group_count as nat));
                    }
                    return Ok(Some(a));
               }
            } else {
                let u2 = c2 as u32;
                if 48 <= u2 && u2 <= 57 {
                    let d0 = (u2 - 48) as usize;
                    let num = scan_digits_exec(iter, d0);
                    if num == 0 {
                        return Err(ParseError::ZeroBackreference);
                    }
                    let id = num - 1;
                    if id >= *capture_group_count {
                        return Err(ParseError::UnknownBackreference);
                    }
                    match parent_capture_group {
                        Some(parent) => {
                            if parent == id {
                                return Err(ParseError::SelfBackreference);
                            }
                        },
                        None => {},
                    }
                    {
                        let a = Pattern::Reference(id);
                        let ghost an = node_of(a);
                        proof {
                            assert(pk_atom(s, pos0, count0, pv) == (ParseOutcome {
                                res: Ok::<Option<Node>, ParseError>(Some(an)),
                                pos: iter.pos as int,
                                count: *capture_group_count as int,
                            }));
                            assert(wf_node(an, *capture_group_count as nat));
                        }
                        return Ok(Some(a));
                   }
                } else {
                    return Err(ParseError::UnsupportedEscape);
                }
            }
        } else if c == '(' {
            let id = *capture_group_count;
            *capture_group_count = *capture_group_count + 1;
            match Self::parse_either(iter, EndFlags::group_body(), capture_group_count, Some(id)) {
                Err(e) => {
                    return Err(e);
                },
                Ok(None) => {
                    return Err(ParseError::EmptyGroup);
                },
                Ok(Some(body)) => {
                    if iter.pos >= iter.chars.len() {
                        return Err(ParseError::UnexpectedEnd);
                    }
                    let c3 = iter.chars[iter.pos];
                    iter.pos = iter.pos + 1;
                    if c3 != ')' {
                        return Err(ParseError::UnclosedGroup);
                    }
                    {
                        let a = Pattern::CaptureGroup { id, item: Box::new(body) };
                        let ghost an = node_of(a);
                        proof {
                            assert(pk_atom(s, pos0, count0, pv) == (ParseOutcome {
                                res: Ok::<Option<Node>, ParseError>(Some(an)),
                                pos: iter.pos as int,
                                count: *capture_group_count as int,
                            }));
                            assert(wf_node(an, *capture_group_count as nat));
                        }
                        return Ok(Some(a));
                   }
                },
            }
        } else if c == '[' {
            if iter.pos >= iter.chars.len() {
                return Err(ParseError::UnexpectedEnd);
            }
            let c2 = iter.chars[iter.pos];
            iter.pos = iter.pos + 1;
            let mut group: Vec<char> = Vec::new();
            let positive = if c2 == '^' {
                false
            } else {
                group.push(c2);
                true
            };
            proof {
                if positive {
                    assert(group@ =~= seq![c2]);
                } else {
                    assert(group@ =~= Seq::<char>::empty());
                }
            }
            match scan_set_exec(iter, &mut group) {
                Err(e) => {
                    return Err(e);
                },
                Ok(_) => {},
            }
            {
                let a = Pattern::CharacterGroup { positive, group };
                let ghost an = node_of(a);
                proof {
                    assert(pk_atom(s, pos0, count0, pv) == (ParseOutcome {
                        res: Ok::<Option<Node>, ParseError>(Some(an)),
                        pos: iter.pos as int,
                        count: *capture_group_count as int,
                    }));
                    assert(wf_node(an, *capture_group_count as nat));
                }
                return Ok(Some(a));
                }
        } else if c == '^' {
            {
                let a = Pattern::StartAnchor;
                let ghost an = node_of(a);
                proof {
                    assert(pk_atom(s, pos0, count0, pv) == (ParseOutcome {
                        res: Ok::<Option<Node>, ParseError>(Some(an)),
                        pos: iter.pos as int,
                        count: *capture_group_count as int,
                    }));
                    assert(wf_node(an, *capture_group_count as nat));
                }
                return Ok(Some(a));
                }
        } else if c == '$' {
            {
                let a = Pattern::EndAnchor;
                let ghost an = node_of(a);
                proof {
                    assert(pk_atom(s, pos0, count0, pv) == (ParseOutcome {
                        res: Ok::<Option<Node>, ParseError>(Some(an)),
                        pos: iter.pos as int,
                        count: *capture_group_count as int,
                    }));
                    assert(wf_node(an, *capture_group_count as nat));
                }
                return Ok(Some(a));
                }
        } else if c == '+' || c == '?' {
            return Err(ParseError::LeadingQuantifier);
        } else if c == '.' {
            {
                let a = Pattern::Wildcard;
                let ghost an = node_of(a);
                proof {
                    assert(pk_atom(s, pos0, count0, pv) == (ParseOutcome {
                        res: Ok::<Option<Node>, ParseError>(Some(an)),
                        pos: iter.pos as int,
                        count: *capture_group_count as int,
                    }));
                    assert(wf_node(an, *capture_group_count as nat));
                }
                return Ok(Some(a));
                }
        } else {
            {
                let a = Pattern::Literal(c);
                let ghost an = node_of(a);
                proof {
                    lemma_node_of_literal(c, *capture_group_count as nat);
                    assert(pk_atom(s, pos0, count0, pv) == (ParseOutcome {
                        res: Ok::<Option<Node>, ParseError>(Some(an)),
                        pos: iter.pos as int,
                        count: *capture_group_count as int,
                    }));
                    assert(wf_node(an, *capture_group_count as nat));
                }
                return Ok(Some(a));
                }
        }
    }

    /// One atom with its quantifier suffixes; `Ok(None)` at the end of the
    /// text. The result, the cursor and the group count afterwards are
    /// exactly what the grammar model gives.
    #[verifier::loop_isolation(false)]
    pub fn parse_one(
        iter: &mut PatternIter,
        capture_group_count: &mut usize,
        parent_capture_group: Option<usize>,
    ) -> (r: Result<Option<Pattern>, ParseError>)
        requires
            old(iter).pos <= old(iter).chars@.len(),
            *old(capture_group_count) + old(iter).chars@.len() - old(iter).pos <= usize::MAX,
        ensures
            final(iter).chars@ == old(iter).chars@,
            old(iter).pos <= final(iter).pos <= final(iter).chars@.len(),
            *old(capture_group_count) <= *final(capture_group_count),
            *final(capture_group_count) - *old(capture_group_count)
                <= final(iter).pos - old(iter).pos,
            *final(capture_group_count) + final(iter).chars@.len() - final(iter).pos
                <= usize::MAX,
            (r matches Ok(Some(_))) ==> old(iter).pos < final(iter).pos,
            (match r {
                Ok(Some(p)) => wf_node(node_of(p), *final(capture_group_count) as nat),
                _ => true,
            }),
            ({
                let m = pk_one(
                    old(iter).chars@,
                    old(iter).pos as int,
                    *old(capture_group_count) as int,
                    opt_id(parent_capture_group),
                );
                res_view(r) == m.res && final(iter).pos as int == m.pos
                    && *final(capture_group_count) as int == m.count
            }),
        decreases old(iter).chars@.len() - old(iter).pos, 1int,
    {
        let ghost s = iter.chars@;
        let ghost pos0 = iter.pos as int;
        let ghost count0 = *capture_group_count as int;
        let ghost pv = opt_id(parent_capture_group);
        match Self::parse_atom(iter, capture_group_count, parent_capture_group) {
            Err(e) => Err(e),
            Ok(None) => Ok(None),
            Ok(Some(item)) => {
                let ghost an = node_of(item);
                let ghost posa = iter.pos as int;
                proof {
                    assert(pk_one(s, pos0, count0, pv) == (ParseOutcome {
                        res: Ok::<Option<Node>, ParseError>(Some(scan_quants(s, posa, an).1)),
                        pos: scan_quants(s, posa, an).0,
                        count: *capture_group_count as int,
                    }));
                }
                let done = scan_quants_exec(iter, item);
                Ok(Some(done))
            },
        }
    }

    /// A sequence of atoms up to a closing token of this context or the end
    /// of the text; `Ok(None)` when the text ends before any atom.
    #[verifier::loop_isolation(false)]
    pub fn parse_list(
        iter: &mut PatternIter,
        end: EndFlags,
        capture_group_count: &mut usize,
        parent_capture_group: Option<usize>,
    ) -> (r: Result<Option<Pattern>, ParseError>)
        requires
            old(iter).pos <= old(iter).chars@.len(),
            *old(capture_group_count) + old(iter).chars@.len() - old(iter).pos <= usize::MAX,
        ensures
            final(iter).chars@ == old(iter).chars@,
            old(iter).pos <= final(iter).pos <= final(iter).chars@.len(),
            *old(capture_group_count) <= *final(capture_group_count),
            *final(capture_group_count) - *old(capture_group_count)
                <= final(iter).pos - old(iter).pos,
            *final(capture_group_count) + final(iter).chars@.len() - final(iter).pos
                <= usize::MAX,
            (r matches Ok(Some(_))) ==> old(iter).pos < final(iter).pos,
            (match r {
                Ok(Some(p)) => wf_node(node_of(p), *final(capture_group_count) as nat),
                _ => true,
            }),
            ({
                let m = pk_list(
                    old(iter).chars@,
                    old(iter).pos as int,
                    *old(capture_group_count) as int,
                    opt_id(parent_capture_group),
                    end,
                );
                res_view(r) == m.res && final(iter).pos as int == m.pos
                    && *final(capture_group_count) as int == m.count
            }),
        decreases old(iter).chars@.len() - old(iter).pos, 2int,
    {
        let ghost s = iter.chars@;
        let ghost pos0 = iter.pos as int;
        let ghost count0 = *capture_group_count as int;
        let ghost pv = opt_id(parent_capture_group);
        let mut acc = match Self::parse_one(iter, capture_group_count, parent_capture_group) {
            Err(e) => {
                return Err(e);
            },
            Ok(None) => {
                return Ok(None);
            },
            Ok(Some(p)) => p,
        };
        loop
            invariant
                iter.chars@ == s,
                pos0 < iter.pos as int,
                iter.pos <= s.len(),
                count0 <= *capture_group_count as int,
                *capture_group_count as int - count0 <= iter.pos as int - pos0,
                *capture_group_count + s.len() - iter.pos <= usize::MAX,
                wf_node(node_of(acc), *capture_group_count as nat),
                pk_list(s, pos0, count0, pv, end) == pk_list_loop(
                    s,
                    iter.pos as int,
                    *capture_group_count as int,
                    pv,
                    end,
                    node_of(acc),
                ),
            decreases s.len() - iter.pos,
        {
            if iter.pos < iter.chars.len() {
                let c = iter.chars[iter.pos];
                if (c == ')' && end.rparen) || (c == '|' && end.pipe) {
                    return Ok(Some(acc));
                }
            }
            let ghost loop_count = *capture_group_count as nat;
            match Self::parse_one(iter, capture_group_count, parent_capture_group) {
                Err(e) => {
                    return Err(e);
                },
                Ok(None) => {
                    proof {
                        lemma_wf_mono(node_of(acc), loop_count, *capture_group_count as nat);
                    }
                    return Ok(Some(acc));
                },
                Ok(Some(item)) => {
                    proof {
                        lemma_wf_mono(node_of(acc), loop_count, *capture_group_count as nat);
                        lemma_node_shape(acc);
                    }
                    let ghost acc_node = node_of(acc);
                    let ghost item_node = node_of(item);
                    acc = match acc {
                        Pattern::List(mut v) => {
                            proof {
                                lemma_nodes_of_push(v@, item);
                                lemma_wf_nodes_push(
                                    nodes_of(v@),
                                    node_of(item),
                                    *capture_group_count as nat,
                                );
                            }
                            v.push(item);
                            Pattern::List(v)
                        },
                        prev => {
                            let mut v: Vec<Pattern> = Vec::new();
                            v.push(prev);
                            v.push(item);
                            proof {
                                assert(v@.len() == 2);
                                assert(node_of(v@[0]) == acc_node);
                                assert(node_of(v@[1]) == item_node);
                                assert(v@.drop_last().drop_last() =~= Seq::<Pattern>::empty());
                                assert(v@.drop_last().last() == v@[0]);
                                assert(nodes_of(Seq::<Pattern>::empty()) =~= Seq::<Node>::empty());
                                assert(nodes_of(v@.drop_last()) =~= seq![acc_node]);
                                assert(nodes_of(v@) =~= seq![acc_node, item_node]);
                                let cnt = *capture_group_count as nat;
                                assert(wf_nodes(Seq::<Node>::empty(), cnt));
                                lemma_wf_nodes_push(Seq::<Node>::empty(), acc_node, cnt);
                                assert(Seq::<Node>::empty().push(acc_node) =~= seq![acc_node]);
                                lemma_wf_nodes_push(seq![acc_node], item_node, cnt);
                                assert(seq![acc_node].push(item_node) =~= seq![
                                    acc_node,
                                    item_node,
                                ]);
                            }
                            Pattern::List(v)
                        },
                    };
                    proof {
                        assert(node_of(acc) == list_merge(acc_node, item_node));
                        assert(wf_node(node_of(acc), *capture_group_count as nat));
                    }
                },
            }
        }
    }

    /// An alternation: sequences separated by bars; `Ok(None)` when the text
    /// ends before any branch.
    #[verifier::loop_isolation(false)]
    pub fn parse_either(
        iter: &mut PatternIter,
        end: EndFlags,
        capture_group_count: &mut usize,
        parent_capture_group: Option<usize>,
    ) -> (r: Result<Option<Pattern>, ParseError>)
        requires
            old(iter).pos <= old(iter).chars@.len(),
            *old(capture_group_count) + old(iter).chars@.len() - old(iter).pos <= usize::MAX,
        ensures
            final(iter).chars@ == old(iter).chars@,
            old(iter).pos <= final(iter).pos <= final(iter).chars@.len(),
            *old(capture_group_count) <= *final(capture_group_count),
            *final(capture_group_count) - *old(capture_group_count)
                <= final(iter).pos - old(iter).pos,
            *final(capture_group_count) + final(iter).chars@.len() - final(iter).pos
                <= usize::MAX,
            (r matches Ok(Some(_))) ==> old(iter).pos < final(iter).pos,
            (match r {
                Ok(Some(p)) => wf_node(node_of(p), *final(capture_group_count) as nat),
                _ => true,
            }),
            ({
                let m = pk_either(
                    old(iter).chars@,
                    old(iter).pos as int,
                    *old(capture_group_count) as int,
                    opt_id(parent_capture_group),
                    end,
                );
                res_view(r) == m.res && final(iter).pos as int == m.pos
                    && *final(capture_group_count) as int == m.count
            }),
        decreases old(iter).chars@.len() - old(iter).pos, 4int,
    {
        let ghost s = iter.chars@;
        let ghost pos0 = iter.pos as int;
        let ghost count0 = *capture_group_count as int;
        let ghost pv = opt_id(parent_capture_group);
        let mut acc = match Self::parse_list(
            iter,
            end.with_pipe(),
            capture_group_count,
            parent_capture_group,
        ) {
            Err(e) => {
                return Err(e);
            },
            Ok(None) => {
                return Ok(None);
            },
            Ok(Some(p)) => p,
        };
        loop
            invariant
                iter.chars@ == s,
                pos0 < iter.pos as int,
                iter.pos <= s.len(),
                count0 <= *capture_group_count as int,
                *capture_group_count as int - count0 <= iter.pos as int - pos0,
                *capture_group_count + s.len() - iter.pos <= usize::MAX,
                wf_node(node_of(acc), *capture_group_count as nat),
                pk_either(s, pos0, count0, pv, end) == pk_either_loop(
                    s,
                    iter.pos as int,
                    *capture_group_count as int,
                    pv,
                    end,
                    node_of(acc),
                ),
            decreases s.len() - iter.pos,
        {
            if iter.pos >= iter.chars.len() {
                return Ok(Some(acc));
            }
            let c = iter.chars[iter.pos];
            if c != '|' {
                return Ok(Some(acc));
            }
            iter.pos = iter.pos + 1;
            let ghost loop_count = *capture_group_count as nat;
            match Self::parse_list(iter, end.with_pipe(), capture_group_count, parent_capture_group) {
                Err(e) => {
                    return Err(e);
                },
                Ok(None) => {
                    proof {
                        lemma_wf_mono(node_of(acc), loop_count, *capture_group_count as nat);
                    }
                    return Ok(Some(acc));
                },
                Ok(Some(item)) => {
                    proof {
                        lemma_wf_mono(node_of(acc), loop_count, *capture_group_count as nat);
                        lemma_node_shape(acc);
                    }
                    let ghost acc_node = node_of(acc);
                    let ghost item_node = node_of(item);
                    acc = match acc {
                        Pattern::Either(mut v) => {
                            proof {
                                lemma_nodes_of_push(v@, item);
                                lemma_wf_nodes_push(
                                    nodes_of(v@),
                                    node_of(item),
                                    *capture_group_count as nat,
                                );
                            }
                            v.push(item);
                            Pattern::Either(v)
                        },
                        prev => {
                            let mut v: Vec<Pattern> = Vec::new();
                            v.push(prev);
                            v.push(item);
                            proof {
                                assert(v@.len() == 2);
                                assert(node_of(v@[0]) == acc_node);
                                assert(node_of(v@[1]) == item_node);
                                assert(v@.drop_last().drop_last() =~= Seq::<Pattern>::empty());
                                assert(v@.drop_last().last() == v@[0]);
                                assert(nodes_of(Seq::<Pattern>::empty()) =~= Seq::<Node>::empty());
                                assert(nodes_of(v@.drop_last()) =~= seq![acc_node]);
                                assert(nodes_of(v@) =~= seq![acc_node, item_node]);
                                let cnt = *capture_group_count as nat;
                                assert(wf_nodes(Seq::<Node>::empty(), cnt));
                                lemma_wf_nodes_push(Seq::<Node>::empty(), acc_node, cnt);
                                assert(Seq::<Node>::empty().push(acc_node) =~= seq![acc_node]);
                                lemma_wf_nodes_push(seq![acc_node], item_node, cnt);
                                assert(seq![acc_node].push(item_node) =~= seq![
                                    acc_node,
                                    item_node,
                                ]);
                            }
                            Pattern::Either(v)
                        },
                    };
                    proof {
                        assert(node_of(acc) == either_merge(acc_node, item_node));
                        assert(wf_node(node_of(acc), *capture_group_count as nat));
                    }
                },
            }
        }
    }
}

/// Parse a whole pattern: the syntax tree and its capture-group count;
/// `Ok(None)` for the empty pattern, a syntax error for malformed input.
pub fn parse(pattern: Vec<char>) -> (r: Result<Option<(Pattern, usize)>, ParseError>)
    ensures
        ({
            let m = pk_either(pattern@, 0, 0, None, EndFlags { rparen: false, pipe: false });
            match r {
                Ok(Some((p, count))) => m.res == Ok::<Option<Node>, ParseError>(Some(node_of(p))) && count as int == m.count
                    && wf_node(node_of(p), count as nat),
                Ok(None) => m.res == Ok::<Option<Node>, ParseError>(None),
                Err(e) => m.res == Err::<Option<Node>, ParseError>(e),
            }
        }),
{
    let mut it = PatternIter::new(pattern);
    let mut count: usize = 0;
    let n = it.chars.len();
    proof {
        assert(it.chars@.len() == n);
    }
    match Pattern::parse_either(&mut it, EndFlags::empty(), &mut count, None) {
        Err(e) => Err(e),
        Ok(None) => Ok(None),
        Ok(Some(p)) => Ok(Some((p, count))),
    }
}

} // verus!
