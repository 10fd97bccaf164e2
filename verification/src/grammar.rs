//! What parsing does: a mathematical model of the recursive-descent parser.
//!
//! Three mutually recursive levels — alternation, sequence, atom — walk the
//! pattern text under a pair of flags saying which closing tokens end the
//! current context. Each function gives the parse result, the position after
//! it, and the capture-group count after it.

use vstd::prelude::*;

use crate::ast::Node;
use crate::semantics::is_digit_char;

verus! {

/// Why a pattern fails to parse.
#[derive(Clone, Copy, Debug, PartialEq, Eq, Structural)]
pub enum ParseError {
    /// The pattern ended where a character was required.
    UnexpectedEnd,
    /// An escape other than a class letter or a backreference number.
    UnsupportedEscape,
    /// A group with nothing inside its parentheses.
    EmptyGroup,
    /// A group body not followed by its closing parenthesis.
    UnclosedGroup,
    /// A quantifier with no atom before it.
    LeadingQuantifier,
    /// A backreference numbered zero.
    ZeroBackreference,
    /// A backreference to a group not declared yet.
    UnknownBackreference,
    /// A backreference to the group being parsed.
    SelfBackreference,
}

/// Which closing tokens end the current parsing context.
#[derive(Clone, Copy, Debug, PartialEq, Eq, Structural)]
pub struct EndFlags {
    pub rparen: bool,
    pub pipe: bool,
}

impl EndFlags {
    /// No token ends the context: the whole pattern is read.
    pub fn empty() -> (r: EndFlags)
        ensures
            r == (EndFlags { rparen: false, pipe: false }),
    {
        EndFlags { rparen: false, pipe: false }
    }

    /// A closing parenthesis ends the context: a group body.
    pub fn group_body() -> (r: EndFlags)
        ensures
            r == (EndFlags { rparen: true, pipe: false }),
    {
        EndFlags { rparen: true, pipe: false }
    }

    /// The same context with the alternation bar ending it too.
    pub fn with_pipe(self) -> (r: EndFlags)
        ensures
            r == (EndFlags { rparen: self.rparen, pipe: true }),
    {
        EndFlags { rparen: self.rparen, pipe: true }
    }
}

/// The result of one parsing step: what was parsed, the position after it,
/// and the capture-group count after it.
pub ghost struct ParseOutcome {
    pub res: Result<Option<Node>, ParseError>,
    pub pos: int,
    pub count: int,
}

/// The value of a decimal digit character.
pub open spec fn digit_val(c: char) -> int {
    c as u32 - 48
}

/// One more digit on an accumulated backreference number, saturating instead
/// of overflowing; a saturated number is over every possible group count.
pub open spec fn sat_acc(num: int, d: int) -> int {
    if num <= (usize::MAX - 9) / 10 {
        num * 10 + d
    } else {
        usize::MAX as int
    }
}

/// A run of digits from `pos` accumulated onto `num`.
pub open spec fn scan_digits(s: Seq<char>, pos: int, num: int) -> (int, int)
    decreases s.len() - pos,
{
    if 0 <= pos < s.len() && is_digit_char(s[pos]) {
        scan_digits(s, pos + 1, sat_acc(num, digit_val(s[pos])))
    } else {
        (pos, num)
    }
}

/// A run of quantifier suffixes from `pos`, each wrapping the result so far.
pub open spec fn scan_quants(s: Seq<char>, pos: int, item: Node) -> (int, Node)
    decreases s.len() - pos,
{
    if 0 <= pos < s.len() && s[pos] == '+' {
        scan_quants(s, pos + 1, Node::OneOrMore(Box::new(item)))
    } else if 0 <= pos < s.len() && s[pos] == '?' {
        scan_quants(s, pos + 1, Node::ZeroOrOne(Box::new(item)))
    } else {
        (pos, item)
    }
}

/// The members of a bracket set from `pos` up to its closing bracket.
pub open spec fn scan_set(s: Seq<char>, pos: int, acc: Seq<char>) -> Result<(int, Seq<char>), ParseError>
    decreases s.len() - pos,
{
    if !(0 <= pos < s.len()) {
        Err(ParseError::UnexpectedEnd)
    } else if s[pos] == ']' {
        Ok((pos + 1, acc))
    } else {
        scan_set(s, pos + 1, acc.push(s[pos]))
    }
}

/// A further sequence element folded onto the sequence so far.
pub open spec fn list_merge(acc: Node, item: Node) -> Node {
    match acc {
        Node::List(v) => Node::List(v.push(item)),
        _ => Node::List(seq![acc, item]),
    }
}

/// A further alternation branch folded onto the branches so far.
pub open spec fn either_merge(acc: Node, item: Node) -> Node {
    match acc {
        Node::Either(v) => Node::Either(v.push(item)),
        _ => Node::Either(seq![acc, item]),
    }
}

/// Whether the character at `pos` ends a sequence context.
pub open spec fn list_break(s: Seq<char>, pos: int, end: EndFlags) -> bool {
    0 <= pos < s.len() && ((s[pos] == ')' && end.rparen) || (s[pos] == '|' && end.pipe))
}

/// One atom: an escape, a group, a bracket set, an anchor, a wildcard or a
/// literal, without its quantifier suffixes; `Ok(None)` at the end of the
/// text.
pub open spec fn pk_atom(s: Seq<char>, pos: int, count: int, parent: Option<int>) -> ParseOutcome
    decreases s.len() - pos, 0int,
{
    if !(0 <= pos < s.len()) {
        ParseOutcome { res: Ok(None), pos, count }
    } else {
        let c = s[pos];
        if c == '\\' {
            if pos + 1 >= s.len() {
                ParseOutcome { res: Err(ParseError::UnexpectedEnd), pos: pos + 1, count }
            } else {
                let c2 = s[pos + 1];
                if c2 == 'd' {
                    ParseOutcome { res: Ok(Some(Node::Digit)), pos: pos + 2, count }
                } else if c2 == 'w' {
                    ParseOutcome { res: Ok(Some(Node::Alphanumeric)), pos: pos + 2, count }
                } else if is_digit_char(c2) {
                    let (dpos, num) = scan_digits(s, pos + 2, digit_val(c2));
                    if num == 0 {
                        ParseOutcome { res: Err(ParseError::ZeroBackreference), pos: dpos, count }
                    } else if num - 1 >= count {
                        ParseOutcome {
                            res: Err(ParseError::UnknownBackreference),
                            pos: dpos,
                            count,
                        }
                    } else if parent == Some(num - 1) {
                        ParseOutcome { res: Err(ParseError::SelfBackreference), pos: dpos, count }
                    } else {
                        ParseOutcome { res: Ok(Some(Node::Reference(num - 1))), pos: dpos, count }
                    }
                } else {
                    ParseOutcome { res: Err(ParseError::UnsupportedEscape), pos: pos + 2, count }
                }
            }
        } else if c == '(' {
            let r = pk_either(
                s,
                pos + 1,
                count + 1,
                Some(count),
                EndFlags { rparen: true, pipe: false },
            );
            match r.res {
                Err(e) => ParseOutcome { res: Err(e), pos: r.pos, count: r.count },
                Ok(None) => ParseOutcome { res: Err(ParseError::EmptyGroup), pos: r.pos, count: r.count },
                Ok(Some(item)) => {
                    if r.pos >= s.len() {
                        ParseOutcome {
                            res: Err(ParseError::UnexpectedEnd),
                            pos: r.pos,
                            count: r.count,
                        }
                    } else if s[r.pos] != ')' {
                        ParseOutcome {
                            res: Err(ParseError::UnclosedGroup),
                            pos: r.pos + 1,
                            count: r.count,
                        }
                    } else {
                        ParseOutcome {
                            res: Ok(Some(Node::CaptureGroup { id: count, item: Box::new(item) })),
                            pos: r.pos + 1,
                            count: r.count,
                        }
                    }
                },
            }
        } else if c == '[' {
            if pos + 1 >= s.len() {
                ParseOutcome { res: Err(ParseError::UnexpectedEnd), pos: pos + 1, count }
            } else {
                let c2 = s[pos + 1];
                let positive = c2 != '^';
                let acc0: Seq<char> = if positive {
                    seq![c2]
                } else {
                    Seq::empty()
                };
                match scan_set(s, pos + 2, acc0) {
                    Err(e) => ParseOutcome { res: Err(e), pos: s.len() as int, count },
                    Ok((spos, group)) => ParseOutcome {
                        res: Ok(Some(Node::CharacterGroup { positive, group })),
                        pos: spos,
                        count,
                    },
                }
            }
        } else if c == '^' {
            ParseOutcome { res: Ok(Some(Node::StartAnchor)), pos: pos + 1, count }
        } else if c == '$' {
            ParseOutcome { res: Ok(Some(Node::EndAnchor)), pos: pos + 1, count }
        } else if c == '+' || c == '?' {
            ParseOutcome { res: Err(ParseError::LeadingQuantifier), pos: pos + 1, count }
        } else if c == '.' {
            ParseOutcome { res: Ok(Some(Node::Wildcard)), pos: pos + 1, count }
        } else {
            ParseOutcome { res: Ok(Some(Node::Literal(c))), pos: pos + 1, count }
        }
    }
}

/// One atom with its quantifier suffixes applied.
pub open spec fn pk_one(s: Seq<char>, pos: int, count: int, parent: Option<int>) -> ParseOutcome
    decreases s.len() - pos, 1int,
{
    let r = pk_atom(s, pos, count, parent);
    match r.res {
        Ok(Some(item)) => ParseOutcome {
            res: Ok(Some(scan_quants(s, r.pos, item).1)),
            pos: scan_quants(s, r.pos, item).0,
            count: r.count,
        },
        _ => r,
    }
}

/// A sequence: atoms folded left to right until a closing token of this
/// context or the end of the text; `Ok(None)` when the text ends before any
/// atom.
pub open spec fn pk_list(s: Seq<char>, pos: int, count: int, parent: Option<int>, end: EndFlags) -> ParseOutcome
    decreases s.len() - pos, 3int,
{
    let r = pk_one(s, pos, count, parent);
    match r.res {
        Err(_) => r,
        Ok(None) => r,
        Ok(Some(item)) => {
            if pos < r.pos <= s.len() {
                pk_list_loop(s, r.pos, r.count, parent, end, item)
            } else {
                ParseOutcome { res: Ok(Some(item)), pos: r.pos, count: r.count }
            }
        },
    }
}

/// The rest of a sequence after at least one atom.
pub open spec fn pk_list_loop(
    s: Seq<char>,
    pos: int,
    count: int,
    parent: Option<int>,
    end: EndFlags,
    acc: Node,
) -> ParseOutcome
    decreases s.len() - pos, 2int,
{
    if list_break(s, pos, end) {
        ParseOutcome { res: Ok(Some(acc)), pos, count }
    } else {
        let r = pk_one(s, pos, count, parent);
        match r.res {
            Err(e) => ParseOutcome { res: Err(e), pos: r.pos, count: r.count },
            Ok(None) => ParseOutcome { res: Ok(Some(acc)), pos: r.pos, count: r.count },
            Ok(Some(item)) => {
                if pos < r.pos <= s.len() {
                    pk_list_loop(s, r.pos, r.count, parent, end, list_merge(acc, item))
                } else {
                    ParseOutcome {
                        res: Ok(Some(list_merge(acc, item))),
                        pos: r.pos,
                        count: r.count,
                    }
                }
            },
        }
    }
}

/// An alternation: sequences separated by bars, folded left to right;
/// `Ok(None)` when the text ends before any branch.
pub open spec fn pk_either(s: Seq<char>, pos: int, count: int, parent: Option<int>, end: EndFlags) -> ParseOutcome
    decreases s.len() - pos, 5int,
{
    let r = pk_list(s, pos, count, parent, EndFlags { rparen: end.rparen, pipe: true });
    match r.res {
        Err(_) => r,
        Ok(None) => r,
        Ok(Some(item)) => {
            if pos <= r.pos <= s.len() {
                pk_either_loop(s, r.pos, r.count, parent, end, item)
            } else {
                ParseOutcome { res: Ok(Some(item)), pos: r.pos, count: r.count }
            }
        },
    }
}

/// The rest of an alternation after at least one branch: stop unless a bar
/// stands here; consume it and read the next branch.
pub open spec fn pk_either_loop(
    s: Seq<char>,
    pos: int,
    count: int,
    parent: Option<int>,
    end: EndFlags,
    acc: Node,
) -> ParseOutcome
    decreases s.len() - pos, 4int,
{
    if 0 <= pos < s.len() && s[pos] != '|' {
        ParseOutcome { res: Ok(Some(acc)), pos, count }
    } else if 0 <= pos < s.len() {
        let r = pk_list(s, pos + 1, count, parent, EndFlags { rparen: end.rparen, pipe: true });
        match r.res {
            Err(e) => ParseOutcome { res: Err(e), pos: r.pos, count: r.count },
            Ok(None) => ParseOutcome { res: Ok(Some(acc)), pos: r.pos, count: r.count },
            Ok(Some(item)) => {
                if pos < r.pos <= s.len() {
                    pk_either_loop(s, r.pos, r.count, parent, end, either_merge(acc, item))
                } else {
                    ParseOutcome {
                        res: Ok(Some(either_merge(acc, item))),
                        pos: r.pos,
                        count: r.count,
                    }
                }
            },
        }
    } else {
        ParseOutcome { res: Ok(Some(acc)), pos, count }
    }
}

} // verus!
