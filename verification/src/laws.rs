//! Laws of the matcher, proved once and for all inputs.

use vstd::prelude::*;

use crate::ast::Node;
use crate::ast::Span;
use crate::grammar::EndFlags;
use crate::grammar::ParseError;
use crate::grammar::ParseOutcome;
use crate::grammar::list_merge;
use crate::grammar::pk_either;
use crate::grammar::pk_either_loop;
use crate::grammar::pk_list;
use crate::grammar::pk_list_loop;
use crate::grammar::pk_one;
use crate::search::attempt_at;
use crate::search::empty_caps;
use crate::search::search_found;
use crate::semantics::MatchOutcome;
use crate::semantics::step;
use crate::semantics::step_items;
use crate::semantics::step_rep;

verus! {

/// The nodes spell out a text: one literal node per character.
pub open spec fn spells(items: Seq<Node>, pat: Seq<char>) -> bool {
    items.len() == pat.len() && forall|j: int|
        0 <= j < pat.len() ==> items[j] == Node::Literal(pat[j])
}

/// What a literal-only pattern parses to: one literal node, or a sequence of
/// them.
pub open spec fn literal_only(n: Node, pat: Seq<char>) -> bool {
    if pat.len() == 1 {
        n == Node::Literal(pat[0])
    } else {
        n matches Node::List(items) && spells(items, pat)
    }
}

/// The text occurs as a contiguous substring of the line at offset `s`.
pub open spec fn occurs_at(line: Seq<char>, pat: Seq<char>, s: int) -> bool {
    0 <= s && s + pat.len() <= line.len() && line.subrange(s, s + pat.len()) == pat
}

/// A bracket set matches a position exactly when the character there is a
/// member of the set (positive) or a non-member (negated), consuming one
/// character and leaving the captures alone.
pub proof fn law_character_group(
    positive: bool,
    group: Seq<char>,
    input: Seq<char>,
    pos: int,
    caps: Seq<Option<Span>>,
)
    requires
        0 <= pos < input.len(),
    ensures
        ({
            let m = step(Node::CharacterGroup { positive, group }, input, pos, caps);
            m.ok == (group.contains(input[pos]) == positive) && m.pos == pos + 1 && m.caps
                == caps
        }),
{
}

/// The end of the run of `c` starting at `pos`.
pub open spec fn run_end(input: Seq<char>, pos: int, c: char) -> int
    decreases input.len() - pos,
{
    if 0 <= pos < input.len() && input[pos] == c {
        run_end(input, pos + 1, c)
    } else {
        pos
    }
}

proof fn lemma_rep_literal(c: char, input: Seq<char>, pos: int, caps: Seq<Option<Span>>)
    requires
        0 <= pos <= input.len(),
    ensures
        step_rep(Node::Literal(c), input, pos, caps) == (MatchOutcome {
            ok: true,
            pos: run_end(input, pos, c),
            caps,
        }),
    decreases input.len() - pos,
{
    let r = step(Node::Literal(c), input, pos, caps);
    if pos < input.len() {
        assert(r == (MatchOutcome { ok: input[pos] == c, pos: pos + 1, caps }));
    } else {
        assert(r == (MatchOutcome { ok: false, pos, caps }));
    }
    if 0 <= pos < input.len() && input[pos] == c {
        lemma_rep_literal(c, input, pos + 1, caps);
    }
}

/// A repeated literal is greedy: it matches exactly when the character
/// stands at the position, and then consumes the whole maximal run of that
/// character, the captures untouched.
pub proof fn law_one_or_more_literal(c: char, input: Seq<char>, pos: int, caps: Seq<Option<Span>>)
    requires
        0 <= pos <= input.len(),
    ensures
        ({
            let m = step(Node::OneOrMore(Box::new(Node::Literal(c))), input, pos, caps);
            m.ok == (pos < input.len() && input[pos] == c) && m.caps == caps && (m.ok ==> m.pos
                == run_end(input, pos, c))
        }),
{
    let first = step(Node::Literal(c), input, pos, caps);
    if pos < input.len() {
        assert(first == (MatchOutcome { ok: input[pos] == c, pos: pos + 1, caps }));
    } else {
        assert(first == (MatchOutcome { ok: false, pos, caps }));
    }
    if pos < input.len() && input[pos] == c {
        lemma_rep_literal(c, input, pos + 1, caps);
        assert(step(Node::OneOrMore(Box::new(Node::Literal(c))), input, pos, caps)
            == step_rep(Node::Literal(c), input, pos + 1, caps));
    }
}

/// A run of literal nodes matches exactly the same characters, one each,
/// and leaves the captures alone.
proof fn lemma_literal_tail(
    items: Seq<Node>,
    k: int,
    lits: Seq<char>,
    line: Seq<char>,
    pos: int,
    caps: Seq<Option<Span>>,
)
    requires
        0 <= k <= items.len(),
        items.len() - k == lits.len(),
        forall|j: int| 0 <= j < lits.len() ==> items[k + j] == Node::Literal(lits[j]),
        0 <= pos <= line.len(),
    ensures
        ({
            let m = step_items(items, k, line, pos, caps);
            m.caps == caps && (m.ok <==> (pos + lits.len() <= line.len() && forall|j: int|
                0 <= j < lits.len() ==> line[pos + j] == lits[j])) && (m.ok ==> m.pos == pos
                + lits.len())
        }),
    decreases lits.len(),
{
    if lits.len() > 0 {
        assert(items[k] == Node::Literal(lits[0]));
        let r = step(items[k], line, pos, caps);
        if pos < line.len() {
            assert(r == (MatchOutcome { ok: line[pos] == lits[0], pos: pos + 1, caps }));
        } else {
            assert(r == (MatchOutcome { ok: false, pos, caps }));
        }
        if pos < line.len() && line[pos] == lits[0] {
            assert(step_items(items, k, line, pos, caps) == step_items(
                items,
                k + 1,
                line,
                pos + 1,
                caps,
            ));
            lemma_literal_tail(items, k + 1, lits.subrange(1, lits.len() as int), line, pos + 1, caps);
            let rest = lits.subrange(1, lits.len() as int);
            assert forall|j: int| 0 <= j < rest.len() implies items[k + 1 + j] == Node::Literal(
                rest[j],
            ) by {
                assert(items[k + 1 + j] == Node::Literal(lits[j + 1]));
            }
            let m2 = step_items(items, k + 1, line, pos + 1, caps);
            if m2.ok {
                assert forall|j: int| 0 <= j < lits.len() implies line[pos + j] == lits[j] by {
                    if j > 0 {
                        assert(line[(pos + 1) + (j - 1)] == rest[j - 1]);
                    }
                }
            } else {
                if pos + lits.len() <= line.len() && forall|j: int|
                    0 <= j < lits.len() ==> line[pos + j] == lits[j] {
                    assert forall|j: int| 0 <= j < rest.len() implies line[(pos + 1) + j]
                        == rest[j] by {
                        assert(line[pos + (j + 1)] == lits[j + 1]);
                    }
                }
            }
        }
    }
}

/// A run of literal nodes closed by the end anchor matches exactly when the
/// literals stand at the position and reach the end of the line.
proof fn lemma_literal_end_tail(
    items: Seq<Node>,
    k: int,
    lits: Seq<char>,
    line: Seq<char>,
    pos: int,
    caps: Seq<Option<Span>>,
)
    requires
        0 <= k <= items.len(),
        items.len() - k == lits.len() + 1,
        forall|j: int| 0 <= j < lits.len() ==> items[k + j] == Node::Literal(lits[j]),
        items[items.len() - 1] == Node::EndAnchor,
        0 <= pos <= line.len(),
    ensures
        ({
            let m = step_items(items, k, line, pos, caps);
            m.caps == caps && (m.ok <==> (pos + lits.len() == line.len() && forall|j: int|
                0 <= j < lits.len() ==> line[pos + j] == lits[j]))
        }),
    decreases lits.len(),
{
    if lits.len() == 0 {
        assert(items[k] == Node::EndAnchor);
        let r = step(items[k], line, pos, caps);
        if pos < line.len() {
            assert(r == (MatchOutcome { ok: false, pos, caps }));
            assert(step_items(items, k, line, pos, caps) == (MatchOutcome {
                ok: false,
                pos,
                caps,
            }));
        } else {
            assert(r == (MatchOutcome { ok: true, pos, caps }));
            assert(step_items(items, k, line, pos, caps) == step_items(
                items,
                k + 1,
                line,
                pos,
                caps,
            ));
            assert(step_items(items, k + 1, line, pos, caps) == (MatchOutcome {
                ok: true,
                pos,
                caps,
            }));
        }
    } else {
        assert(items[k] == Node::Literal(lits[0]));
        let r = step(items[k], line, pos, caps);
        if pos < line.len() {
            assert(r == (MatchOutcome { ok: line[pos] == lits[0], pos: pos + 1, caps }));
        } else {
            assert(r == (MatchOutcome { ok: false, pos, caps }));
        }
        if pos < line.len() && line[pos] == lits[0] {
            assert(step_items(items, k, line, pos, caps) == step_items(
                items,
                k + 1,
                line,
                pos + 1,
                caps,
            ));
            lemma_literal_end_tail(
                items,
                k + 1,
                lits.subrange(1, lits.len() as int),
                line,
                pos + 1,
                caps,
            );
            let rest = lits.subrange(1, lits.len() as int);
            assert forall|j: int| 0 <= j < rest.len() implies items[k + 1 + j] == Node::Literal(
                rest[j],
            ) by {
                assert(items[k + 1 + j] == Node::Literal(lits[j + 1]));
            }
            let m2 = step_items(items, k + 1, line, pos + 1, caps);
            if m2.ok {
                assert forall|j: int| 0 <= j < lits.len() implies line[pos + j] == lits[j] by {
                    if j > 0 {
                        assert(line[(pos + 1) + (j - 1)] == rest[j - 1]);
                    }
                }
            } else {
                if pos + lits.len() == line.len() && forall|j: int|
                    0 <= j < lits.len() ==> line[pos + j] == lits[j] {
                    assert forall|j: int| 0 <= j < rest.len() implies line[(pos + 1) + j]
                        == rest[j] by {
                        assert(line[pos + (j + 1)] == lits[j + 1]);
                    }
                }
            }
        }
    }
}

/// One attempt of a literal-only pattern succeeds exactly when the text
/// stands at that offset.
proof fn lemma_literal_attempt(n: Node, pat: Seq<char>, line: Seq<char>, s: int, groups: nat)
    requires
        pat.len() > 0,
        literal_only(n, pat),
        0 <= s < line.len(),
    ensures
        attempt_at(n, groups, line, s).ok <==> (s + pat.len() <= line.len() && forall|j: int|
            0 <= j < pat.len() ==> line[s + j] == pat[j]),
{
    let caps = empty_caps(groups);
    if pat.len() == 1 {
        let r = step(n, line, s, caps);
        assert(r == (MatchOutcome { ok: line[s] == pat[0], pos: s + 1, caps }));
    } else {
        let items = n->List_0;
        lemma_literal_tail(items, 0, pat, line, s, caps);
        assert(step(n, line, s, caps) == step_items(items, 0, line, s, caps));
    }
}

/// For a literal-only pattern, the search succeeds exactly when the pattern
/// text occurs as a contiguous substring of the line.
pub proof fn law_literal_search(n: Node, pat: Seq<char>, line: Seq<char>, groups: nat)
    requires
        pat.len() > 0,
        literal_only(n, pat),
    ensures
        search_found(n, groups, line) <==> exists|s: int| occurs_at(line, pat, s),
{
    if search_found(n, groups, line) {
        let s = choose|s: int|
            0 <= s < line.len() && (#[trigger] attempt_at(n, groups, line, s)).ok;
        lemma_literal_attempt(n, pat, line, s, groups);
        assert(line.subrange(s, s + pat.len()) =~= pat);
        assert(occurs_at(line, pat, s));
    }
    if exists|s: int| occurs_at(line, pat, s) {
        let s = choose|s: int| occurs_at(line, pat, s);
        assert forall|j: int| 0 <= j < pat.len() implies line[s + j] == pat[j] by {
            assert(line.subrange(s, s + pat.len())[j] == pat[j]);
        }
        lemma_literal_attempt(n, pat, line, s, groups);
        assert((attempt_at(n, groups, line, s)).ok);
        assert(search_found(n, groups, line));
    }
}

/// A pattern anchored at the start followed by a literal text matches only
/// when that text starts the line: the search succeeds exactly when the text
/// is a prefix of the line.
pub proof fn law_start_anchor(items: Seq<Node>, lits: Seq<char>, line: Seq<char>, groups: nat)
    requires
        lits.len() > 0,
        items.len() == lits.len() + 1,
        items[0] == Node::StartAnchor,
        forall|j: int| 0 <= j < lits.len() ==> items[1 + j] == Node::Literal(lits[j]),
    ensures
        search_found(Node::List(items), groups, line) <==> (lits.len() <= line.len()
            && line.subrange(0, lits.len() as int) == lits),
{
    let node = Node::List(items);
    let caps = empty_caps(groups);
    if search_found(node, groups, line) {
        let s = choose|s: int|
            0 <= s < line.len() && (#[trigger] attempt_at(node, groups, line, s)).ok;
        let r = step(items[0], line, s, caps);
        assert(r == (MatchOutcome { ok: s == 0, pos: s, caps }));
        assert(step(node, line, s, caps) == step_items(items, 0, line, s, caps));
        if s != 0 {
            assert(step_items(items, 0, line, s, caps) == (MatchOutcome {
                ok: false,
                pos: s,
                caps,
            }));
        } else {
            assert(step_items(items, 0, line, s, caps) == step_items(items, 1, line, s, caps));
        }
        lemma_literal_tail(items, 1, lits, line, s, caps);
        assert(s == 0);
        assert forall|j: int| 0 <= j < lits.len() implies line.subrange(
            0,
            lits.len() as int,
        )[j] == lits[j] by {
            assert(line[0 + j] == lits[j]);
        }
        assert(line.subrange(0, lits.len() as int) =~= lits);
    }
    if lits.len() <= line.len() && line.subrange(0, lits.len() as int) == lits {
        assert forall|j: int| 0 <= j < lits.len() implies line[0 + j] == lits[j] by {
            assert(line.subrange(0, lits.len() as int)[j] == lits[j]);
        }
        lemma_literal_tail(items, 1, lits, line, 0, caps);
        let r = step(items[0], line, 0, caps);
        assert(r == (MatchOutcome { ok: true, pos: 0, caps }));
        assert(step_items(items, 0, line, 0, caps) == step_items(items, 1, line, 0, caps));
        assert((attempt_at(node, groups, line, 0)).ok);
        assert(search_found(node, groups, line));
    }
}

/// A literal text followed by the end anchor matches only when that text
/// ends exactly at the end of the line: the search succeeds exactly when the
/// text is a suffix of the line.
pub proof fn law_end_anchor(items: Seq<Node>, lits: Seq<char>, line: Seq<char>, groups: nat)
    requires
        lits.len() > 0,
        items.len() == lits.len() + 1,
        items[items.len() - 1] == Node::EndAnchor,
        forall|j: int| 0 <= j < lits.len() ==> items[j] == Node::Literal(lits[j]),
    ensures
        search_found(Node::List(items), groups, line) <==> (lits.len() <= line.len()
            && line.subrange(line.len() - lits.len(), line.len() as int) == lits),
{
    let node = Node::List(items);
    let caps = empty_caps(groups);
    if search_found(node, groups, line) {
        let s = choose|s: int|
            0 <= s < line.len() && (#[trigger] attempt_at(node, groups, line, s)).ok;
        lemma_literal_end_tail(items, 0, lits, line, s, caps);
        assert(s + lits.len() == line.len());
        assert forall|j: int| 0 <= j < lits.len() implies line.subrange(
            line.len() - lits.len(),
            line.len() as int,
        )[j] == lits[j] by {
            assert(line[s + j] == lits[j]);
        }
        assert(line.subrange(line.len() - lits.len(), line.len() as int) =~= lits);
    }
    if lits.len() <= line.len() && line.subrange(line.len() - lits.len(), line.len() as int)
        == lits {
        let s = line.len() - lits.len();
        assert forall|j: int| 0 <= j < lits.len() implies line[s + j] == lits[j] by {
            assert(line.subrange(line.len() - lits.len(), line.len() as int)[j] == lits[j]);
        }
        lemma_literal_end_tail(items, 0, lits, line, s, caps);
        assert(s < line.len());
        assert((attempt_at(node, groups, line, s)).ok);
        assert(search_found(node, groups, line));
    }
}

/// A character with no role in the pattern syntax.
pub open spec fn plain_char(c: char) -> bool {
    c != '\\' && c != '(' && c != ')' && c != '[' && c != ']' && c != '^' && c != '$' && c != '+'
        && c != '?' && c != '.' && c != '|'
}

proof fn lemma_literal_parse_one(pat: Seq<char>, k: int)
    requires
        forall|i: int| 0 <= i < pat.len() ==> plain_char(#[trigger] pat[i]),
        0 <= k < pat.len(),
    ensures
        pk_one(pat, k, 0, None) == (ParseOutcome {
            res: Ok::<Option<Node>, ParseError>(Some(Node::Literal(pat[k]))),
            pos: k + 1,
            count: 0,
        }),
{
    assert(plain_char(pat[k]));
    if k + 1 < pat.len() {
        assert(plain_char(pat[k + 1]));
    }
}

proof fn lemma_literal_parse_loop(pat: Seq<char>, k: int, acc: Node)
    requires
        forall|i: int| 0 <= i < pat.len() ==> plain_char(#[trigger] pat[i]),
        1 <= k <= pat.len(),
        literal_only(acc, pat.subrange(0, k)),
    ensures
        ({
            let m = pk_list_loop(pat, k, 0, None, EndFlags { rparen: false, pipe: true }, acc);
            m.pos == pat.len() && m.count == 0 && (m.res matches Ok(Some(n)) && literal_only(
                n,
                pat,
            ))
        }),
    decreases pat.len() - k,
{
    let end = EndFlags { rparen: false, pipe: true };
    if k == pat.len() {
        assert(pat.subrange(0, k) =~= pat);
    } else {
        assert(plain_char(pat[k]));
        lemma_literal_parse_one(pat, k);
        let merged = list_merge(acc, Node::Literal(pat[k]));
        assert(literal_only(merged, pat.subrange(0, k + 1))) by {
            let pre = pat.subrange(0, k);
            let post = pat.subrange(0, k + 1);
            if k == 1 {
                assert(acc == Node::Literal(pat[0]));
                assert(merged == Node::List(seq![acc, Node::Literal(pat[1])]));
                assert(spells(seq![acc, Node::Literal(pat[1])], post)) by {
                    assert forall|j: int| 0 <= j < post.len() implies seq![
                        acc,
                        Node::Literal(pat[1]),
                    ][j] == Node::Literal(post[j]) by {
                        assert(post[j] == pat[j]);
                    }
                }
            } else {
                let v = acc->List_0;
                assert(spells(v, pre));
                assert(merged == Node::List(v.push(Node::Literal(pat[k]))));
                assert(spells(v.push(Node::Literal(pat[k])), post)) by {
                    assert forall|j: int| 0 <= j < post.len() implies v.push(
                        Node::Literal(pat[k]),
                    )[j] == Node::Literal(post[j]) by {
                        assert(post[j] == pat[j]);
                        if j < k {
                            assert(v[j] == Node::Literal(pre[j]));
                            assert(pre[j] == pat[j]);
                        }
                    }
                }
            }
        }
        lemma_literal_parse_loop(pat, k + 1, merged);
    }
}

/// A literal-only pattern parses whole, to exactly the sequence of its
/// characters as literal nodes, and declares no capture group.
pub proof fn law_literal_parse(pat: Seq<char>)
    requires
        pat.len() > 0,
        forall|i: int| 0 <= i < pat.len() ==> plain_char(#[trigger] pat[i]),
    ensures
        ({
            let m = pk_either(pat, 0, 0, None, EndFlags { rparen: false, pipe: false });
            m.pos == pat.len() && m.count == 0 && (m.res matches Ok(Some(n)) && literal_only(
                n,
                pat,
            ))
        }),
{
    lemma_literal_parse_one(pat, 0);
    assert(literal_only(Node::Literal(pat[0]), pat.subrange(0, 1))) by {
        assert(pat.subrange(0, 1)[0] == pat[0]);
    }
    lemma_literal_parse_loop(pat, 1, Node::Literal(pat[0]));
    let r = pk_list(pat, 0, 0, None, EndFlags { rparen: false, pipe: true });
    assert(r == pk_list_loop(
        pat,
        1,
        0,
        None,
        EndFlags { rparen: false, pipe: true },
        Node::Literal(pat[0]),
    ));
}

} // verus!
