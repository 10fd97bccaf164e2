//! The pattern syntax tree, its mathematical model, and well-formedness.

use vstd::prelude::*;

verus! {

broadcast use vstd::std_specs::vec::axiom_vec_index_decreases;

/// One node of a parsed pattern.
#[derive(Debug, PartialEq, Eq)]
pub enum Pattern {
    Literal(char),
    Digit,
    Alphanumeric,
    CharacterGroup { positive: bool, group: Vec<char> },
    StartAnchor,
    EndAnchor,
    OneOrMore(Box<Pattern>),
    ZeroOrOne(Box<Pattern>),
    Wildcard,
    List(Vec<Pattern>),
    Either(Vec<Pattern>),
    Reference(usize),
    CaptureGroup { id: usize, item: Box<Pattern> },
}

/// The mathematical shape of a pattern: the same tree over `Seq` and `int`.
pub ghost enum Node {
    Literal(char),
    Digit,
    Alphanumeric,
    CharacterGroup { positive: bool, group: Seq<char> },
    StartAnchor,
    EndAnchor,
    OneOrMore(Box<Node>),
    ZeroOrOne(Box<Node>),
    Wildcard,
    List(Seq<Node>),
    Either(Seq<Node>),
    Reference(int),
    CaptureGroup { id: int, item: Box<Node> },
}

pub open spec fn node_of(p: Pattern) -> Node
    decreases p,
{
    match p {
        Pattern::Literal(c) => Node::Literal(c),
        Pattern::Digit => Node::Digit,
        Pattern::Alphanumeric => Node::Alphanumeric,
        Pattern::CharacterGroup { positive, group } => Node::CharacterGroup {
            positive,
            group: group@,
        },
        Pattern::StartAnchor => Node::StartAnchor,
        Pattern::EndAnchor => Node::EndAnchor,
        Pattern::OneOrMore(inner) => Node::OneOrMore(Box::new(node_of(*inner))),
        Pattern::ZeroOrOne(inner) => Node::ZeroOrOne(Box::new(node_of(*inner))),
        Pattern::Wildcard => Node::Wildcard,
        Pattern::List(items) => Node::List(nodes_of(items@)),
        Pattern::Either(items) => Node::Either(nodes_of(items@)),
        Pattern::Reference(id) => Node::Reference(id as int),
        Pattern::CaptureGroup { id, item } => Node::CaptureGroup {
            id: id as int,
            item: Box::new(node_of(*item)),
        },
    }
}

pub open spec fn nodes_of(items: Seq<Pattern>) -> Seq<Node>
    decreases items,
{
    if items.len() == 0 {
        Seq::empty()
    } else {
        nodes_of(items.drop_last()).push(node_of(items.last()))
    }
}

impl View for Pattern {
    type V = Node;

    open spec fn view(&self) -> Node {
        node_of(*self)
    }
}

pub broadcast proof fn lemma_nodes_of(items: Seq<Pattern>)
    ensures
        (#[trigger] nodes_of(items)).len() == items.len(),
        forall|i: int| 0 <= i < items.len() ==> nodes_of(items)[i] == node_of(items[i]),
    decreases items.len(),
{
    if items.len() > 0 {
        lemma_nodes_of(items.drop_last());
    }
}

/// A half-open span of character offsets into the input line.
#[derive(Clone, Copy, Debug, PartialEq, Eq, Structural)]
pub struct Span {
    pub start: usize,
    pub end: usize,
}

/// Every capture reference and capture group identifier lies below `groups`.
pub open spec fn wf_node(n: Node, groups: nat) -> bool
    decreases n,
{
    match n {
        Node::Reference(id) => 0 <= id < groups,
        Node::CaptureGroup { id, item } => 0 <= id < groups && wf_node(*item, groups),
        Node::OneOrMore(inner) => wf_node(*inner, groups),
        Node::ZeroOrOne(inner) => wf_node(*inner, groups),
        Node::List(items) => wf_nodes(items, groups),
        Node::Either(items) => wf_nodes(items, groups),
        _ => true,
    }
}

pub open spec fn wf_nodes(items: Seq<Node>, groups: nat) -> bool
    decreases items,
{
    if items.len() == 0 {
        true
    } else {
        wf_nodes(items.drop_last(), groups) && wf_node(items.last(), groups)
    }
}

/// Each element of a well-formed sequence of nodes is well-formed.
pub proof fn lemma_wf_nodes_element(items: Seq<Node>, groups: nat, i: int)
    requires
        wf_nodes(items, groups),
        0 <= i < items.len(),
    ensures
        wf_node(items[i], groups),
    decreases items.len(),
{
    if i < items.len() - 1 {
        lemma_wf_nodes_element(items.drop_last(), groups, i);
    }
}

/// Each element of a well-formed sequence node is well-formed.
pub proof fn lemma_wf_list_element(items: Seq<Node>, groups: nat, i: int)
    requires
        wf_node(Node::List(items), groups),
        0 <= i < items.len(),
    ensures
        wf_node(items[i], groups),
{
    lemma_wf_nodes_element(items, groups, i);
}

/// Each element of a well-formed alternation node is well-formed.
pub proof fn lemma_wf_either_element(items: Seq<Node>, groups: nat, i: int)
    requires
        wf_node(Node::Either(items), groups),
        0 <= i < items.len(),
    ensures
        wf_node(items[i], groups),
{
    lemma_wf_nodes_element(items, groups, i);
}

/// Well-formedness only asks more groups of nothing: it survives a growing
/// group count.
pub proof fn lemma_wf_mono(n: Node, g1: nat, g2: nat)
    requires
        wf_node(n, g1),
        g1 <= g2,
    ensures
        wf_node(n, g2),
    decreases n,
{
    match n {
        Node::CaptureGroup { id, item } => lemma_wf_mono(*item, g1, g2),
        Node::OneOrMore(inner) => lemma_wf_mono(*inner, g1, g2),
        Node::ZeroOrOne(inner) => lemma_wf_mono(*inner, g1, g2),
        Node::List(items) => lemma_wf_nodes_mono(items, g1, g2),
        Node::Either(items) => lemma_wf_nodes_mono(items, g1, g2),
        _ => {},
    }
}

pub proof fn lemma_wf_nodes_mono(items: Seq<Node>, g1: nat, g2: nat)
    requires
        wf_nodes(items, g1),
        g1 <= g2,
    ensures
        wf_nodes(items, g2),
    decreases items,
{
    if items.len() > 0 {
        lemma_wf_nodes_mono(items.drop_last(), g1, g2);
        lemma_wf_mono(items.last(), g1, g2);
    }
}

/// The model of a pushed element lands at the end of the modelled sequence.
pub proof fn lemma_nodes_of_push(items: Seq<Pattern>, x: Pattern)
    ensures
        nodes_of(items.push(x)) == nodes_of(items).push(node_of(x)),
{
    assert(items.push(x).drop_last() =~= items);
    assert(items.push(x).last() == x);
}

/// A well-formed element keeps a sequence of nodes well-formed.
pub proof fn lemma_wf_nodes_push(items: Seq<Node>, x: Node, groups: nat)
    requires
        wf_nodes(items, groups),
        wf_node(x, groups),
    ensures
        wf_nodes(items.push(x), groups),
{
    assert(items.push(x).drop_last() =~= items);
    assert(items.push(x).last() == x);
}

/// Only a sequence node models a sequence pattern, and only an alternation
/// node an alternation pattern.
pub proof fn lemma_node_shape(p: Pattern)
    ensures
        (node_of(p) is List) == (p is List),
        (node_of(p) is Either) == (p is Either),
{
    match p {
        Pattern::Literal(_) => {},
        Pattern::Digit => {},
        Pattern::Alphanumeric => {},
        Pattern::CharacterGroup { .. } => {},
        Pattern::StartAnchor => {},
        Pattern::EndAnchor => {},
        Pattern::OneOrMore(_) => {},
        Pattern::ZeroOrOne(_) => {},
        Pattern::Wildcard => {},
        Pattern::List(_) => {},
        Pattern::Either(_) => {},
        Pattern::Reference(_) => {},
        Pattern::CaptureGroup { .. } => {},
    }
}

/// A literal pattern models a literal node, well-formed for any group count.
pub proof fn lemma_node_of_literal(c: char, groups: nat)
    ensures
        node_of(Pattern::Literal(c)) == Node::Literal(c),
        wf_node(Node::Literal(c), groups),
{
}

/// Every recorded span lies within the line and runs forwards.
pub open spec fn caps_ok(caps: Seq<Option<Span>>, line_len: int) -> bool {
    forall|i: int| 0 <= i < caps.len() ==> match #[trigger] caps[i] {
        Some(sp) => sp.start <= sp.end <= line_len,
        None => true,
    }
}

} // verus!
