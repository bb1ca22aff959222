//! Builds the tree from the tokens: each token becomes a node, a child of the
//! nearest token before it that stands further left.

use crate::error::ParseError;
use crate::scanner::{scan, scanned, tokens_view, Token, TokenView};
use vstd::prelude::*;

verus! {

/// One node of the tree. The nodes of a tree lie in a vector in the order of
/// their lines, the root first; a node names its parent and its children by
/// their places in that vector.
#[derive(Debug, Clone, PartialEq, Eq)]
pub struct RawNode {
    /// The text of the node's line.
    pub text: String,
    /// The number of nodes above this one: 0 for the root.
    pub depth: usize,
    /// The node's children, in the order of their lines.
    pub children: Vec<usize>,
    /// The number of the node's line.
    pub line: usize,
    /// The node's parent; `None` for the root.
    pub parent: Option<usize>,
}

/// A node, its text as a character sequence and its children as a
/// sequence.
pub struct RawNodeView {
    pub text: Seq<char>,
    pub depth: nat,
    pub children: Seq<usize>,
    pub line: nat,
    pub parent: Option<usize>,
}

impl View for RawNode {
    type V = RawNodeView;

    open spec fn view(&self) -> RawNodeView {
        RawNodeView {
            text: self.text@,
            depth: self.depth as nat,
            children: self.children@,
            line: self.line as nat,
            parent: self.parent,
        }
    }
}

/// The views of a list of nodes.
pub open spec fn nodes_view(v: Seq<RawNode>) -> Seq<RawNodeView> {
    Seq::new(v.len(), |i: int| v[i]@)
}

/// The last token at or before `j` that stands further left than `depth`, or
/// -1 where there is none.
pub open spec fn nearest_shallower(tokens: Seq<TokenView>, j: int, depth: nat) -> int
    decreases j + 1,
{
    if j < 0 || j >= tokens.len() {
        -1
    } else if tokens[j].depth < depth {
        j
    } else {
        nearest_shallower(tokens, j - 1, depth)
    }
}

/// The parent of token `i`: the nearest token before it that stands further
/// left.
pub open spec fn parent_of(tokens: Seq<TokenView>, i: int) -> int {
    nearest_shallower(tokens, i - 1, tokens[i].depth)
}

/// What is wrong with token `i`, if anything: it has no text; it is the
/// first and has a connector; it is a later one and has none; or it does not
/// line up with the first child of its parent, the token right after the
/// parent.
pub open spec fn token_fault(tokens: Seq<TokenView>, i: int) -> Option<ParseError> {
    let token = tokens[i];
    let line = token.line as usize;
    if token.text.len() == 0 {
        Some(ParseError::UnexpectedToken { line })
    } else if i == 0 {
        if token.depth != 0 {
            Some(ParseError::UnexpectedToken { line })
        } else {
            None
        }
    } else if token.depth == 0 {
        Some(ParseError::MultipleRoots { line })
    } else if tokens[parent_of(tokens, i) + 1].depth != token.depth {
        Some(ParseError::InconsistentIndentation { line })
    } else {
        None
    }
}

/// The fault of the first faulty token among the first `n`.
pub open spec fn first_fault(tokens: Seq<TokenView>, n: int) -> Option<ParseError>
    decreases n,
{
    if n <= 0 {
        None
    } else {
        match first_fault(tokens, n - 1) {
            Some(e) => Some(e),
            None => token_fault(tokens, n - 1),
        }
    }
}

/// The number of nodes above token `i`.
pub open spec fn level_of(tokens: Seq<TokenView>, i: int) -> nat
    decreases i,
{
    let p = parent_of(tokens, i);
    if 0 <= p < i {
        level_of(tokens, p) + 1
    } else {
        0
    }
}

/// The children of token `i` among the first `n` tokens, in order.
pub open spec fn children_among(tokens: Seq<TokenView>, i: int, n: int) -> Seq<usize>
    decreases n,
{
    if n <= 1 {
        Seq::empty()
    } else {
        let head = children_among(tokens, i, n - 1);
        if parent_of(tokens, n - 1) == i {
            head.push((n - 1) as usize)
        } else {
            head
        }
    }
}

/// The node that token `i` becomes in the tree of the first `n` tokens.
pub open spec fn node_of(tokens: Seq<TokenView>, i: int, n: int) -> RawNodeView {
    RawNodeView {
        text: tokens[i].text,
        depth: level_of(tokens, i),
        children: children_among(tokens, i, n),
        line: tokens[i].line,
        parent: if i == 0 {
            None
        } else {
            Some(parent_of(tokens, i) as usize)
        },
    }
}

/// The tree of a list of tokens: one node per token, in order.
pub open spec fn tree_of(tokens: Seq<TokenView>) -> Seq<RawNodeView> {
    Seq::new(tokens.len(), |i: int| node_of(tokens, i, tokens.len() as int))
}

/// What parsing a list of tokens yields: `EmptyInput` where there is none,
/// the fault of the first faulty token where there is one, else the tree.
pub open spec fn parsed(tokens: Seq<TokenView>) -> Result<Seq<RawNodeView>, ParseError> {
    if tokens.len() == 0 {
        Err(ParseError::EmptyInput)
    } else {
        match first_fault(tokens, tokens.len() as int) {
            Some(e) => Err(e),
            None => Ok(tree_of(tokens)),
        }
    }
}

/// The children of node `i` among the first `n` nodes, read off the parent
/// that each node names.
pub open spec fn children_by_parent(nodes: Seq<RawNodeView>, i: int, n: int) -> Seq<usize>
    decreases n,
{
    if n <= 1 {
        Seq::empty()
    } else {
        let head = children_by_parent(nodes, i, n - 1);
        if nodes[n - 1].parent == Some(i as usize) {
            head.push((n - 1) as usize)
        } else {
            head
        }
    }
}

/// A list of nodes is a tree: the first node is the root, every other node
/// names an earlier node as its parent and lies one level below it, and each
/// node lists as its children exactly the nodes that name it, in order.
pub open spec fn is_tree(nodes: Seq<RawNodeView>) -> bool {
    &&& 1 <= nodes.len() <= usize::MAX
    &&& nodes[0].parent.is_none()
    &&& nodes[0].depth == 0
    &&& forall|i: int|
        1 <= i < nodes.len() ==> (#[trigger] nodes[i]).parent.is_some() && nodes[i].parent.unwrap()
            < i && nodes[i].depth == nodes[nodes[i].parent.unwrap() as int].depth + 1
    &&& forall|i: int|
        0 <= i < nodes.len() ==> (#[trigger] nodes[i]).children == children_by_parent(
            nodes,
            i,
            nodes.len() as int,
        )
}

/// No token among the first `n` is faulty.
pub open spec fn faultless(tokens: Seq<TokenView>, n: int) -> bool {
    forall|i: int| 0 <= i < n ==> token_fault(tokens, i).is_none()
}

/// `first_fault` finds nothing exactly where no token is faulty.
pub proof fn lemma_first_fault_none(tokens: Seq<TokenView>, n: int)
    ensures
        first_fault(tokens, n).is_none() <==> faultless(tokens, n),
    decreases n,
{
    if n > 0 {
        lemma_first_fault_none(tokens, n - 1);
        if first_fault(tokens, n).is_none() {
        }
    }
}

/// The nearest token that stands further left lies in range, and no token
/// between it and `j` stands further left.
pub proof fn lemma_nearest_shallower(tokens: Seq<TokenView>, j: int, depth: nat)
    requires
        -1 <= j < tokens.len(),
    ensures
        -1 <= nearest_shallower(tokens, j, depth) <= j,
        nearest_shallower(tokens, j, depth) >= 0 ==> tokens[nearest_shallower(
            tokens,
            j,
            depth,
        )].depth < depth,
        forall|k: int|
            nearest_shallower(tokens, j, depth) < k <= j ==> (#[trigger] tokens[k]).depth
                >= depth,
        tokens.len() > 0 && tokens[0].depth < depth && j >= 0 ==> nearest_shallower(
            tokens,
            j,
            depth,
        ) >= 0,
    decreases j + 1,
{
    if j >= 0 && tokens[j].depth >= depth {
        lemma_nearest_shallower(tokens, j - 1, depth);
    }
}

/// Below a root without connector, every later token with a connector has a
/// parent before it.
pub proof fn lemma_parent_in_range(tokens: Seq<TokenView>, i: int)
    requires
        1 <= i < tokens.len(),
        tokens[0].depth == 0,
        tokens[i].depth > 0,
    ensures
        0 <= parent_of(tokens, i) < i,
        tokens[parent_of(tokens, i)].depth < tokens[i].depth,
{
    lemma_nearest_shallower(tokens, i - 1, tokens[i].depth);
}

/// The children listed by the tokens and the children listed by the parents
/// that the nodes name are the same.
pub proof fn lemma_children_agree(tokens: Seq<TokenView>, i: int, n: int)
    requires
        0 <= i < tokens.len(),
        0 <= n <= tokens.len(),
        tokens[0].depth == 0,
        forall|k: int| 1 <= k < tokens.len() ==> (#[trigger] tokens[k]).depth > 0,
        tokens.len() <= usize::MAX,
    ensures
        children_among(tokens, i, n) == children_by_parent(tree_of(tokens), i, n),
    decreases n,
{
    if n > 1 {
        lemma_children_agree(tokens, i, n - 1);
        lemma_parent_in_range(tokens, n - 1);
    }
}

/// The tree of a faultless list of tokens is a tree.
pub proof fn lemma_tree_of_is_tree(tokens: Seq<TokenView>)
    requires
        tokens.len() >= 1,
        tokens.len() <= usize::MAX,
        faultless(tokens, tokens.len() as int),
    ensures
        is_tree(tree_of(tokens)),
{
    let nodes = tree_of(tokens);
    assert(token_fault(tokens, 0).is_none());
    assert forall|k: int| 1 <= k < tokens.len() implies (#[trigger] tokens[k]).depth > 0 by {
        assert(token_fault(tokens, k).is_none());
    }
    lemma_nearest_shallower(tokens, -1, tokens[0].depth);
    assert forall|i: int| 1 <= i < nodes.len() implies (#[trigger] nodes[i]).parent.is_some()
        && nodes[i].parent.unwrap() < i && nodes[i].depth == nodes[nodes[i].parent.unwrap() as int].depth
        + 1 by {
        lemma_parent_in_range(tokens, i);
    }
    assert forall|i: int| 0 <= i < nodes.len() implies (#[trigger] nodes[i]).children
        == children_by_parent(nodes, i, nodes.len() as int) by {
        lemma_children_agree(tokens, i, tokens.len() as int);
    }
}

/// Every child that a node of a tree lists is a later node that names it as
/// its parent.
pub proof fn lemma_children_by_parent(nodes: Seq<RawNodeView>, i: int, n: int, k: int)
    requires
        is_tree(nodes),
        0 <= i < nodes.len(),
        0 <= n <= nodes.len(),
        0 <= k < children_by_parent(nodes, i, n).len(),
    ensures
        i < children_by_parent(nodes, i, n)[k] < n,
        nodes[children_by_parent(nodes, i, n)[k] as int].parent == Some(i as usize),
        children_by_parent(nodes, i, n).len() < n,
    decreases n,
{
    if n > 1 {
        let head = children_by_parent(nodes, i, n - 1);
        if k < head.len() {
            lemma_children_by_parent(nodes, i, n - 1, k);
        } else {
            if head.len() > 0 {
                lemma_children_by_parent(nodes, i, n - 1, head.len() - 1);
            }
        }
    }
}

/// Child `k` of node `i` of a tree is a later node, one level below, that
/// names `i` as its parent.
pub proof fn lemma_child(nodes: Seq<RawNodeView>, i: int, k: int)
    requires
        is_tree(nodes),
        0 <= i < nodes.len(),
        0 <= k < nodes[i].children.len(),
    ensures
        i < nodes[i].children[k] < nodes.len(),
        nodes[nodes[i].children[k] as int].parent == Some(i as usize),
        nodes[nodes[i].children[k] as int].depth == nodes[i].depth + 1,
{
    lemma_children_by_parent(nodes, i, nodes.len() as int, k);
}

/// Builds the tree of `tokens`, or reports the first fault.
pub fn parse_tokens(tokens: &Vec<Token>) -> (result: Result<Vec<RawNode>, ParseError>)
    ensures
        match result {
            Ok(nodes) => parsed(tokens_view(tokens@)) == Ok::<Seq<RawNodeView>, ParseError>(
                nodes_view(nodes@),
            ) && is_tree(nodes_view(nodes@)),
            Err(e) => parsed(tokens_view(tokens@)) == Err::<Seq<RawNodeView>, ParseError>(e),
        },
{
    let ghost ts = tokens_view(tokens@);
    let n = tokens.len();
    if n == 0 {
        return Err(ParseError::EmptyInput);
    }
    let mut nodes: Vec<RawNode> = Vec::new();
    let mut i: usize = 0;
    while i < n
        invariant
            i <= n == tokens.len(),
            n >= 1,
            ts == tokens_view(tokens@),
            nodes.len() == i,
            faultless(ts, i as int),
            forall|j: int| 0 <= j < i ==> (#[trigger] nodes@[j])@ == node_of(ts, j, i as int),
        decreases n - i,
    {
        let token = &tokens[i];
        let line = token.line;
        proof {
            lemma_first_fault_none(ts, i as int);
            lemma_first_fault_none(ts, i + 1);
            lemma_first_fault_none(ts, n as int);
            if token_fault(ts, i as int).is_some() {
                lemma_fault_stays(ts, i + 1, n as int);
            }
        }
        if token.text.as_str().is_empty() {
            return Err(ParseError::UnexpectedToken { line });
        }
        let mut parent: Option<usize> = None;
        if i == 0 {
            if token.depth != 0 {
                return Err(ParseError::UnexpectedToken { line });
            }
            proof {
                lemma_nearest_shallower(ts, -1, ts[0].depth);
            }
        } else {
            if token.depth == 0 {
                return Err(ParseError::MultipleRoots { line });
            }
            proof {
                assert(token_fault(ts, 0).is_none());
                lemma_parent_in_range(ts, i as int);
            }
            let mut p: usize = i - 1;
            while tokens[p].depth >= token.depth
                invariant
                    p < i < n == tokens.len(),
                    ts == tokens_view(tokens@),
                    nodes.len() == i,
                    token@ == ts[i as int],
                    ts[0].depth == 0,
                    token.depth > 0,
                    forall|j: int|
                        0 <= j < i ==> (#[trigger] nodes@[j])@ == node_of(ts, j, i as int),
                    faultless(ts, i as int),
                    nearest_shallower(ts, p as int, ts[i as int].depth) == parent_of(
                        ts,
                        i as int,
                    ),
                decreases p,
            {
                proof {
                    lemma_parent_in_range(ts, p as int);
                }
                let up = nodes[p].parent;
                proof {
                    // Nothing between the parent of `p` and `p` stands
                    // further left than `p`, so nothing there stands further
                    // left than the token at hand.
                    lemma_nearest_shallower(ts, p - 1, ts[p as int].depth);
                    lemma_skip_to(ts, p - 1, parent_of(ts, p as int), ts[i as int].depth);
                }
                p = up.unwrap();
            }
            if tokens[p + 1].depth != token.depth {
                return Err(ParseError::InconsistentIndentation { line });
            }
            parent = Some(p);
        }
        let depth: usize = match parent {
            Some(p) => {
                proof {
                    lemma_level_bound(ts, i as int);
                }
                nodes[p].depth + 1
            },
            None => 0,
        };
        match parent {
            Some(p) => {
                nodes[p].children.push(i);
            },
            None => {},
        }
        nodes.push(
            RawNode { text: token.text.clone(), depth, children: Vec::new(), line, parent },
        );
        i += 1;
        assert forall|j: int| 0 <= j < i implies (#[trigger] nodes@[j])@ == node_of(
            ts,
            j,
            i as int,
        ) by {
            if j == i - 1 {
                lemma_no_children_yet(ts, j, i as int);
            }
        }
    }
    proof {
        lemma_first_fault_none(ts, n as int);
        assert(nodes_view(nodes@) =~= tree_of(ts));
        lemma_tree_of_is_tree(ts);
    }
    Ok(nodes)
}

/// A token has no child among the tokens up to and including itself.
pub proof fn lemma_no_children_yet(tokens: Seq<TokenView>, i: int, n: int)
    requires
        0 <= n <= i + 1 <= tokens.len(),
        faultless(tokens, n),
    ensures
        children_among(tokens, i, n) == Seq::<usize>::empty(),
    decreases n,
{
    if n > 1 {
        lemma_no_children_yet(tokens, i, n - 1);
        assert(token_fault(tokens, 0).is_none());
        assert(token_fault(tokens, n - 1).is_none());
        lemma_parent_in_range(tokens, n - 1);
    }
}

/// Once a fault is found among the first `n` tokens, it stays the first
/// fault however many tokens follow.
pub proof fn lemma_fault_stays(tokens: Seq<TokenView>, n: int, m: int)
    requires
        n <= m,
        first_fault(tokens, n).is_some(),
    ensures
        first_fault(tokens, m) == first_fault(tokens, n),
    decreases m - n,
{
    if n < m {
        lemma_fault_stays(tokens, n, m - 1);
    }
}

/// Where no token in `(to, from]` stands further left than `depth`, the
/// search from `from` goes on from `to`.
pub proof fn lemma_skip_to(tokens: Seq<TokenView>, from: int, to: int, depth: nat)
    requires
        -1 <= to <= from < tokens.len(),
        forall|k: int| to < k <= from ==> (#[trigger] tokens[k]).depth >= depth,
    ensures
        nearest_shallower(tokens, from, depth) == nearest_shallower(tokens, to, depth),
    decreases from - to,
{
    if to < from {
        lemma_skip_to(tokens, from - 1, to, depth);
    }
}

/// A token lies at most as many levels deep as tokens come before it.
pub proof fn lemma_level_bound(tokens: Seq<TokenView>, i: int)
    requires
        0 <= i < tokens.len(),
    ensures
        level_of(tokens, i) <= i,
    decreases i,
{
    let p = parent_of(tokens, i);
    if 0 <= p < i {
        lemma_level_bound(tokens, p);
    }
}

/// Builds the tree that `text` draws, or reports what is wrong with it.
pub fn parse(text: &str) -> (result: Result<Vec<RawNode>, ParseError>)
    ensures
        match result {
            Ok(nodes) => parsed(scanned(text@)) == Ok::<Seq<RawNodeView>, ParseError>(
                nodes_view(nodes@),
            ) && is_tree(nodes_view(nodes@)),
            Err(e) => parsed(scanned(text@)) == Err::<Seq<RawNodeView>, ParseError>(e),
        },
{
    let tokens = scan(text);
    parse_tokens(&tokens)
}

} // verus!
