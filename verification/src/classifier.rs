//! Labels each node of the tree as a condition, an action or a description,
//! by the word it begins with and by the kind of its parent.

use crate::error::ClassificationError;
use crate::parser::{is_tree, nodes_view, RawNode, RawNodeView};
use crate::text::{has_leading_word, leading_word, skip_spaces, string_of, to_chars, trim_start};
use vstd::prelude::*;
use vstd::string::*;

verus! {

/// The word that opens a condition.
#[derive(Debug, Clone, Copy, PartialEq, Eq)]
pub enum Keyword {
    When,
    Given,
}

/// What a node is.
#[derive(Debug, Clone, PartialEq, Eq)]
pub enum NodeKind {
    /// The first node: it names the contract.
    Root,
    /// A precondition: its keyword and the text behind it.
    Condition { keyword: Keyword, phrase: String },
    /// An expected outcome, directly below the root or a condition.
    Action { phrase: String },
    /// Free text below an action.
    Description { phrase: String },
}

/// What a node is, its texts as character sequences.
pub enum NodeKindView {
    Root,
    Condition { keyword: Keyword, phrase: Seq<char> },
    Action { phrase: Seq<char> },
    Description { phrase: Seq<char> },
}

impl View for NodeKind {
    type V = NodeKindView;

    open spec fn view(&self) -> NodeKindView {
        match self {
            NodeKind::Root => NodeKindView::Root,
            NodeKind::Condition { keyword, phrase } => NodeKindView::Condition {
                keyword: *keyword,
                phrase: phrase@,
            },
            NodeKind::Action { phrase } => NodeKindView::Action { phrase: phrase@ },
            NodeKind::Description { phrase } => NodeKindView::Description { phrase: phrase@ },
        }
    }
}

/// The views of a list of kinds.
pub open spec fn kinds_view(v: Seq<NodeKind>) -> Seq<NodeKindView> {
    Seq::new(v.len(), |i: int| v[i]@)
}

/// A keyword as it is written in a tree.
pub open spec fn keyword_text(keyword: Keyword) -> Seq<char> {
    match keyword {
        Keyword::When => "when"@,
        Keyword::Given => "given"@,
    }
}

/// The keyword that `text` begins with, letter case aside, if any.
pub open spec fn keyword_of(text: Seq<char>) -> Option<Keyword> {
    if has_leading_word(text, keyword_text(Keyword::When)) {
        Some(Keyword::When)
    } else if has_leading_word(text, keyword_text(Keyword::Given)) {
        Some(Keyword::Given)
    } else {
        None
    }
}

/// What follows the keyword in the text of a condition.
pub open spec fn phrase_of(text: Seq<char>, keyword: Keyword) -> Seq<char> {
    trim_start(text.skip(keyword_text(keyword).len() as int))
}

/// Conditions and actions stand below the root and below conditions only.
pub open spec fn admits_branches(kind: NodeKindView) -> bool {
    kind is Root || kind is Condition
}

/// The kind of a node, from its text and the kind of its parent: a condition
/// where it begins with a keyword, else an action where the parent is the
/// root or a condition, else a description.
pub open spec fn kind_from(text: Seq<char>, parent: NodeKindView) -> NodeKindView {
    match keyword_of(text) {
        Some(keyword) => NodeKindView::Condition { keyword, phrase: phrase_of(text, keyword) },
        None => if admits_branches(parent) {
            NodeKindView::Action { phrase: text }
        } else {
            NodeKindView::Description { phrase: text }
        },
    }
}

/// The kind of node `i` of a tree.
pub open spec fn kind_of(nodes: Seq<RawNodeView>, i: int) -> NodeKindView
    decreases i,
{
    if i <= 0 {
        NodeKindView::Root
    } else {
        match nodes[i].parent {
            Some(p) => if p < i {
                kind_from(nodes[i].text, kind_of(nodes, p as int))
            } else {
                NodeKindView::Root
            },
            None => NodeKindView::Root,
        }
    }
}

/// Node `i` is a condition below an action or a description, where no
/// condition can stand.
pub open spec fn is_misplaced(nodes: Seq<RawNodeView>, i: int) -> bool {
    i >= 1 && kind_of(nodes, i) is Condition && !admits_branches(
        kind_of(nodes, nodes[i].parent.unwrap() as int),
    )
}

/// The first misplaced node among the first `n`, as an error.
pub open spec fn first_misplaced(nodes: Seq<RawNodeView>, n: int) -> Option<
    ClassificationError,
>
    decreases n,
{
    if n <= 0 {
        None
    } else {
        match first_misplaced(nodes, n - 1) {
            Some(e) => Some(e),
            None => if is_misplaced(nodes, n - 1) {
                Some(ClassificationError { line: nodes[n - 1].line as usize })
            } else {
                None
            },
        }
    }
}

/// The kinds of all nodes of a tree.
pub open spec fn kinds_of(nodes: Seq<RawNodeView>) -> Seq<NodeKindView> {
    Seq::new(nodes.len(), |i: int| kind_of(nodes, i))
}

/// What classifying a tree yields: the first misplaced condition as an
/// error, else the kind of every node.
pub open spec fn classified(nodes: Seq<RawNodeView>) -> Result<
    Seq<NodeKindView>,
    ClassificationError,
> {
    match first_misplaced(nodes, nodes.len() as int) {
        Some(e) => Err(e),
        None => Ok(kinds_of(nodes)),
    }
}

/// Once a misplaced node is found among the first `n`, it stays the first
/// however many nodes follow.
pub proof fn lemma_misplaced_stays(nodes: Seq<RawNodeView>, n: int, m: int)
    requires
        n <= m,
        first_misplaced(nodes, n).is_some(),
    ensures
        first_misplaced(nodes, m) == first_misplaced(nodes, n),
    decreases m - n,
{
    if n < m {
        lemma_misplaced_stays(nodes, n, m - 1);
    }
}

/// The kind of a node with the given text below a parent of the given kind.
pub fn classify_node(text: &str, parent: &NodeKind) -> (kind: NodeKind)
    ensures
        kind@ == kind_from(text@, parent@),
{
    let chars = to_chars(text);
    let when = to_chars("when");
    let given = to_chars("given");
    if leading_word(&chars, &when) {
        let start = skip_spaces(&chars, when.len());
        NodeKind::Condition {
            keyword: Keyword::When,
            phrase: string_of(&chars, start, chars.len()),
        }
    } else if leading_word(&chars, &given) {
        let start = skip_spaces(&chars, given.len());
        NodeKind::Condition {
            keyword: Keyword::Given,
            phrase: string_of(&chars, start, chars.len()),
        }
    } else {
        let branches = match parent {
            NodeKind::Root => true,
            NodeKind::Condition { .. } => true,
            _ => false,
        };
        if branches {
            NodeKind::Action { phrase: String::from_str(text) }
        } else {
            NodeKind::Description { phrase: String::from_str(text) }
        }
    }
}

/// The kind of every node of the tree, or the first condition that stands
/// below an action or a description.
pub fn classify(nodes: &Vec<RawNode>) -> (result: Result<Vec<NodeKind>, ClassificationError>)
    requires
        is_tree(nodes_view(nodes@)),
    ensures
        match result {
            Ok(kinds) => classified(nodes_view(nodes@)) == Ok::<
                Seq<NodeKindView>,
                ClassificationError,
            >(kinds_view(kinds@)),
            Err(e) => classified(nodes_view(nodes@)) == Err::<
                Seq<NodeKindView>,
                ClassificationError,
            >(e),
        },
{
    let ghost ns = nodes_view(nodes@);
    let mut kinds: Vec<NodeKind> = Vec::new();
    kinds.push(NodeKind::Root);
    let mut i: usize = 1;
    assert(first_misplaced(ns, 0).is_none());
    while i < nodes.len()
        invariant
            1 <= i <= nodes.len(),
            ns == nodes_view(nodes@),
            is_tree(ns),
            kinds.len() == i,
            first_misplaced(ns, i as int).is_none(),
            forall|j: int| 0 <= j < i ==> (#[trigger] kinds@[j])@ == kind_of(ns, j),
        decreases nodes.len() - i,
    {
        let node = &nodes[i];
        assert(ns[i as int] == node@);
        let p = node.parent.unwrap();
        let kind = classify_node(node.text.as_str(), &kinds[p]);
        let misplaced = match kind {
            NodeKind::Condition { .. } => match &kinds[p] {
                NodeKind::Root => false,
                NodeKind::Condition { .. } => false,
                _ => true,
            },
            _ => false,
        };
        if misplaced {
            proof {
                lemma_misplaced_stays(ns, i + 1, nodes.len() as int);
            }
            return Err(ClassificationError { line: node.line });
        }
        kinds.push(kind);
        i += 1;
    }
    assert(kinds_view(kinds@) =~= kinds_of(ns));
    Ok(kinds)
}

} // verus!
