//! Folds the classified tree into the definitions of a contract: decides
//! which conditions become modifiers and which merge into function names,
//! gathers the actions of each condition into one test function, and names
//! everything.

use crate::classifier::{classified, classify, kinds_view, Keyword, NodeKind, NodeKindView};
use crate::config::Config;
use crate::error::{BuildError, Error};
use crate::hir::{
    functions_view, items_view, lemma_functions_view_push, lemma_items_view_push,
    lemma_strings_view_push, strings_view, Comment, CommentView, ContractDefinition,
    ContractView, FunctionDefinition, FunctionTy, FunctionView, Hir, Item, ItemView, Root,
    RootView, Statement, StatementType,
};
use crate::naming::{
    action_stem, folded, modifier_identifier, modifier_name, pascal, push_folded, push_pascal,
    stem_of_action, test_identifier, test_name,
};
use crate::parser::{is_tree, lemma_child, nodes_view, parse, parsed, RawNode, RawNodeView};
use crate::scanner::scanned;
use crate::text::to_chars;
use vstd::prelude::*;
use vstd::string::*;

verus! {

/// What a function inherits from the conditions above it.
pub struct ScopeView {
    /// The modifiers of the promoted conditions above, outermost first.
    pub modifiers: Seq<Seq<char>>,
    /// The conditions folded into the name since the last promoted one.
    pub chain: Seq<char>,
    /// The same without the keyword of the first.
    pub bare: Seq<char>,
}

/// The scope at the root: nothing inherited.
pub open spec fn empty_scope() -> ScopeView {
    ScopeView { modifiers: Seq::empty(), chain: Seq::empty(), bare: Seq::empty() }
}

/// What the builder works on: a classified tree and the two settings that
/// steer the translation.
pub struct Source {
    pub nodes: Seq<RawNodeView>,
    pub kinds: Seq<NodeKindView>,
    pub emit_vm_skip: bool,
    pub skip_modifiers: bool,
}

impl Source {
    /// The nodes form a tree and each has a kind.
    pub open spec fn wf(self) -> bool {
        is_tree(self.nodes) && self.kinds.len() == self.nodes.len()
    }

    /// Child `k` of node `i`.
    pub open spec fn child(self, i: int, k: int) -> int {
        self.nodes[i].children[k] as int
    }

    /// The number of children of node `i`.
    pub open spec fn fanout(self, i: int) -> int {
        self.nodes[i].children.len() as int
    }

    /// The first action among the children of node `i` from child `k` on.
    pub open spec fn first_action(self, i: int, k: int) -> Option<int>
        decreases self.fanout(i) - k,
    {
        if k < 0 || k >= self.fanout(i) {
            None
        } else if self.kinds[self.child(i, k)] is Action {
            Some(self.child(i, k))
        } else {
            self.first_action(i, k + 1)
        }
    }

    /// Node `i` has an action among its children, so a test function of its
    /// own.
    pub open spec fn has_actions(self, i: int) -> bool {
        self.first_action(i, 0).is_some()
    }

    /// The number of test functions that condition `i` resolves to: one for
    /// its own actions, if it has any, and those of the conditions below it.
    pub open spec fn resolved(self, i: int) -> nat
        decreases self.nodes.len() - i, self.fanout(i) + 1,
    {
        if 0 <= i < self.nodes.len() {
            (if self.has_actions(i) {
                1nat
            } else {
                0nat
            }) + self.resolved_among(i, self.fanout(i))
        } else {
            0
        }
    }

    /// The number of test functions that the conditions among the first `k`
    /// children of node `i` resolve to.
    pub open spec fn resolved_among(self, i: int, k: int) -> nat
        decreases self.nodes.len() - i, k,
    {
        if k <= 0 || k > self.fanout(i) || !(0 <= i < self.nodes.len()) {
            0
        } else {
            let c = self.child(i, k - 1);
            self.resolved_among(i, k - 1) + if i < c < self.nodes.len()
                && self.kinds[c] is Condition {
                self.resolved(c)
            } else {
                0
            }
        }
    }

    /// Condition `i` becomes a modifier: promotion is not switched off and
    /// the condition resolves to more than one test function.
    pub open spec fn promoted(self, i: int) -> bool {
        !self.skip_modifiers && self.resolved(i) > 1
    }

    /// The keyword of condition `i`.
    pub open spec fn keyword(self, i: int) -> Keyword {
        self.kinds[i]->Condition_keyword
    }

    /// The phrase of condition `i`.
    pub open spec fn phrase(self, i: int) -> Seq<char> {
        self.kinds[i]->Condition_phrase
    }

    /// The scope of the test function that holds the actions of condition
    /// `i`, where `scope` is what reaches the condition from above. A
    /// promoted condition adds its modifier and starts the name afresh with
    /// itself; any other is folded into the name.
    pub open spec fn entered(self, i: int, scope: ScopeView) -> ScopeView {
        if self.promoted(i) {
            ScopeView {
                modifiers: scope.modifiers.push(modifier_name(self.keyword(i), self.phrase(i))),
                chain: folded(self.keyword(i), self.phrase(i)),
                bare: pascal(self.phrase(i)),
            }
        } else {
            ScopeView {
                modifiers: scope.modifiers,
                chain: scope.chain + folded(self.keyword(i), self.phrase(i)),
                bare: if scope.chain.len() == 0 {
                    pascal(self.phrase(i))
                } else {
                    scope.bare + folded(self.keyword(i), self.phrase(i))
                },
            }
        }
    }

    /// The scope that reaches the conditions below condition `i`: below a
    /// promoted condition the name starts empty.
    pub open spec fn passed_on(self, i: int, scope: ScopeView) -> ScopeView {
        if self.promoted(i) {
            ScopeView {
                modifiers: self.entered(i, scope).modifiers,
                chain: Seq::empty(),
                bare: Seq::empty(),
            }
        } else {
            self.entered(i, scope)
        }
    }

    /// The comment lines of node `a` and of everything below it, in the
    /// order of the lines; each lies as deep as its node lies below `base`.
    pub open spec fn comments_of(self, a: int, base: nat) -> Seq<ItemView>
        decreases self.nodes.len() - a, self.fanout(a) + 1,
    {
        if 0 <= a < self.nodes.len() {
            seq![
                ItemView::Comment(
                    CommentView {
                        lexeme: self.nodes[a].text,
                        depth: (self.nodes[a].depth - base) as nat,
                    },
                ),
            ] + self.comments_among(a, base, self.fanout(a))
        } else {
            Seq::empty()
        }
    }

    /// The comment lines of the first `k` children of node `a` and of
    /// everything below them.
    pub open spec fn comments_among(self, a: int, base: nat, k: int) -> Seq<ItemView>
        decreases self.nodes.len() - a, k,
    {
        if k <= 0 || k > self.fanout(a) || !(0 <= a < self.nodes.len()) {
            Seq::empty()
        } else {
            let c = self.child(a, k - 1);
            self.comments_among(a, base, k - 1) + if a < c < self.nodes.len() {
                self.comments_of(c, base)
            } else {
                Seq::empty()
            }
        }
    }

    /// The comment lines of one action: its own at depth 0, then its
    /// descriptions.
    pub open spec fn action_comments(self, a: int) -> Seq<ItemView> {
        self.comments_of(a, self.nodes[a].depth)
    }

    /// The comment lines of the actions among the first `k` children of node
    /// `i`.
    pub open spec fn group_comments(self, i: int, k: int) -> Seq<ItemView>
        decreases k,
    {
        if k <= 0 || k > self.fanout(i) {
            Seq::empty()
        } else {
            let c = self.child(i, k - 1);
            self.group_comments(i, k - 1) + if self.kinds[c] is Action {
                self.action_comments(c)
            } else {
                Seq::empty()
            }
        }
    }

    /// What ends the body of every test function: the skip statement where
    /// it is asked for, else nothing.
    pub open spec fn closing(self) -> Seq<ItemView> {
        if self.emit_vm_skip {
            seq![ItemView::Statement(Statement { ty: StatementType::VmSkip })]
        } else {
            Seq::empty()
        }
    }

    /// The modifier that condition `i` is promoted to.
    pub open spec fn modifier_def(self, i: int) -> FunctionView {
        FunctionView {
            identifier: modifier_name(self.keyword(i), self.phrase(i)),
            ty: FunctionTy::Modifier,
            modifiers: Seq::empty(),
            children: Seq::empty(),
            line: self.nodes[i].line,
        }
    }

    /// The test function that holds all actions of condition `i`. Its name
    /// goes by its first action.
    pub open spec fn group_test(self, i: int, scope: ScopeView) -> FunctionView {
        let inner = self.entered(i, scope);
        FunctionView {
            identifier: test_name(
                inner.chain,
                inner.bare,
                self.nodes[self.first_action(i, 0).unwrap()].text,
            ),
            ty: FunctionTy::Test,
            modifiers: inner.modifiers,
            children: self.group_comments(i, self.fanout(i)) + self.closing(),
            line: self.nodes[i].line,
        }
    }

    /// The definitions that condition `i` yields: its modifier where it is
    /// promoted, the test function of its own actions where it has any, then
    /// the definitions of the conditions below it, in order.
    pub open spec fn items_of(self, i: int, scope: ScopeView) -> Seq<FunctionView>
        decreases self.nodes.len() - i, self.fanout(i) + 1,
    {
        if 0 <= i < self.nodes.len() {
            (if self.promoted(i) {
                seq![self.modifier_def(i)]
            } else {
                Seq::empty()
            }) + (if self.has_actions(i) {
                seq![self.group_test(i, scope)]
            } else {
                Seq::empty()
            }) + self.items_among(i, self.passed_on(i, scope), self.fanout(i))
        } else {
            Seq::empty()
        }
    }

    /// The definitions that the conditions among the first `k` children of
    /// node `i` yield.
    pub open spec fn items_among(self, i: int, scope: ScopeView, k: int) -> Seq<FunctionView>
        decreases self.nodes.len() - i, k,
    {
        if k <= 0 || k > self.fanout(i) || !(0 <= i < self.nodes.len()) {
            Seq::empty()
        } else {
            let c = self.child(i, k - 1);
            self.items_among(i, scope, k - 1) + if i < c < self.nodes.len()
                && self.kinds[c] is Condition {
                self.items_of(c, scope)
            } else {
                Seq::empty()
            }
        }
    }

    /// The test function of an action directly below the root: a function
    /// of its own, named by its words.
    pub open spec fn action_test(self, a: int) -> FunctionView {
        let stem = action_stem(self.nodes[a].text);
        FunctionView {
            identifier: test_name(stem, stem, self.nodes[a].text),
            ty: FunctionTy::Test,
            modifiers: Seq::empty(),
            children: self.action_comments(a) + self.closing(),
            line: self.nodes[a].line,
        }
    }

    /// The definitions that the first `k` children of the root yield.
    pub open spec fn root_items(self, k: int) -> Seq<FunctionView>
        decreases k,
    {
        if k <= 0 || k > self.fanout(0) {
            Seq::empty()
        } else {
            let c = self.child(0, k - 1);
            self.root_items(k - 1) + match self.kinds[c] {
                NodeKindView::Condition { .. } => self.items_of(c, empty_scope()),
                NodeKindView::Action { .. } => seq![self.action_test(c)],
                _ => Seq::empty(),
            }
        }
    }

    /// All definitions of the contract, in the order of their declaration.
    pub open spec fn items(self) -> Seq<FunctionView> {
        self.root_items(self.fanout(0))
    }

    /// What is wrong with node `i`, if anything: it is a condition without a
    /// phrase, or one that resolves to no test function.
    pub open spec fn node_fault(self, i: int) -> Option<BuildError> {
        match self.kinds[i] {
            NodeKindView::Condition { keyword, phrase } => if phrase.len() == 0 {
                Some(BuildError::MalformedCondition { line: self.nodes[i].line as usize })
            } else if self.resolved(i) == 0 {
                Some(BuildError::NoActionsForCondition { line: self.nodes[i].line as usize })
            } else {
                None
            },
            _ => None,
        }
    }

    /// The fault of the first faulty node among the first `n`.
    pub open spec fn first_fault(self, n: int) -> Option<BuildError>
        decreases n,
    {
        if n <= 0 {
            None
        } else {
            match self.first_fault(n - 1) {
                Some(e) => Some(e),
                None => self.node_fault(n - 1),
            }
        }
    }
}

/// One of the first `n` definitions has the identifier `name`.
pub open spec fn declares(items: Seq<FunctionView>, name: Seq<char>, n: int) -> bool
    decreases n,
{
    n > 0 && (items[n - 1].identifier == name || declares(items, name, n - 1))
}

/// The first definition among the first `n` whose identifier an earlier one
/// has already, as an error.
pub open spec fn first_collision(items: Seq<FunctionView>, n: int) -> Option<BuildError>
    decreases n,
{
    if n <= 0 {
        None
    } else {
        match first_collision(items, n - 1) {
            Some(e) => Some(e),
            None => if declares(items, items[n - 1].identifier, n - 1) {
                Some(BuildError::IdentifierCollision { line: items[n - 1].line as usize })
            } else {
                None
            },
        }
    }
}

/// What building yields: the first faulty node as an error; else the first
/// collision of identifiers as an error; else the file with its contract,
/// named by the text of the root.
pub open spec fn built(source: Source) -> Result<RootView, BuildError> {
    match source.first_fault(source.nodes.len() as int) {
        Some(e) => Err(e),
        None => match first_collision(source.items(), source.items().len() as int) {
            Some(e) => Err(e),
            None => Ok(
                RootView {
                    contract: ContractView {
                        identifier: source.nodes[0].text,
                        children: source.items(),
                    },
                },
            ),
        },
    }
}

/// The source that a classified tree and a configuration make.
pub open spec fn source_of(nodes: Seq<RawNode>, kinds: Seq<NodeKind>, cfg: Config) -> Source {
    Source {
        nodes: nodes_view(nodes),
        kinds: kinds_view(kinds),
        emit_vm_skip: cfg.emit_vm_skip,
        skip_modifiers: cfg.skip_modifiers,
    }
}

/// A count as the builder keeps it: exact up to 2, and 2 for anything more.
pub open spec fn capped(n: nat) -> u8 {
    if n >= 2 {
        2u8
    } else {
        n as u8
    }
}

/// What a function inherits from the conditions above it.
struct Scope {
    modifiers: Vec<String>,
    chain: Vec<char>,
    bare: Vec<char>,
}

impl View for Scope {
    type V = ScopeView;

    closed spec fn view(&self) -> ScopeView {
        ScopeView { modifiers: strings_view(self.modifiers@), chain: self.chain@, bare: self.bare@ }
    }
}

/// A copy of a list of strings.
fn clone_strings(v: &Vec<String>) -> (out: Vec<String>)
    ensures
        strings_view(out@) == strings_view(v@),
{
    let mut out: Vec<String> = Vec::new();
    let mut i: usize = 0;
    while i < v.len()
        invariant
            i <= v.len(),
            out.len() == i,
            forall|j: int| 0 <= j < i ==> (#[trigger] out@[j])@ == v@[j]@,
        decreases v.len() - i,
    {
        out.push(v[i].clone());
        i += 1;
    }
    out
}

/// A copy of a list of characters.
fn clone_chars(v: &Vec<char>) -> (out: Vec<char>)
    ensures
        out@ == v@,
{
    let mut out: Vec<char> = Vec::new();
    let mut i: usize = 0;
    while i < v.len()
        invariant
            i <= v.len(),
            out@ == v@.take(i as int),
        decreases v.len() - i,
    {
        out.push(v[i]);
        i += 1;
    }
    out
}

/// The builder at work on one tree.
struct Builder<'a> {
    nodes: &'a Vec<RawNode>,
    kinds: &'a Vec<NodeKind>,
    /// For each node, the capped number of test functions it resolves to.
    counts: Vec<u8>,
    emit_vm_skip: bool,
    skip_modifiers: bool,
}

impl<'a> Builder<'a> {
    spec fn source(&self) -> Source {
        Source {
            nodes: nodes_view(self.nodes@),
            kinds: kinds_view(self.kinds@),
            emit_vm_skip: self.emit_vm_skip,
            skip_modifiers: self.skip_modifiers,
        }
    }

    spec fn wf(&self) -> bool {
        self.source().wf()
    }

    /// The counts of the nodes from `from` on are in.
    spec fn counted(&self, from: int) -> bool {
        &&& self.counts.len() == self.nodes.len()
        &&& forall|j: int|
            from <= j < self.nodes.len() ==> #[trigger] self.counts@[j] == capped(
                self.source().resolved(j),
            )
    }

    /// The first action among the children of node `i`.
    fn first_action(&self, i: usize) -> (r: Option<usize>)
        requires
            self.wf(),
            i < self.nodes.len(),
        ensures
            match r {
                Some(a) => self.source().first_action(i as int, 0) == Some(a as int) && i < a
                    < self.nodes.len() && self.kinds@[a as int]@ is Action,
                None => self.source().first_action(i as int, 0).is_none(),
            },
    {
        let ghost src = self.source();
        let node = &self.nodes[i];
        let mut k: usize = 0;
        while k < node.children.len()
            invariant
                k <= node.children.len(),
                src == self.source(),
                src.wf(),
                i < self.nodes.len(),
                src.nodes[i as int] == node@,
                src.first_action(i as int, k as int) == src.first_action(i as int, 0),
            decreases node.children.len() - k,
        {
            let c = node.children[k];
            proof {
                lemma_child(src.nodes, i as int, k as int);
            }
            match &self.kinds[c] {
                NodeKind::Action { .. } => {
                    return Some(c);
                },
                _ => {},
            }
            k += 1;
        }
        None
    }

    /// Fills in the counts, from the last node to the first.
    fn count(&mut self)
        requires
            old(self).wf(),
        ensures
            final(self).source() == old(self).source(),
            final(self).counted(0),
    {
        let ghost src = self.source();
        let n = self.nodes.len();
        self.counts = Vec::new();
        let mut j: usize = 0;
        while j < n
            invariant
                j <= n == self.nodes.len(),
                self.counts.len() == j,
                self.source() == src,
            decreases n - j,
        {
            self.counts.push(0);
            j += 1;
        }
        let mut i: usize = n;
        while i > 0
            invariant
                i <= n == self.nodes.len(),
                self.source() == src,
                src.wf(),
                self.counted(i as int),
            decreases i,
        {
            i -= 1;
            let own: u8 = if self.first_action(i).is_some() {
                1
            } else {
                0
            };
            let mut total: u8 = own;
            let node = &self.nodes[i];
            let mut k: usize = 0;
            while k < node.children.len()
                invariant
                    k <= node.children.len(),
                    i < n == self.nodes.len(),
                    self.source() == src,
                    src.wf(),
                    src.nodes[i as int] == node@,
                    self.counted(i + 1),
                    own <= 1,
                    total == capped(own as nat + src.resolved_among(i as int, k as int)),
                decreases node.children.len() - k,
            {
                let c = node.children[k];
                proof {
                    lemma_child(src.nodes, i as int, k as int);
                }
                match &self.kinds[c] {
                    NodeKind::Condition { .. } => {
                        let sum: u8 = total + self.counts[c];
                        total = if sum >= 2 {
                            2
                        } else {
                            sum
                        };
                    },
                    _ => {},
                }
                k += 1;
            }
            self.counts[i] = total;
        }
    }

    /// Whether condition `i` becomes a modifier.
    fn is_promoted(&self, i: usize) -> (r: bool)
        requires
            self.wf(),
            self.counted(0),
            i < self.nodes.len(),
        ensures
            r == self.source().promoted(i as int),
    {
        !self.skip_modifiers && self.counts[i] >= 2
    }

    /// The first faulty node, if any.
    fn find_fault(&self) -> (r: Option<BuildError>)
        requires
            self.wf(),
            self.counted(0),
        ensures
            r == self.source().first_fault(self.nodes.len() as int),
    {
        let ghost src = self.source();
        let mut i: usize = 0;
        while i < self.nodes.len()
            invariant
                i <= self.nodes.len(),
                src == self.source(),
                self.wf(),
                self.counted(0),
                src.first_fault(i as int).is_none(),
            decreases self.nodes.len() - i,
        {
            let line = self.nodes[i].line;
            let fault = match &self.kinds[i] {
                NodeKind::Condition { keyword, phrase } => {
                    if phrase.as_str().is_empty() {
                        Some(BuildError::MalformedCondition { line })
                    } else if self.counts[i] == 0 {
                        Some(BuildError::NoActionsForCondition { line })
                    } else {
                        None
                    }
                },
                _ => None,
            };
            if fault.is_some() {
                proof {
                    lemma_fault_stays(src, i + 1, self.nodes.len() as int);
                }
                return fault;
            }
            i += 1;
        }
        None
    }

    /// Appends the comment lines of node `a` and of everything below it.
    fn push_comments(&self, a: usize, base: usize, out: &mut Vec<Item>)
        requires
            self.wf(),
            a < self.nodes.len(),
            base <= self.nodes@[a as int].depth,
        ensures
            items_view(final(out)@) == items_view(old(out)@) + self.source().comments_of(
                a as int,
                base as nat,
            ),
        decreases self.nodes.len() - a,
    {
        let ghost src = self.source();
        let ghost before = items_view(out@);
        let node = &self.nodes[a];
        let comment = Item::Comment(Comment { lexeme: node.text.clone(), depth: node.depth - base });
        proof {
            lemma_items_view_push(out@, comment);
        }
        out.push(comment);
        let ghost head = before.push(comment@);
        let mut k: usize = 0;
        while k < node.children.len()
            invariant
                k <= node.children.len(),
                src == self.source(),
                src.wf(),
                a < self.nodes.len(),
                base <= node.depth,
                src.nodes[a as int] == node@,
                items_view(out@) == head + src.comments_among(a as int, base as nat, k as int),
            decreases node.children.len() - k,
        {
            let c = node.children[k];
            proof {
                lemma_child(src.nodes, a as int, k as int);
            }
            self.push_comments(c, base, out);
            k += 1;
        }
    }

    /// Appends what ends the body of a test function.
    fn push_closing(&self, out: &mut Vec<Item>)
        ensures
            items_view(final(out)@) == items_view(old(out)@) + self.source().closing(),
    {
        if self.emit_vm_skip {
            let statement = Item::Statement(Statement { ty: StatementType::VmSkip });
            proof {
                lemma_items_view_push(out@, statement);
            }
            out.push(statement);
        }
    }

    /// The body of the test function of an action directly below the root.
    fn action_body(&self, a: usize) -> (body: Vec<Item>)
        requires
            self.wf(),
            a < self.nodes.len(),
        ensures
            items_view(body@) == self.source().action_comments(a as int)
                + self.source().closing(),
    {
        let mut body: Vec<Item> = Vec::new();
        self.push_comments(a, self.nodes[a].depth, &mut body);
        self.push_closing(&mut body);
        body
    }

    /// The body of the test function that holds the actions of node `i`.
    fn group_body(&self, i: usize) -> (body: Vec<Item>)
        requires
            self.wf(),
            i < self.nodes.len(),
        ensures
            items_view(body@) == self.source().group_comments(
                i as int,
                self.source().fanout(i as int),
            ) + self.source().closing(),
    {
        let ghost src = self.source();
        let mut body: Vec<Item> = Vec::new();
        let node = &self.nodes[i];
        let mut k: usize = 0;
        while k < node.children.len()
            invariant
                k <= node.children.len(),
                src == self.source(),
                src.wf(),
                i < self.nodes.len(),
                src.nodes[i as int] == node@,
                items_view(body@) == src.group_comments(i as int, k as int),
            decreases node.children.len() - k,
        {
            let c = node.children[k];
            proof {
                lemma_child(src.nodes, i as int, k as int);
            }
            match &self.kinds[c] {
                NodeKind::Action { .. } => {
                    self.push_comments(c, self.nodes[c].depth, &mut body);
                },
                _ => {
                },
            }
            k += 1;
        }
        self.push_closing(&mut body);
        body
    }

    /// The scope of the test function of condition `i`.
    fn enter(&self, i: usize, scope: &Scope) -> (inner: Scope)
        requires
            self.wf(),
            self.counted(0),
            i < self.nodes.len(),
            self.kinds@[i as int]@ is Condition,
        ensures
            inner@ == self.source().entered(i as int, scope@),
    {
        match &self.kinds[i] {
            NodeKind::Condition { keyword, phrase } => {
                let words = to_chars(phrase.as_str());
                let mut modifiers = clone_strings(&scope.modifiers);
                if self.is_promoted(i) {
                    let name = modifier_identifier(*keyword, phrase.as_str());
                    proof {
                        lemma_strings_view_push(modifiers@, name);
                    }
                    modifiers.push(name);
                    let mut chain: Vec<char> = Vec::new();
                    push_folded(&mut chain, *keyword, &words);
                    let mut bare: Vec<char> = Vec::new();
                    push_pascal(&mut bare, &words, 0);
                    assert(words@.skip(0) =~= words@);
                    Scope { modifiers, chain, bare }
                } else {
                    let mut chain = clone_chars(&scope.chain);
                    push_folded(&mut chain, *keyword, &words);
                    let mut bare: Vec<char> = Vec::new();
                    if scope.chain.len() == 0 {
                        push_pascal(&mut bare, &words, 0);
                        assert(words@.skip(0) =~= words@);
                    } else {
                        bare = clone_chars(&scope.bare);
                        push_folded(&mut bare, *keyword, &words);
                    }
                    Scope { modifiers, chain, bare }
                }
            },
            _ => Scope { modifiers: Vec::new(), chain: Vec::new(), bare: Vec::new() },
        }
    }

    /// The scope that reaches the conditions below condition `i`, from the
    /// scope of its own test function.
    fn pass_on(&self, i: usize, inner: Scope, Ghost(scope): Ghost<ScopeView>) -> (below: Scope)
        requires
            self.wf(),
            self.counted(0),
            i < self.nodes.len(),
            inner@ == self.source().entered(i as int, scope),
        ensures
            below@ == self.source().passed_on(i as int, scope),
    {
        if self.is_promoted(i) {
            Scope { modifiers: inner.modifiers, chain: Vec::new(), bare: Vec::new() }
        } else {
            inner
        }
    }

    /// Appends the definitions that condition `i` yields.
    fn build_condition(&self, i: usize, scope: &Scope, out: &mut Vec<FunctionDefinition>)
        requires
            self.wf(),
            self.counted(0),
            i < self.nodes.len(),
            self.kinds@[i as int]@ is Condition,
        ensures
            functions_view(final(out)@) == functions_view(old(out)@) + self.source().items_of(
                i as int,
                scope@,
            ),
        decreases self.nodes.len() - i,
    {
        let ghost src = self.source();
        let node = &self.nodes[i];
        let inner = self.enter(i, scope);
        if self.is_promoted(i) {
            match &self.kinds[i] {
                NodeKind::Condition { keyword, phrase } => {
                    let modifier = FunctionDefinition {
                        identifier: modifier_identifier(*keyword, phrase.as_str()),
                        ty: FunctionTy::Modifier,
                        modifiers: Vec::new(),
                        children: Vec::new(),
                        line: node.line,
                    };
                    assert(modifier@.modifiers =~= Seq::<Seq<char>>::empty());
                    assert(modifier@.children =~= Seq::<ItemView>::empty());
                    proof {
                        lemma_functions_view_push(out@, modifier);
                    }
                    out.push(modifier);
                },
                _ => {},
            }
        }
        match self.first_action(i) {
            Some(a) => {
                let test = FunctionDefinition {
                    identifier: test_identifier(
                        &inner.chain,
                        &inner.bare,
                        self.nodes[a].text.as_str(),
                    ),
                    ty: FunctionTy::Test,
                    modifiers: clone_strings(&inner.modifiers),
                    children: self.group_body(i),
                    line: node.line,
                };
                proof {
                    lemma_functions_view_push(out@, test);
                }
                out.push(test);
            },
            None => {},
        }
        let ghost head = functions_view(out@);
        let below = self.pass_on(i, inner, Ghost(scope@));
        let mut k: usize = 0;
        while k < node.children.len()
            invariant
                k <= node.children.len(),
                src == self.source(),
                self.wf(),
                self.counted(0),
                i < self.nodes.len(),
                src.nodes[i as int] == node@,
                below@ == src.passed_on(i as int, scope@),
                functions_view(out@) == head + src.items_among(i as int, below@, k as int),
            decreases node.children.len() - k,
        {
            let c = node.children[k];
            proof {
                lemma_child(src.nodes, i as int, k as int);
            }
            match &self.kinds[c] {
                NodeKind::Condition { .. } => {
                    self.build_condition(c, &below, out);
                },
                _ => {},
            }
            k += 1;
        }
    }

    /// All definitions of the contract.
    fn build_root(&self) -> (out: Vec<FunctionDefinition>)
        requires
            self.wf(),
            self.counted(0),
        ensures
            functions_view(out@) == self.source().items(),
    {
        let ghost src = self.source();
        let mut out: Vec<FunctionDefinition> = Vec::new();
        let top = Scope { modifiers: Vec::new(), chain: Vec::new(), bare: Vec::new() };
        assert(top@.modifiers =~= Seq::<Seq<char>>::empty());
        let node = &self.nodes[0];
        let mut k: usize = 0;
        while k < node.children.len()
            invariant
                k <= node.children.len(),
                src == self.source(),
                self.wf(),
                self.counted(0),
                src.nodes[0] == node@,
                top@ == empty_scope(),
                functions_view(out@) == src.root_items(k as int),
            decreases node.children.len() - k,
        {
            let c = node.children[k];
            proof {
                lemma_child(src.nodes, 0, k as int);
            }
            match &self.kinds[c] {
                NodeKind::Condition { .. } => {
                    self.build_condition(c, &top, &mut out);
                },
                NodeKind::Action { .. } => {
                    let text = to_chars(self.nodes[c].text.as_str());
                    let stem = stem_of_action(&text);
                    let test = FunctionDefinition {
                        identifier: test_identifier(&stem, &stem, self.nodes[c].text.as_str()),
                        ty: FunctionTy::Test,
                        modifiers: Vec::new(),
                        children: self.action_body(c),
                        line: self.nodes[c].line,
                    };
                    assert(test@.modifiers =~= Seq::<Seq<char>>::empty());
                    proof {
                        lemma_functions_view_push(out@, test);
                    }
                    out.push(test);
                },
                _ => {
                },
            }
            k += 1;
        }
        out
    }
}

/// Once a fault is found among the first `n` nodes, it stays the first
/// however many nodes follow.
pub proof fn lemma_fault_stays(source: Source, n: int, m: int)
    requires
        n <= m,
        source.first_fault(n).is_some(),
    ensures
        source.first_fault(m) == source.first_fault(n),
    decreases m - n,
{
    if n < m {
        lemma_fault_stays(source, n, m - 1);
    }
}

/// Once a collision is found among the first `n` definitions, it stays the
/// first however many definitions follow.
pub proof fn lemma_collision_stays(items: Seq<FunctionView>, n: int, m: int)
    requires
        n <= m,
        first_collision(items, n).is_some(),
    ensures
        first_collision(items, m) == first_collision(items, n),
    decreases m - n,
{
    if n < m {
        lemma_collision_stays(items, n, m - 1);
    }
}

/// The first definition whose identifier an earlier one has already.
fn find_collision(items: &Vec<FunctionDefinition>) -> (r: Option<BuildError>)
    ensures
        r == first_collision(functions_view(items@), items.len() as int),
{
    let ghost view = functions_view(items@);
    let mut k: usize = 0;
    while k < items.len()
        invariant
            k <= items.len(),
            view == functions_view(items@),
            first_collision(view, k as int).is_none(),
        decreases items.len() - k,
    {
        let mut j: usize = 0;
        while j < k
            invariant
                j <= k < items.len(),
                view == functions_view(items@),
                first_collision(view, k as int).is_none(),
                !declares(view, view[k as int].identifier, j as int),
            decreases k - j,
        {
            if items[j].identifier == items[k].identifier {
                proof {
                    lemma_declares_later(view, view[k as int].identifier, j + 1, k as int);
                    lemma_collision_stays(view, k + 1, items.len() as int);
                }
                return Some(BuildError::IdentifierCollision { line: items[k].line });
            }
            j += 1;
        }
        k += 1;
    }
    None
}

/// What is declared among the first `n` definitions is declared among the
/// first `m`, for any `m` from `n` on.
pub proof fn lemma_declares_later(items: Seq<FunctionView>, name: Seq<char>, n: int, m: int)
    requires
        n <= m,
        declares(items, name, n),
    ensures
        declares(items, name, m),
    decreases m - n,
{
    if n < m {
        lemma_declares_later(items, name, n, m - 1);
    }
}

/// Builds the file of a classified tree, or reports why it cannot be built.
pub fn build(nodes: &Vec<RawNode>, kinds: &Vec<NodeKind>, cfg: &Config) -> (result: Result<
    Root,
    BuildError,
>)
    requires
        is_tree(nodes_view(nodes@)),
        kinds.len() == nodes.len(),
    ensures
        match result {
            Ok(root) => built(source_of(nodes@, kinds@, *cfg)) == Ok::<RootView, BuildError>(
                root@,
            ),
            Err(e) => built(source_of(nodes@, kinds@, *cfg)) == Err::<RootView, BuildError>(e),
        },
{
    let mut builder = Builder {
        nodes,
        kinds,
        counts: Vec::new(),
        emit_vm_skip: cfg.emit_vm_skip,
        skip_modifiers: cfg.skip_modifiers,
    };
    builder.count();
    match builder.find_fault() {
        Some(e) => {
            return Err(e);
        },
        None => {},
    }
    let children = builder.build_root();
    match find_collision(&children) {
        Some(e) => {
            return Err(e);
        },
        None => {},
    }
    Ok(Root { contract: ContractDefinition { identifier: nodes[0].text.clone(), children } })
}

/// What translating a text yields: the tree is parsed, classified and built,
/// and the first stage that fails gives the error.
pub open spec fn translated(text: Seq<char>, emit_vm_skip: bool, skip_modifiers: bool) -> Result<
    RootView,
    Error,
> {
    match parsed(scanned(text)) {
        Err(e) => Err(Error::Parse(e)),
        Ok(nodes) => match classified(nodes) {
            Err(e) => Err(Error::Classification(e)),
            Ok(kinds) => match built(Source { nodes, kinds, emit_vm_skip, skip_modifiers }) {
                Err(e) => Err(Error::Build(e)),
                Ok(root) => Ok(root),
            },
        },
    }
}

/// Translates the text of a tree into its representation: a file with one
/// contract.
pub fn translate(text: &str, cfg: &Config) -> (result: Result<Hir, Error>)
    ensures
        match result {
            Ok(hir) => hir@ is Root && translated(text@, cfg.emit_vm_skip, cfg.skip_modifiers)
                == Ok::<RootView, Error>(hir@->Root_0),
            Err(e) => translated(text@, cfg.emit_vm_skip, cfg.skip_modifiers) == Err::<
                RootView,
                Error,
            >(e),
        },
{
    let nodes = match parse(text) {
        Ok(nodes) => nodes,
        Err(e) => {
            return Err(Error::Parse(e));
        },
    };
    let kinds = match classify(&nodes) {
        Ok(kinds) => kinds,
        Err(e) => {
            return Err(Error::Classification(e));
        },
    };
    assert(kinds_view(kinds@).len() == nodes_view(nodes@).len());
    match build(&nodes, &kinds, cfg) {
        Ok(root) => Ok(Hir::Root(root)),
        Err(e) => Err(Error::Build(e)),
    }
}

} // verus!
