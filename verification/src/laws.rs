//! What holds of every contract that the builder yields, proved from the
//! definitions in the builder.

use crate::builder::{
    built, declares, empty_scope, first_collision, translated, ScopeView, Source,
};
use crate::classifier::{
    admits_branches, classified, first_misplaced, is_misplaced, kind_of, kinds_of,
};
use crate::hir::{FunctionTy, FunctionView, ItemView, RootView, Statement, StatementType};
use crate::naming::{is_identifier, is_revert, lemma_sanitized_is_identifier, test_name};
use crate::emitter::{
    fn_header_text, function_text, items_text, modifier_text, statement_text,
};
use crate::parser::{
    children_by_parent, is_tree, lemma_child, lemma_first_fault_none, lemma_tree_of_is_tree,
    parsed, RawNodeView,
};
use crate::scanner::{lines, scanned, tokens_of};
use vstd::prelude::*;

verus! {

/// The number of test functions among the definitions.
pub open spec fn test_count(items: Seq<FunctionView>) -> nat
    decreases items.len(),
{
    if items.len() == 0 {
        0
    } else {
        test_count(items.drop_last()) + if items.last().ty == FunctionTy::Test {
            1nat
        } else {
            0nat
        }
    }
}

/// Counting test functions goes piece by piece.
pub proof fn lemma_test_count_concat(a: Seq<FunctionView>, b: Seq<FunctionView>)
    ensures
        test_count(a + b) == test_count(a) + test_count(b),
    decreases b.len(),
{
    if b.len() > 0 {
        lemma_test_count_concat(a, b.drop_last());
        assert((a + b).drop_last() =~= a + b.drop_last());
    }
}

/// One definition counts as one test function, or as none where it is a
/// modifier; no definition counts as none.
pub proof fn lemma_test_count_one(f: FunctionView)
    ensures
        test_count(seq![f]) == if f.ty == FunctionTy::Test {
            1nat
        } else {
            0nat
        },
        test_count(Seq::<FunctionView>::empty()) == 0,
{
    assert(seq![f].drop_last() =~= Seq::<FunctionView>::empty());
    assert(test_count(Seq::<FunctionView>::empty()) == 0);
}

impl Source {
    /// The number of test functions that the first `k` children of the root
    /// call for: one for each action, and for each condition as many as it
    /// resolves to.
    pub open spec fn root_resolved(self, k: int) -> nat
        decreases k,
    {
        if k <= 0 || k > self.fanout(0) {
            0
        } else {
            let c = self.child(0, k - 1);
            self.root_resolved(k - 1) + match self.kinds[c] {
                crate::classifier::NodeKindView::Condition { .. } => self.resolved(c),
                crate::classifier::NodeKindView::Action { .. } => 1,
                _ => 0,
            }
        }
    }

    /// The number of test functions that the tree calls for.
    pub open spec fn groups(self) -> nat {
        self.root_resolved(self.fanout(0))
    }
}

/// A condition yields as many test functions as it resolves to.
pub proof fn lemma_count_of(source: Source, i: int, scope: ScopeView)
    requires
        source.wf(),
        0 <= i < source.nodes.len(),
    ensures
        test_count(source.items_of(i, scope)) == source.resolved(i),
    decreases source.nodes.len() - i, source.fanout(i) + 1,
{
    let modifier = if source.promoted(i) {
        seq![source.modifier_def(i)]
    } else {
        Seq::empty()
    };
    let test = if source.has_actions(i) {
        seq![source.group_test(i, scope)]
    } else {
        Seq::empty()
    };
    let rest = source.items_among(i, source.passed_on(i, scope), source.fanout(i));
    lemma_count_among(source, i, source.passed_on(i, scope), source.fanout(i));
    lemma_test_count_concat(modifier, test);
    lemma_test_count_concat(modifier + test, rest);
    lemma_test_count_one(source.modifier_def(i));
    lemma_test_count_one(source.group_test(i, scope));
}

/// The conditions among the first `k` children of a node yield as many test
/// functions as they resolve to.
pub proof fn lemma_count_among(source: Source, i: int, scope: ScopeView, k: int)
    requires
        source.wf(),
        0 <= i < source.nodes.len(),
        0 <= k <= source.fanout(i),
    ensures
        test_count(source.items_among(i, scope, k)) == source.resolved_among(i, k),
    decreases source.nodes.len() - i, k,
{
    if k > 0 {
        lemma_count_among(source, i, scope, k - 1);
        let c = source.child(i, k - 1);
        lemma_child(source.nodes, i, k - 1);
        let last = if source.kinds[c] is Condition {
            source.items_of(c, scope)
        } else {
            Seq::empty()
        };
        lemma_test_count_one(source.modifier_def(i));
        if source.kinds[c] is Condition {
            lemma_count_of(source, c, scope);
        }
        lemma_test_count_concat(source.items_among(i, scope, k - 1), last);
    }
}

/// The first `k` children of the root yield as many test functions as they
/// call for.
pub proof fn lemma_count_root(source: Source, k: int)
    requires
        source.wf(),
        0 <= k <= source.fanout(0),
    ensures
        test_count(source.root_items(k)) == source.root_resolved(k),
    decreases k,
{
    if k > 0 {
        lemma_count_root(source, k - 1);
        let c = source.child(0, k - 1);
        lemma_child(source.nodes, 0, k - 1);
        let last = match source.kinds[c] {
            crate::classifier::NodeKindView::Condition { .. } => source.items_of(
                c,
                empty_scope(),
            ),
            crate::classifier::NodeKindView::Action { .. } => seq![source.action_test(c)],
            _ => Seq::empty(),
        };
        lemma_test_count_one(source.action_test(c));
        if source.kinds[c] is Condition {
            lemma_count_of(source, c, empty_scope());
        }
        lemma_test_count_concat(source.root_items(k - 1), last);
    }
}

/// The contract holds exactly as many test functions as the tree calls for:
/// one for each action directly below the root, and one for each condition
/// that has an action among its children.
pub proof fn lemma_function_count(source: Source)
    requires
        source.wf(),
    ensures
        test_count(source.items()) == source.groups(),
{
    lemma_count_root(source, source.fanout(0));
}

/// `good` holds of every definition in the list.
pub open spec fn each(items: Seq<FunctionView>, good: spec_fn(FunctionView) -> bool) -> bool {
    forall|k: int| 0 <= k < items.len() ==> good(#[trigger] items[k])
}

/// What holds of each definition of two lists holds of each definition of
/// their concatenation.
pub proof fn lemma_each_concat(
    a: Seq<FunctionView>,
    b: Seq<FunctionView>,
    good: spec_fn(FunctionView) -> bool,
)
    requires
        each(a, good),
        each(b, good),
    ensures
        each(a + b, good),
{
}

/// The hypotheses of the two lemmas below: `inv` holds of the scope that
/// every condition passes on, given that it holds of the scope that
/// reaches it, and `good` holds of every modifier and of every test
/// function of a condition that such a scope reaches.
pub open spec fn carries(
    source: Source,
    inv: spec_fn(ScopeView) -> bool,
    good: spec_fn(FunctionView) -> bool,
) -> bool {
    &&& forall|j: int, s: ScopeView|
        0 <= j < source.nodes.len() && source.kinds[j] is Condition && inv(s) ==> #[trigger] inv(
            source.passed_on(j, s),
        )
    &&& forall|j: int|
        0 <= j < source.nodes.len() && source.kinds[j] is Condition && source.promoted(j)
            ==> #[trigger] good(source.modifier_def(j))
    &&& forall|j: int, s: ScopeView|
        0 <= j < source.nodes.len() && source.kinds[j] is Condition && inv(s)
            && source.has_actions(j) ==> #[trigger] good(source.group_test(j, s))
}

/// What holds of every modifier and of every test function of a condition
/// holds of every definition that a condition yields.
pub proof fn lemma_each_of(
    source: Source,
    i: int,
    scope: ScopeView,
    inv: spec_fn(ScopeView) -> bool,
    good: spec_fn(FunctionView) -> bool,
)
    requires
        source.wf(),
        0 <= i < source.nodes.len(),
        source.kinds[i] is Condition,
        inv(scope),
        carries(source, inv, good),
    ensures
        each(source.items_of(i, scope), good),
    decreases source.nodes.len() - i, source.fanout(i) + 1,
{
    lemma_each_among(source, i, source.passed_on(i, scope), source.fanout(i), inv, good);
    let modifier = if source.promoted(i) {
        seq![source.modifier_def(i)]
    } else {
        Seq::empty()
    };
    let test = if source.has_actions(i) {
        seq![source.group_test(i, scope)]
    } else {
        Seq::empty()
    };
    lemma_each_concat(modifier, test, good);
    lemma_each_concat(
        modifier + test,
        source.items_among(i, source.passed_on(i, scope), source.fanout(i)),
        good,
    );
}

/// The same of the definitions that the conditions among the first `k`
/// children of a node yield.
pub proof fn lemma_each_among(
    source: Source,
    i: int,
    scope: ScopeView,
    k: int,
    inv: spec_fn(ScopeView) -> bool,
    good: spec_fn(FunctionView) -> bool,
)
    requires
        source.wf(),
        0 <= i < source.nodes.len(),
        0 <= k <= source.fanout(i),
        inv(scope),
        carries(source, inv, good),
    ensures
        each(source.items_among(i, scope, k), good),
    decreases source.nodes.len() - i, k,
{
    if k > 0 {
        lemma_each_among(source, i, scope, k - 1, inv, good);
        let c = source.child(i, k - 1);
        lemma_child(source.nodes, i, k - 1);
        let last = if source.kinds[c] is Condition {
            source.items_of(c, scope)
        } else {
            Seq::empty()
        };
        if source.kinds[c] is Condition {
            lemma_each_of(source, c, scope, inv, good);
        }
        lemma_each_concat(source.items_among(i, scope, k - 1), last, good);
    }
}

/// The same of all definitions of the contract, where `good` holds of the
/// test function of every action directly below the root as well.
pub proof fn lemma_each_root(
    source: Source,
    k: int,
    inv: spec_fn(ScopeView) -> bool,
    good: spec_fn(FunctionView) -> bool,
)
    requires
        source.wf(),
        0 <= k <= source.fanout(0),
        inv(empty_scope()),
        carries(source, inv, good),
        forall|q: int|
            0 <= q < source.fanout(0) && source.kinds[source.child(0, q)] is Action ==> good(
                #[trigger] source.action_test(source.child(0, q)),
            ),
    ensures
        each(source.root_items(k), good),
    decreases k,
{
    if k > 0 {
        lemma_each_root(source, k - 1, inv, good);
        let c = source.child(0, k - 1);
        lemma_child(source.nodes, 0, k - 1);
        let last = match source.kinds[c] {
            crate::classifier::NodeKindView::Condition { .. } => source.items_of(
                c,
                empty_scope(),
            ),
            crate::classifier::NodeKindView::Action { .. } => seq![source.action_test(c)],
            _ => Seq::empty(),
        };
        if source.kinds[c] is Condition {
            lemma_each_of(source, c, empty_scope(), inv, good);
        }
        lemma_each_concat(source.root_items(k - 1), last, good);
    }
}

/// `text` begins with `prefix`.
pub open spec fn has_prefix(text: Seq<char>, prefix: Seq<char>) -> bool {
    text.len() >= prefix.len() && text.take(prefix.len() as int) == prefix
}

/// The identifier of a test function is an identifier.
pub proof fn lemma_test_name_is_identifier(chain: Seq<char>, bare: Seq<char>, first: Seq<char>)
    ensures
        is_identifier(test_name(chain, bare, first)),
{
    reveal_strlit("test_");
    reveal_strlit("test_RevertWhen_");
    lemma_sanitized_is_identifier(chain);
    lemma_sanitized_is_identifier(bare);
}

/// Every identifier of a definition is made of identifier characters: its
/// own and those of the modifiers it applies.
pub open spec fn is_clean(f: FunctionView) -> bool {
    &&& is_identifier(f.identifier)
    &&& forall|m: int| 0 <= m < f.modifiers.len() ==> is_identifier(#[trigger] f.modifiers[m])
}

/// Every modifier of a scope is an identifier.
pub open spec fn clean_scope(scope: ScopeView) -> bool {
    forall|m: int| 0 <= m < scope.modifiers.len() ==> is_identifier(#[trigger] scope.modifiers[m])
}

/// Every identifier in the contract, of a modifier or of a test function,
/// declared or applied, holds identifier characters only.
pub proof fn lemma_identifiers_clean(source: Source)
    requires
        source.wf(),
    ensures
        forall|k: int| 0 <= k < source.items().len() ==> is_clean(#[trigger] source.items()[k]),
{
    let inv = |s: ScopeView| clean_scope(s);
    let good = |f: FunctionView| is_clean(f);
    assert forall|j: int, s: ScopeView|
        0 <= j < source.nodes.len() && source.kinds[j] is Condition && inv(s) implies #[trigger] inv(
        source.passed_on(j, s),
    ) by {
        lemma_sanitized_is_identifier(
            crate::classifier::keyword_text(source.keyword(j)) + crate::naming::pascal(
                source.phrase(j),
            ),
        );
    }
    assert forall|j: int|
        0 <= j < source.nodes.len() && source.kinds[j] is Condition && source.promoted(
            j,
        ) implies #[trigger] good(source.modifier_def(j)) by {
        lemma_sanitized_is_identifier(
            crate::classifier::keyword_text(source.keyword(j)) + crate::naming::pascal(
                source.phrase(j),
            ),
        );
    }
    assert forall|j: int, s: ScopeView|
        0 <= j < source.nodes.len() && source.kinds[j] is Condition && inv(s)
            && source.has_actions(j) implies #[trigger] good(source.group_test(j, s)) by {
        let inner = source.entered(j, s);
        lemma_test_name_is_identifier(
            inner.chain,
            inner.bare,
            source.nodes[source.first_action(j, 0).unwrap()].text,
        );
        lemma_sanitized_is_identifier(
            crate::classifier::keyword_text(source.keyword(j)) + crate::naming::pascal(
                source.phrase(j),
            ),
        );
    }
    assert forall|q: int|
        0 <= q < source.fanout(0) && source.kinds[source.child(0, q)] is Action implies good(
        #[trigger] source.action_test(source.child(0, q)),
    ) by {
        let text = source.nodes[source.child(0, q)].text;
        let stem = crate::naming::action_stem(text);
        lemma_test_name_is_identifier(stem, stem, text);
    }
    lemma_each_root(source, source.fanout(0), inv, good);
}

/// Every line of the list is a comment.
pub open spec fn all_comments(items: Seq<ItemView>) -> bool {
    forall|k: int| 0 <= k < items.len() ==> #[trigger] items[k] is Comment
}

/// The skip statement.
pub open spec fn skip_statement() -> ItemView {
    ItemView::Statement(Statement { ty: StatementType::VmSkip })
}

/// The body of a definition is as the skip setting asks: a modifier has no
/// body; a test function holds comments only, followed by exactly one skip
/// statement where skipping is on.
pub open spec fn body_closed(emit_vm_skip: bool, f: FunctionView) -> bool {
    match f.ty {
        FunctionTy::Modifier => f.children.len() == 0,
        FunctionTy::Test => if emit_vm_skip {
            f.children.len() >= 1 && f.children.last() == skip_statement() && all_comments(
                f.children.drop_last(),
            )
        } else {
            all_comments(f.children)
        },
    }
}

/// The lines of a node and of everything below it are comments, the first
/// of them the node's own.
pub proof fn lemma_comments_of(source: Source, a: int, base: nat)
    requires
        source.wf(),
        0 <= a < source.nodes.len(),
    ensures
        all_comments(source.comments_of(a, base)),
        source.comments_of(a, base).len() >= 1,
        source.comments_of(a, base)[0] == ItemView::Comment(
            crate::hir::CommentView {
                lexeme: source.nodes[a].text,
                depth: (source.nodes[a].depth - base) as nat,
            },
        ),
    decreases source.nodes.len() - a, source.fanout(a) + 1,
{
    lemma_comments_among(source, a, base, source.fanout(a));
}

/// The lines of the first `k` children of a node and of everything below
/// them are comments.
pub proof fn lemma_comments_among(source: Source, a: int, base: nat, k: int)
    requires
        source.wf(),
        0 <= a < source.nodes.len(),
        0 <= k <= source.fanout(a),
    ensures
        all_comments(source.comments_among(a, base, k)),
    decreases source.nodes.len() - a, k,
{
    if k > 0 {
        lemma_comments_among(source, a, base, k - 1);
        lemma_child(source.nodes, a, k - 1);
        lemma_comments_of(source, source.child(a, k - 1), base);
    }
}

impl Source {
    /// The first action among the first `k` children of node `i`.
    pub open spec fn lead(self, i: int, k: int) -> Option<int>
        decreases k,
    {
        if k <= 0 || k > self.fanout(i) {
            None
        } else {
            match self.lead(i, k - 1) {
                Some(a) => Some(a),
                None => if self.kinds[self.child(i, k - 1)] is Action {
                    Some(self.child(i, k - 1))
                } else {
                    None
                },
            }
        }
    }
}

/// The first action among the first `k` children is the first action of
/// all where there is one; where there is none, the first action of all is
/// the first from child `k` on.
pub proof fn lemma_lead(source: Source, i: int, k: int)
    requires
        0 <= k <= source.fanout(i),
    ensures
        match source.lead(i, k) {
            Some(a) => source.first_action(i, 0) == Some(a),
            None => source.first_action(i, 0) == source.first_action(i, k),
        },
    decreases k,
{
    if k > 0 {
        lemma_lead(source, i, k - 1);
    }
}

/// The comments of a group are comments, and the first of them is the
/// first action's own line, at depth 0.
pub proof fn lemma_group_comments(source: Source, i: int, k: int)
    requires
        source.wf(),
        0 <= i < source.nodes.len(),
        0 <= k <= source.fanout(i),
    ensures
        all_comments(source.group_comments(i, k)),
        match source.lead(i, k) {
            Some(a) => source.group_comments(i, k).len() >= 1 && source.group_comments(i, k)[0]
                == ItemView::Comment(
                crate::hir::CommentView { lexeme: source.nodes[a].text, depth: 0 },
            ),
            None => source.group_comments(i, k).len() == 0,
        },
    decreases k,
{
    if k > 0 {
        lemma_group_comments(source, i, k - 1);
        lemma_child(source.nodes, i, k - 1);
        let c = source.child(i, k - 1);
        lemma_comments_of(source, c, source.nodes[c].depth);
    }
}

/// With the skip setting on, the body of every test function ends with
/// exactly one skip statement and holds comments before it; with the
/// setting off it holds comments only. A modifier never has a body.
pub proof fn lemma_bodies_closed(source: Source)
    requires
        source.wf(),
    ensures
        forall|k: int|
            0 <= k < source.items().len() ==> body_closed(
                source.emit_vm_skip,
                #[trigger] source.items()[k],
            ),
{
    let inv = |s: ScopeView| true;
    let good = |f: FunctionView| body_closed(source.emit_vm_skip, f);
    assert forall|j: int, s: ScopeView|
        0 <= j < source.nodes.len() && source.kinds[j] is Condition && inv(s)
            && source.has_actions(j) implies #[trigger] good(source.group_test(j, s)) by {
        lemma_group_comments(source, j, source.fanout(j));
    }
    assert forall|q: int|
        0 <= q < source.fanout(0) && source.kinds[source.child(0, q)] is Action implies good(
        #[trigger] source.action_test(source.child(0, q)),
    ) by {
        let a = source.child(0, q);
        lemma_child(source.nodes, 0, q);
        lemma_comments_of(source, a, source.nodes[a].depth);
    }
    lemma_each_root(source, source.fanout(0), inv, good);
}

/// The identifier of a test function whose first action expects a revert
/// begins with this.
pub open spec fn revert_marker() -> Seq<char> {
    "test_RevertWhen_"@
}

/// The text of the first comment of a test function.
pub open spec fn first_comment(f: FunctionView) -> Seq<char> {
    f.children[0]->Comment_0.lexeme
}

/// A test function is named by its first comment: its body begins with a
/// comment, and its identifier begins with the revert marker exactly where
/// that comment expects a revert.
pub open spec fn named_by_first_comment(f: FunctionView) -> bool {
    f.ty == FunctionTy::Test ==> f.children.len() >= 1 && f.children[0] is Comment && (has_prefix(
        f.identifier,
        revert_marker(),
    ) <==> is_revert(first_comment(f)))
}

/// A name that is empty or begins with a capitalised keyword.
pub open spec fn opens_with_keyword(chain: Seq<char>) -> bool {
    chain.len() == 0 || chain[0] == 'W' || chain[0] == 'G'
}

/// The identifier of a test function that folds at least one condition
/// into its name begins with the revert marker exactly where its first
/// action expects a revert.
pub proof fn lemma_marker_of_folded(chain: Seq<char>, bare: Seq<char>, first: Seq<char>)
    requires
        chain.len() > 0,
        chain[0] == 'W' || chain[0] == 'G',
    ensures
        has_prefix(test_name(chain, bare, first), revert_marker()) <==> is_revert(first),
{
    reveal_strlit("test_");
    reveal_strlit("test_RevertWhen_");
    let name = test_name(chain, bare, first);
    if is_revert(first) {
        assert(name.take(revert_marker().len() as int) =~= revert_marker());
    } else {
        if has_prefix(name, revert_marker()) {
            assert(name.take(revert_marker().len() as int)[5] == name[5]);
        }
    }
}

/// The name that a condition hands to its own test function opens with a
/// keyword, and so does the name it passes on unless that is empty.
pub proof fn lemma_entered_opens(source: Source, j: int, s: ScopeView)
    requires
        opens_with_keyword(s.chain),
    ensures
        source.entered(j, s).chain.len() > 0,
        source.entered(j, s).chain[0] == 'W' || source.entered(j, s).chain[0] == 'G',
        opens_with_keyword(source.passed_on(j, s).chain),
{
    reveal_strlit("When");
    reveal_strlit("Given");
}

/// Every test function that a condition yields is named by its first
/// comment: its identifier begins with `test_RevertWhen_` if and only if
/// the text of that comment begins, letter case aside, with `it should
/// revert`.
pub proof fn lemma_revert_naming_of(source: Source, i: int, scope: ScopeView)
    requires
        source.wf(),
        0 <= i < source.nodes.len(),
        source.kinds[i] is Condition,
        opens_with_keyword(scope.chain),
    ensures
        each(source.items_of(i, scope), |f: FunctionView| named_by_first_comment(f)),
{
    let inv = |s: ScopeView| opens_with_keyword(s.chain);
    let good = |f: FunctionView| named_by_first_comment(f);
    lemma_revert_naming_carries(source);
    lemma_each_of(source, i, scope, inv, good);
}

/// The hypotheses of the induction hold of the naming rule.
proof fn lemma_revert_naming_carries(source: Source)
    requires
        source.wf(),
    ensures
        carries(
            source,
            |s: ScopeView| opens_with_keyword(s.chain),
            |f: FunctionView| named_by_first_comment(f),
        ),
{
    let inv = |s: ScopeView| opens_with_keyword(s.chain);
    let good = |f: FunctionView| named_by_first_comment(f);
    assert forall|j: int, s: ScopeView|
        0 <= j < source.nodes.len() && source.kinds[j] is Condition && inv(s) implies #[trigger] inv(
        source.passed_on(j, s),
    ) by {
        lemma_entered_opens(source, j, s);
    }
    assert forall|j: int, s: ScopeView|
        0 <= j < source.nodes.len() && source.kinds[j] is Condition && inv(s)
            && source.has_actions(j) implies #[trigger] good(source.group_test(j, s)) by {
        lemma_group_test_named(source, j, s);
    }
}

/// The test function of a condition is named by its first comment.
pub proof fn lemma_group_test_named(source: Source, j: int, s: ScopeView)
    requires
        source.wf(),
        0 <= j < source.nodes.len(),
        opens_with_keyword(s.chain),
        source.has_actions(j),
    ensures
        named_by_first_comment(source.group_test(j, s)),
{
    lemma_entered_opens(source, j, s);
    lemma_group_comments(source, j, source.fanout(j));
    lemma_lead(source, j, source.fanout(j));
    let inner = source.entered(j, s);
    let a = source.first_action(j, 0).unwrap();
    lemma_marker_of_folded(inner.chain, inner.bare, source.nodes[a].text);
}

/// Every test function of the contract is named by its first comment: its
/// identifier begins with `test_RevertWhen_` if and only if the text of
/// that comment begins, letter case aside, with `it should revert`. Left
/// out are the trees with an action directly below the root that expects no
/// revert and whose own words make a name that begins with the marker.
pub proof fn lemma_revert_naming(source: Source)
    requires
        source.wf(),
        forall|q: int|
            0 <= q < source.fanout(0) && source.kinds[source.child(0, q)] is Action && !is_revert(
                source.nodes[source.child(0, q)].text,
            ) ==> !has_prefix(
                #[trigger] source.action_test(source.child(0, q)).identifier,
                revert_marker(),
            ),
    ensures
        forall|k: int|
            0 <= k < source.items().len() ==> named_by_first_comment(#[trigger] source.items()[k]),
{
    let inv = |s: ScopeView| opens_with_keyword(s.chain);
    let good = |f: FunctionView| named_by_first_comment(f);
    lemma_revert_naming_carries(source);
    assert forall|q: int|
        0 <= q < source.fanout(0) && source.kinds[source.child(0, q)] is Action implies good(
        #[trigger] source.action_test(source.child(0, q)),
    ) by {
        let a = source.child(0, q);
        lemma_child(source.nodes, 0, q);
        lemma_comments_of(source, a, source.nodes[a].depth);
        let f = source.action_test(a);
        reveal_strlit("test_RevertWhen_");
        if is_revert(source.nodes[a].text) {
            assert(f.identifier.take(revert_marker().len() as int) =~= revert_marker());
        }
    }
    lemma_each_root(source, source.fanout(0), inv, good);
}

/// Every action directly below the root that expects a revert gets a
/// function whose identifier begins with the revert marker, whatever its
/// words.
pub proof fn lemma_revert_marks_root_action(source: Source, a: int)
    requires
        is_revert(source.nodes[a].text),
    ensures
        has_prefix(source.action_test(a).identifier, revert_marker()),
{
    reveal_strlit("test_RevertWhen_");
    assert(source.action_test(a).identifier.take(revert_marker().len() as int)
        =~= revert_marker());
}

/// `part` occurs somewhere in `text`.
pub open spec fn contains(text: Seq<char>, part: Seq<char>) -> bool {
    exists|i: int|
        0 <= i <= text.len() - part.len() && #[trigger] text.subrange(i, i + part.len()) == part
}

/// An identifier that begins with the revert marker contains `RevertWhen_`.
pub proof fn lemma_marker_contains(name: Seq<char>)
    requires
        has_prefix(name, revert_marker()),
    ensures
        contains(name, "RevertWhen_"@),
{
    reveal_strlit("test_RevertWhen_");
    reveal_strlit("RevertWhen_");
    let whole = name.take(revert_marker().len() as int);
    assert(name.subrange(5, 5 + "RevertWhen_"@.len() as int) =~= whole.subrange(5, 16));
    assert(whole.subrange(5, 16) =~= "RevertWhen_"@);
}

/// The identifier of a test function contains `RevertWhen_` if and only if
/// the text of its first comment begins, letter case aside, with `it should
/// revert`. Left out are the trees that give a test function whose first
/// comment expects no revert a name that holds `RevertWhen_` by its own
/// words.
pub proof fn lemma_revert_naming_contains(source: Source)
    requires
        source.wf(),
        forall|k: int|
            0 <= k < source.items().len() && (#[trigger] source.items()[k]).ty
                == FunctionTy::Test && !is_revert(first_comment(source.items()[k])) ==> !contains(
                source.items()[k].identifier,
                "RevertWhen_"@,
            ),
    ensures
        forall|k: int|
            0 <= k < source.items().len() && (#[trigger] source.items()[k]).ty
                == FunctionTy::Test ==> (contains(source.items()[k].identifier, "RevertWhen_"@)
                <==> is_revert(first_comment(source.items()[k]))),
{
    let inv = |s: ScopeView| opens_with_keyword(s.chain);
    let good = |f: FunctionView|
        f.ty == FunctionTy::Test && is_revert(first_comment(f)) ==> has_prefix(
            f.identifier,
            revert_marker(),
        );
    assert forall|j: int, s: ScopeView|
        0 <= j < source.nodes.len() && source.kinds[j] is Condition && inv(s) implies #[trigger] inv(
        source.passed_on(j, s),
    ) by {
        lemma_entered_opens(source, j, s);
    }
    assert forall|j: int, s: ScopeView|
        0 <= j < source.nodes.len() && source.kinds[j] is Condition && inv(s)
            && source.has_actions(j) implies #[trigger] good(source.group_test(j, s)) by {
        lemma_group_test_named(source, j, s);
    }
    assert forall|q: int|
        0 <= q < source.fanout(0) && source.kinds[source.child(0, q)] is Action implies good(
        #[trigger] source.action_test(source.child(0, q)),
    ) by {
        let a = source.child(0, q);
        lemma_child(source.nodes, 0, q);
        lemma_comments_of(source, a, source.nodes[a].depth);
        let f = source.action_test(a);
        if is_revert(source.nodes[a].text) {
            lemma_revert_marks_root_action(source, a);
        }
    }
    lemma_each_root(source, source.fanout(0), inv, good);
    assert forall|k: int|
        0 <= k < source.items().len() && (#[trigger] source.items()[k]).ty
            == FunctionTy::Test implies (contains(source.items()[k].identifier, "RevertWhen_"@)
        <==> is_revert(first_comment(source.items()[k]))) by {
        let f = source.items()[k];
        if is_revert(first_comment(f)) {
            lemma_marker_contains(f.identifier);
        }
    }
}

/// A condition below a node resolves to no more test functions than the
/// conditions among the node's children together.
pub proof fn lemma_resolved_among_bounds(source: Source, i: int, k: int, q: int)
    requires
        source.wf(),
        0 <= i < source.nodes.len(),
        0 <= q < k <= source.fanout(i),
        source.kinds[source.child(i, q)] is Condition,
    ensures
        source.resolved(source.child(i, q)) <= source.resolved_among(i, k),
    decreases k,
{
    lemma_child(source.nodes, i, q);
    if q < k - 1 {
        lemma_resolved_among_bounds(source, i, k - 1, q);
    }
}

/// A condition that is not promoted yields test functions only: neither it
/// nor any condition below it becomes a modifier.
pub proof fn lemma_folded_yields_tests(source: Source, i: int, scope: ScopeView)
    requires
        source.wf(),
        0 <= i < source.nodes.len(),
        !source.promoted(i),
    ensures
        each(source.items_of(i, scope), |f: FunctionView| f.ty == FunctionTy::Test),
    decreases source.nodes.len() - i, source.fanout(i) + 1,
{
    let good = |f: FunctionView| f.ty == FunctionTy::Test;
    let test = if source.has_actions(i) {
        seq![source.group_test(i, scope)]
    } else {
        Seq::empty()
    };
    let none = Seq::<FunctionView>::empty();
    lemma_folded_yields_tests_among(source, i, source.passed_on(i, scope), source.fanout(i));
    lemma_each_concat(none, test, good);
    lemma_each_concat(
        none + test,
        source.items_among(i, source.passed_on(i, scope), source.fanout(i)),
        good,
    );
}

/// The same of the conditions among the first `k` children of a node that
/// is not promoted.
pub proof fn lemma_folded_yields_tests_among(source: Source, i: int, scope: ScopeView, k: int)
    requires
        source.wf(),
        0 <= i < source.nodes.len(),
        0 <= k <= source.fanout(i),
        !source.promoted(i),
    ensures
        each(source.items_among(i, scope, k), |f: FunctionView| f.ty == FunctionTy::Test),
    decreases source.nodes.len() - i, k,
{
    let good = |f: FunctionView| f.ty == FunctionTy::Test;
    if k > 0 {
        lemma_folded_yields_tests_among(source, i, scope, k - 1);
        let c = source.child(i, k - 1);
        lemma_child(source.nodes, i, k - 1);
        let last = if source.kinds[c] is Condition {
            source.items_of(c, scope)
        } else {
            Seq::empty()
        };
        if source.kinds[c] is Condition {
            lemma_resolved_among_bounds(source, i, source.fanout(i), k - 1);
            lemma_folded_yields_tests(source, c, scope);
        }
        lemma_each_concat(source.items_among(i, scope, k - 1), last, good);
    }
}

/// With promotion on, a condition yields a modifier if and only if it
/// yields more than one test function, and the modifier is then its own,
/// declared first. A condition that yields one test function yields
/// nothing else: it appears in the name of that function only.
pub proof fn lemma_modifier_law(source: Source, i: int, scope: ScopeView)
    requires
        source.wf(),
        0 <= i < source.nodes.len(),
        source.kinds[i] is Condition,
        !source.skip_modifiers,
    ensures
        test_count(source.items_of(i, scope)) > 1 <==> source.items_of(i, scope).len() > 0
            && source.items_of(i, scope)[0] == source.modifier_def(i),
        test_count(source.items_of(i, scope)) <= 1 ==> each(
            source.items_of(i, scope),
            |f: FunctionView| f.ty == FunctionTy::Test,
        ),
{
    lemma_count_of(source, i, scope);
    if !source.promoted(i) {
        lemma_folded_yields_tests(source, i, scope);
    }
}

/// With promotion off, the contract holds no modifier at all.
pub proof fn lemma_no_modifiers_when_skipped(source: Source)
    requires
        source.wf(),
        source.skip_modifiers,
    ensures
        forall|k: int|
            0 <= k < source.items().len() ==> (#[trigger] source.items()[k]).ty
                == FunctionTy::Test,
{
    let inv = |s: ScopeView| true;
    let good = |f: FunctionView| f.ty == FunctionTy::Test;
    lemma_each_root(source, source.fanout(0), inv, good);
}

/// What is declared among the first `n` definitions: some definition there
/// has the name.
pub proof fn lemma_declares(items: Seq<FunctionView>, n: int, j: int)
    requires
        0 <= j < n,
    ensures
        declares(items, items[j].identifier, n),
    decreases n,
{
    if j < n - 1 {
        lemma_declares(items, n - 1, j);
    }
}

/// Where no collision is found, no two definitions share an identifier.
pub proof fn lemma_identifiers_unique(items: Seq<FunctionView>, n: int)
    requires
        first_collision(items, n).is_none(),
    ensures
        forall|j: int, k: int|
            0 <= j < k < n ==> (#[trigger] items[j]).identifier != (#[trigger] items[k]).identifier,
    decreases n,
{
    if n > 0 {
        lemma_identifiers_unique(items, n - 1);
        assert forall|j: int, k: int| 0 <= j < k < n implies (#[trigger] items[j]).identifier != (
        #[trigger] items[k]).identifier by {
            if k == n - 1 && items[j].identifier == items[k].identifier {
                lemma_declares(items, n - 1, j);
            }
        }
    }
}

/// One of the first `n` definitions is a modifier with the identifier
/// `name`.
pub open spec fn introduces(items: Seq<FunctionView>, name: Seq<char>, n: int) -> bool
    decreases n,
{
    n > 0 && ((items[n - 1].ty == FunctionTy::Modifier && items[n - 1].identifier == name)
        || introduces(items, name, n - 1))
}

/// Every modifier that a definition applies is declared before that
/// definition.
pub open spec fn applies_declared(items: Seq<FunctionView>) -> bool {
    forall|k: int, m: int|
        0 <= k < items.len() && 0 <= m < items[k].modifiers.len() ==> introduces(
            items,
            #[trigger] items[k].modifiers[m],
            k,
        )
}

/// Every modifier of the list is declared among the definitions.
pub open spec fn all_introduced(items: Seq<FunctionView>, modifiers: Seq<Seq<char>>) -> bool {
    forall|m: int|
        0 <= m < modifiers.len() ==> introduces(items, #[trigger] modifiers[m], items.len() as int)
}

/// What is introduced among the first `n` definitions of a list is
/// introduced among the first `n` of any list that begins with it.
pub proof fn lemma_introduces_prefix(
    a: Seq<FunctionView>,
    b: Seq<FunctionView>,
    name: Seq<char>,
    n: int,
)
    requires
        0 <= n <= a.len(),
    ensures
        introduces(a + b, name, n) == introduces(a, name, n),
    decreases n,
{
    if n > 0 {
        lemma_introduces_prefix(a, b, name, n - 1);
    }
}

/// What is introduced among the first `n` definitions is introduced among
/// the first `m`, for any `m` from `n` on.
pub proof fn lemma_introduces_later(items: Seq<FunctionView>, name: Seq<char>, n: int, m: int)
    requires
        n <= m,
        introduces(items, name, n),
    ensures
        introduces(items, name, m),
    decreases m - n,
{
    if n < m {
        lemma_introduces_later(items, name, n, m - 1);
    }
}

/// Appending definitions that apply only what is declared before them keeps
/// the law, and keeps what was introduced.
pub proof fn lemma_applies_declared_concat(
    a: Seq<FunctionView>,
    b: Seq<FunctionView>,
    modifiers: Seq<Seq<char>>,
)
    requires
        applies_declared(a),
        all_introduced(a, modifiers),
        forall|k: int, m: int|
            0 <= k < b.len() && 0 <= m < b[k].modifiers.len() ==> introduces(
                a + b,
                #[trigger] b[k].modifiers[m],
                a.len() + k,
            ),
    ensures
        applies_declared(a + b),
        all_introduced(a + b, modifiers),
{
    let ab = a + b;
    assert forall|k: int, m: int|
        0 <= k < ab.len() && 0 <= m < ab[k].modifiers.len() implies introduces(
        ab,
        #[trigger] ab[k].modifiers[m],
        k,
    ) by {
        if k < a.len() {
            lemma_introduces_prefix(a, b, a[k].modifiers[m], k);
        }
    }
    assert forall|m: int| 0 <= m < modifiers.len() implies introduces(
        ab,
        #[trigger] modifiers[m],
        ab.len() as int,
    ) by {
        lemma_introduces_prefix(a, b, modifiers[m], a.len() as int);
        lemma_introduces_later(ab, modifiers[m], a.len() as int, ab.len() as int);
    }
}

/// Behind definitions that declare every modifier of the scope, the
/// definitions of a condition apply only modifiers declared before them.
pub proof fn lemma_declared_of(source: Source, i: int, scope: ScopeView, pre: Seq<FunctionView>)
    requires
        source.wf(),
        0 <= i < source.nodes.len(),
        source.kinds[i] is Condition,
        applies_declared(pre),
        all_introduced(pre, scope.modifiers),
    ensures
        applies_declared(pre + source.items_of(i, scope)),
        all_introduced(pre + source.items_of(i, scope), scope.modifiers),
    decreases source.nodes.len() - i, source.fanout(i) + 1,
{
    let inner = source.entered(i, scope);
    let below = source.passed_on(i, scope);
    let modifier = if source.promoted(i) {
        seq![source.modifier_def(i)]
    } else {
        Seq::empty()
    };
    let test = if source.has_actions(i) {
        seq![source.group_test(i, scope)]
    } else {
        Seq::empty()
    };
    let rest = source.items_among(i, below, source.fanout(i));
    let a1 = pre + modifier;
    lemma_applies_declared_concat(pre, modifier, scope.modifiers);
    assert(all_introduced(a1, inner.modifiers)) by {
    }
    let a2 = a1 + test;
    assert forall|k: int, m: int|
        0 <= k < test.len() && 0 <= m < test[k].modifiers.len() implies introduces(
        a2,
        #[trigger] test[k].modifiers[m],
        a1.len() + k,
    ) by {
        lemma_introduces_prefix(a1, test, inner.modifiers[m], a1.len() as int);
    }
    lemma_applies_declared_concat(a1, test, inner.modifiers);
    lemma_declared_among(source, i, below, source.fanout(i), a2);
    assert(pre + source.items_of(i, scope) =~= a2 + rest);
    assert forall|m: int| 0 <= m < scope.modifiers.len() implies introduces(
        a2 + rest,
        #[trigger] scope.modifiers[m],
        (a2 + rest).len() as int,
    ) by {
        assert(scope.modifiers[m] == below.modifiers[m]);
    }
}

/// The same of the conditions among the first `k` children of a node.
pub proof fn lemma_declared_among(
    source: Source,
    i: int,
    scope: ScopeView,
    k: int,
    pre: Seq<FunctionView>,
)
    requires
        source.wf(),
        0 <= i < source.nodes.len(),
        0 <= k <= source.fanout(i),
        applies_declared(pre),
        all_introduced(pre, scope.modifiers),
    ensures
        applies_declared(pre + source.items_among(i, scope, k)),
        all_introduced(pre + source.items_among(i, scope, k), scope.modifiers),
    decreases source.nodes.len() - i, k,
{
    if k > 0 {
        lemma_declared_among(source, i, scope, k - 1, pre);
        let c = source.child(i, k - 1);
        lemma_child(source.nodes, i, k - 1);
        let head = pre + source.items_among(i, scope, k - 1);
        if source.kinds[c] is Condition {
            lemma_declared_of(source, c, scope, head);
            assert(pre + source.items_among(i, scope, k) =~= head + source.items_of(c, scope));
        }
    }
}

/// The same of the first `k` children of the root.
pub proof fn lemma_declared_root(source: Source, k: int)
    requires
        source.wf(),
        0 <= k <= source.fanout(0),
    ensures
        applies_declared(source.root_items(k)),
    decreases k,
{
    if k > 0 {
        lemma_declared_root(source, k - 1);
        let c = source.child(0, k - 1);
        lemma_child(source.nodes, 0, k - 1);
        let head = source.root_items(k - 1);
        if source.kinds[c] is Condition {
            lemma_declared_of(source, c, empty_scope(), head);
        } else if source.kinds[c] is Action {
            lemma_applies_declared_concat(
                head,
                seq![source.action_test(c)],
                Seq::<Seq<char>>::empty(),
            );
        }
    }
}

/// Every modifier that a test function of the contract applies is declared
/// before that function.
pub proof fn lemma_modifiers_declared(source: Source)
    requires
        source.wf(),
    ensures
        applies_declared(source.items()),
{
    lemma_declared_root(source, source.fanout(0));
}

/// Below a condition that is folded into names nothing is promoted, so the
/// name of a modifier never has to take in conditions folded before it.
pub proof fn lemma_nothing_promoted_below_folded(source: Source, i: int, q: int)
    requires
        source.wf(),
        0 <= i < source.nodes.len(),
        0 <= q < source.fanout(i),
        source.kinds[source.child(i, q)] is Condition,
        !source.promoted(i),
    ensures
        !source.promoted(source.child(i, q)),
{
    lemma_resolved_among_bounds(source, i, source.fanout(i), q);
}

/// What holds of the contract of every tree that can be built: its
/// definitions are those of the tree, in order; no two share an identifier;
/// it holds as many test functions as the tree calls for; every identifier
/// holds identifier characters only; every body is closed as the skip
/// setting asks; every modifier applied is declared before its use; and with
/// promotion off there is no modifier.
pub proof fn lemma_built_contract(source: Source, root: RootView)
    requires
        source.wf(),
        built(source) == Ok::<RootView, crate::error::BuildError>(root),
    ensures
        root.contract.identifier == source.nodes[0].text,
        root.contract.children == source.items(),
        forall|j: int, k: int|
            0 <= j < k < root.contract.children.len() ==> (
            #[trigger] root.contract.children[j]).identifier != (
            #[trigger] root.contract.children[k]).identifier,
        test_count(root.contract.children) == source.groups(),
        forall|k: int|
            0 <= k < root.contract.children.len() ==> is_clean(
                #[trigger] root.contract.children[k],
            ),
        forall|k: int|
            0 <= k < root.contract.children.len() ==> body_closed(
                source.emit_vm_skip,
                #[trigger] root.contract.children[k],
            ),
        applies_declared(root.contract.children),
        source.skip_modifiers ==> forall|k: int|
            0 <= k < root.contract.children.len() ==> (#[trigger] root.contract.children[k]).ty
                == FunctionTy::Test,
{
    lemma_identifiers_unique(source.items(), source.items().len() as int);
    lemma_function_count(source);
    lemma_identifiers_clean(source);
    lemma_bodies_closed(source);
    lemma_modifiers_declared(source);
    if source.skip_modifiers {
        lemma_no_modifiers_when_skipped(source);
    }
}

/// A text has at most one line more than it has characters.
pub proof fn lemma_lines_len(text: Seq<char>)
    ensures
        1 <= lines(text).len() <= text.len() + 1,
    decreases text.len(),
{
    if text.len() > 0 {
        lemma_lines_len(text.drop_last());
    }
}

/// There are at most as many tokens as lines.
pub proof fn lemma_tokens_len(all: Seq<Seq<char>>)
    ensures
        tokens_of(all).len() <= all.len(),
    decreases all.len(),
{
    if all.len() > 0 {
        lemma_tokens_len(all.drop_last());
    }
}

/// In the text of a test function whose body ends with the skip statement,
/// the line of that statement is the last before the closing brace; the
/// text of a modifier holds its placeholder body and nothing else.
pub proof fn lemma_skip_line_is_last(indent: nat, f: FunctionView)
    requires
        f.children.len() >= 1,
        f.children.last() == skip_statement(),
    ensures
        f.ty == FunctionTy::Test ==> function_text(indent, f) == fn_header_text(indent, f)
            + items_text(indent, f.children.drop_last()) + statement_text(
            indent,
            Statement { ty: StatementType::VmSkip },
        ) + crate::text::spaces(indent) + "}\n\n"@,
        f.ty == FunctionTy::Modifier ==> function_text(indent, f) == modifier_text(
            indent,
            f.identifier,
        ),
{
}

/// The tokens of a text carry the numbers of their lines: each lies
/// between 1 and the number of lines, and they grow from token to token.
pub proof fn lemma_token_lines(all: Seq<Seq<char>>)
    ensures
        forall|i: int|
            0 <= i < tokens_of(all).len() ==> 1 <= (#[trigger] tokens_of(all)[i]).line
                <= all.len(),
        forall|i: int, j: int|
            0 <= i < j < tokens_of(all).len() ==> (#[trigger] tokens_of(all)[i]).line < (
            #[trigger] tokens_of(all)[j]).line,
    decreases all.len(),
{
    if all.len() > 0 {
        lemma_token_lines(all.drop_last());
        let head = tokens_of(all.drop_last());
    }
}

/// The children of a node of a tree stand in the order of their lines:
/// their places in the tree grow from child to child.
pub proof fn lemma_children_in_order(nodes: Seq<RawNodeView>, i: int, n: int)
    requires
        is_tree(nodes),
        0 <= i < nodes.len(),
        0 <= n <= nodes.len(),
    ensures
        forall|j: int, k: int|
            0 <= j < k < children_by_parent(nodes, i, n).len() ==> (#[trigger] children_by_parent(
                nodes,
                i,
                n,
            )[j]) < (#[trigger] children_by_parent(nodes, i, n)[k]),
        forall|k: int|
            0 <= k < children_by_parent(nodes, i, n).len() ==> (#[trigger] children_by_parent(
                nodes,
                i,
                n,
            )[k]) < n,
    decreases n,
{
    if n > 1 {
        lemma_children_in_order(nodes, i, n - 1);
        let head = children_by_parent(nodes, i, n - 1);
    }
}

impl Source {
    /// The parent of node `j`, which is not the root.
    pub open spec fn parent(self, j: int) -> int {
        self.nodes[j].parent.unwrap() as int
    }

    /// Every node has the kind that its place allows: the first is the root
    /// and no other is; conditions and actions stand directly below the root
    /// or a condition.
    pub open spec fn well_kinded(self) -> bool {
        &&& self.kinds[0] is Root
        &&& forall|j: int|
            1 <= j < self.nodes.len() ==> !(#[trigger] self.kinds[j] is Root) && ((self.kinds[j] is Condition
                || self.kinds[j] is Action) ==> admits_branches(self.kinds[self.parent(j)]))
    }

    /// Node `j` gets a test function of its own: it is a condition with an
    /// action among its children, or an action directly below the root.
    pub open spec fn owns_test(self, j: int) -> bool {
        (self.kinds[j] is Condition && self.has_actions(j)) || (self.kinds[j] is Action
            && self.parent(j) == 0)
    }

    /// The number of nodes from node `m` on that get a test function of
    /// their own.
    pub open spec fn owners_from(self, m: int) -> nat
        decreases self.nodes.len() - m,
    {
        if m < 0 || m >= self.nodes.len() {
            0
        } else {
            (if self.owns_test(m) {
                1nat
            } else {
                0nat
            }) + self.owners_from(m + 1)
        }
    }

    /// The number of test functions that node `j` stands for, with all
    /// below it.
    pub open spec fn worth(self, j: int) -> nat {
        if self.kinds[j] is Condition {
            self.resolved(j)
        } else if self.kinds[j] is Action && self.parent(j) == 0 {
            1
        } else {
            0
        }
    }

    /// The worth of the nodes among the first `n` whose parent is node `i`.
    pub open spec fn worth_below(self, i: int, n: int) -> nat
        decreases n,
    {
        if n <= 1 {
            0
        } else {
            self.worth_below(i, n - 1) + if self.parent(n - 1) == i {
                self.worth(n - 1)
            } else {
                0
            }
        }
    }

    /// The worth of the nodes from `m` up to `n` whose parent lies before
    /// `m`.
    pub open spec fn worth_open(self, m: int, n: int) -> nat
        decreases n - m,
    {
        if n <= m {
            0
        } else {
            self.worth_open(m, n - 1) + if self.parent(n - 1) < m {
                self.worth(n - 1)
            } else {
                0
            }
        }
    }
}

/// The children that a node has among the first `n` nodes are the first of
/// the children that it has among the first `m`, for any `m` from `n` on.
pub proof fn lemma_children_prefix(nodes: Seq<RawNodeView>, i: int, n: int, m: int)
    requires
        n <= m,
    ensures
        children_by_parent(nodes, i, n).len() <= children_by_parent(nodes, i, m).len(),
        forall|k: int|
            0 <= k < children_by_parent(nodes, i, n).len() ==> #[trigger] children_by_parent(
                nodes,
                i,
                n,
            )[k] == children_by_parent(nodes, i, m)[k],
    decreases m - n,
{
    if n < m {
        lemma_children_prefix(nodes, i, n, m - 1);
    }
}

/// The conditions among the children of a node below the root that lie
/// among the first `n` nodes resolve to what those children are worth.
pub proof fn lemma_among_is_worth(source: Source, i: int, n: int)
    requires
        source.wf(),
        1 <= i < source.nodes.len(),
        0 <= n <= source.nodes.len(),
    ensures
        source.resolved_among(i, children_by_parent(source.nodes, i, n).len() as int)
            == source.worth_below(i, n),
    decreases n,
{
    if n > 1 {
        lemma_among_is_worth(source, i, n - 1);
        lemma_children_prefix(source.nodes, i, n, source.nodes.len() as int);
        let now = children_by_parent(source.nodes, i, n);
        assert(source.nodes[n - 1].parent.is_some());
        if source.parent(n - 1) == i {
            assert(now[now.len() - 1] == n - 1);
            assert(source.child(i, now.len() - 1) == n - 1);
        }
    }
}

/// The children of the root that lie among the first `n` nodes call for as
/// many test functions as they are worth.
pub proof fn lemma_root_is_worth(source: Source, n: int)
    requires
        source.wf(),
        0 <= n <= source.nodes.len(),
    ensures
        source.root_resolved(children_by_parent(source.nodes, 0, n).len() as int)
            == source.worth_below(0, n),
    decreases n,
{
    if n > 1 {
        lemma_root_is_worth(source, n - 1);
        lemma_children_prefix(source.nodes, 0, n, source.nodes.len() as int);
        let now = children_by_parent(source.nodes, 0, n);
        assert(source.nodes[n - 1].parent.is_some());
        if source.parent(n - 1) == 0 {
            assert(now[now.len() - 1] == n - 1);
            assert(source.child(0, now.len() - 1) == n - 1);
        }
    }
}

/// Nothing below a node that is neither the root nor a condition is worth
/// anything.
pub proof fn lemma_leaf_is_worthless(source: Source, i: int, n: int)
    requires
        source.wf(),
        source.well_kinded(),
        1 <= i < source.nodes.len(),
        !(source.kinds[i] is Condition),
        0 <= n <= source.nodes.len(),
    ensures
        source.worth_below(i, n) == 0,
    decreases n,
{
    if n > 1 {
        lemma_leaf_is_worthless(source, i, n - 1);
        assert(!(source.kinds[n - 1] is Root));
    }
}

/// A node is worth its own test function, if it gets one, and what the
/// nodes below it are worth.
pub proof fn lemma_worth(source: Source, j: int)
    requires
        source.wf(),
        source.well_kinded(),
        1 <= j < source.nodes.len(),
    ensures
        source.worth(j) == (if source.owns_test(j) {
            1nat
        } else {
            0nat
        }) + source.worth_below(j, source.nodes.len() as int),
{
    if source.kinds[j] is Condition {
        lemma_among_is_worth(source, j, source.nodes.len() as int);
    } else {
        lemma_leaf_is_worthless(source, j, source.nodes.len() as int);
    }
}

/// Moving the bound of the open nodes past node `m` takes out the worth of
/// `m` and takes in the worth of the nodes below it.
pub proof fn lemma_worth_open_step(source: Source, m: int, n: int)
    requires
        source.wf(),
        1 <= m < n <= source.nodes.len(),
    ensures
        source.worth_open(m, n) + source.worth_below(m, n) == source.worth_open(m + 1, n)
            + source.worth(m),
    decreases n - m,
{
    assert(source.nodes[m].parent.is_some() && source.nodes[m].parent.unwrap() < m);
    if n > m + 1 {
        lemma_worth_open_step(source, m, n - 1);
        assert(source.nodes[n - 1].parent.is_some() && source.nodes[n - 1].parent.unwrap() < n
            - 1);
    } else {
        lemma_no_worth_yet(source, m, n);
        assert(source.worth_open(m, m) == 0);
        assert(source.worth_open(m + 1, n) == 0);
    }
}

/// No node among those up to and including node `i` has `i` as its parent.
pub proof fn lemma_no_worth_yet(source: Source, i: int, n: int)
    requires
        source.wf(),
        0 <= n <= i + 1 <= source.nodes.len(),
    ensures
        source.worth_below(i, n) == 0,
    decreases n,
{
    if n > 1 {
        lemma_no_worth_yet(source, i, n - 1);
        assert(source.nodes[n - 1].parent.is_some() && source.nodes[n - 1].parent.unwrap() < n
            - 1);
    }
}

/// The nodes from `m` on whose parent lies before `m` are worth as many
/// test functions as there are nodes from `m` on that get one of their own.
pub proof fn lemma_worth_open(source: Source, m: int)
    requires
        source.wf(),
        source.well_kinded(),
        1 <= m <= source.nodes.len(),
    ensures
        source.worth_open(m, source.nodes.len() as int) == source.owners_from(m),
    decreases source.nodes.len() - m,
{
    if m < source.nodes.len() {
        lemma_worth_open(source, m + 1);
        lemma_worth_open_step(source, m, source.nodes.len() as int);
        lemma_worth(source, m);
    }
}

/// The open nodes at bound 1 are the children of the root.
pub proof fn lemma_worth_open_root(source: Source, n: int)
    requires
        source.wf(),
        1 <= n <= source.nodes.len(),
    ensures
        source.worth_open(1, n) == source.worth_below(0, n),
    decreases n,
{
    if n > 1 {
        lemma_worth_open_root(source, n - 1);
        assert(source.nodes[n - 1].parent.is_some());
    }
}

/// The contract holds exactly one test function for each condition that
/// has an action among its children and one for each action directly below
/// the root, and no other.
pub proof fn lemma_function_count_by_nodes(source: Source)
    requires
        source.wf(),
        source.well_kinded(),
    ensures
        test_count(source.items()) == source.owners_from(1),
{
    lemma_function_count(source);
    lemma_root_is_worth(source, source.nodes.len() as int);
    lemma_worth_open_root(source, source.nodes.len() as int);
    lemma_worth_open(source, 1);
}

/// The kinds that classifying a tree yields are well placed.
pub proof fn lemma_classified_is_well_kinded(source: Source)
    requires
        source.wf(),
        classified(source.nodes) == Ok::<
            Seq<crate::classifier::NodeKindView>,
            crate::error::ClassificationError,
        >(source.kinds),
    ensures
        source.well_kinded(),
{
    assert forall|j: int| 1 <= j < source.nodes.len() implies !(
    #[trigger] source.kinds[j] is Root) && ((source.kinds[j] is Condition
        || source.kinds[j] is Action) ==> admits_branches(source.kinds[source.parent(j)])) by {
        lemma_not_misplaced(source.nodes, source.nodes.len() as int, j);
        assert(source.nodes[j].parent.is_some() && source.nodes[j].parent.unwrap() < j);
        assert(source.kinds[j] == kind_of(source.nodes, j));
        assert(source.kinds[source.parent(j)] == kind_of(source.nodes, source.parent(j)));
    }
    assert(source.kinds[0] == kind_of(source.nodes, 0));
}

/// Where no misplaced node is found among the first `n`, none of them is
/// misplaced.
pub proof fn lemma_not_misplaced(nodes: Seq<RawNodeView>, n: int, j: int)
    requires
        0 <= j < n,
        first_misplaced(nodes, n).is_none(),
    ensures
        !is_misplaced(nodes, j),
    decreases n,
{
    if j < n - 1 {
        lemma_not_misplaced(nodes, n - 1, j);
    }
}

/// The classified tree of a text, where the text can be parsed and
/// classified.
pub open spec fn source_of_text(text: Seq<char>, emit_vm_skip: bool, skip_modifiers: bool) -> Source {
    let nodes = parsed(scanned(text))->Ok_0;
    Source { nodes, kinds: classified(nodes)->Ok_0, emit_vm_skip, skip_modifiers }
}

/// Whenever a text of a length that a machine can hold is translated, the
/// file that comes out is the one built from the classified tree of the
/// text, and that tree is well formed and well kinded: every law of a
/// source holds of it.
pub proof fn lemma_translated_source(
    text: Seq<char>,
    emit_vm_skip: bool,
    skip_modifiers: bool,
    root: RootView,
)
    requires
        text.len() < usize::MAX,
        translated(text, emit_vm_skip, skip_modifiers) == Ok::<RootView, crate::error::Error>(
            root,
        ),
    ensures
        source_of_text(text, emit_vm_skip, skip_modifiers).wf(),
        source_of_text(text, emit_vm_skip, skip_modifiers).well_kinded(),
        built(source_of_text(text, emit_vm_skip, skip_modifiers)) == Ok::<
            RootView,
            crate::error::BuildError,
        >(root),
        root.contract.children == source_of_text(text, emit_vm_skip, skip_modifiers).items(),
{
    let tokens = scanned(text);
    lemma_lines_len(text);
    lemma_tokens_len(lines(text));
    lemma_first_fault_none(tokens, tokens.len() as int);
    lemma_tree_of_is_tree(tokens);
    let source = source_of_text(text, emit_vm_skip, skip_modifiers);
    assert(source.kinds == kinds_of(source.nodes));
    lemma_classified_is_well_kinded(source);
}

/// The laws of the result of translating a text: whenever a text of a
/// length that a machine can hold is translated, the contract that comes
/// out holds one test function for each condition with an action among its
/// children and one for each action directly below the root; no two of its
/// definitions share an identifier; every identifier holds identifier
/// characters only; every body is closed as the skip setting asks; every
/// modifier is declared before its use; and there is no modifier where
/// promotion is off.
pub proof fn lemma_translated_contract(
    text: Seq<char>,
    emit_vm_skip: bool,
    skip_modifiers: bool,
    root: RootView,
)
    requires
        text.len() < usize::MAX,
        translated(text, emit_vm_skip, skip_modifiers) == Ok::<RootView, crate::error::Error>(
            root,
        ),
    ensures
        test_count(root.contract.children) == source_of_text(
            text,
            emit_vm_skip,
            skip_modifiers,
        ).owners_from(1),
        forall|j: int, k: int|
            0 <= j < k < root.contract.children.len() ==> (
            #[trigger] root.contract.children[j]).identifier != (
            #[trigger] root.contract.children[k]).identifier,
        forall|k: int|
            0 <= k < root.contract.children.len() ==> is_clean(
                #[trigger] root.contract.children[k],
            ),
        forall|k: int|
            0 <= k < root.contract.children.len() ==> body_closed(
                emit_vm_skip,
                #[trigger] root.contract.children[k],
            ),
        applies_declared(root.contract.children),
        skip_modifiers ==> forall|k: int|
            0 <= k < root.contract.children.len() ==> (#[trigger] root.contract.children[k]).ty
                == FunctionTy::Test,
{
    let source = source_of_text(text, emit_vm_skip, skip_modifiers);
    lemma_translated_source(text, emit_vm_skip, skip_modifiers, root);
    lemma_built_contract(source, root);
    lemma_function_count_by_nodes(source);
}

} // verus!
