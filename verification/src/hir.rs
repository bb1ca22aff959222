//! The intermediate representation between the classified tree and the
//! rendered text: a contract that holds modifiers and test functions, each
//! test function a list of comments and statements.

use vstd::prelude::*;

verus! {

/// One comment line of a function body.
#[derive(Debug, Clone, PartialEq, Eq)]
pub struct Comment {
    /// The text after the comment marker.
    pub lexeme: String,
    /// How many levels the line lies below the action that owns it; 0 for the
    /// action itself.
    pub depth: usize,
}

/// A comment, its text as a character sequence.
pub struct CommentView {
    pub lexeme: Seq<char>,
    pub depth: nat,
}

impl View for Comment {
    type V = CommentView;

    open spec fn view(&self) -> CommentView {
        CommentView { lexeme: self.lexeme@, depth: self.depth as nat }
    }
}

/// The statements that can be generated.
#[derive(Debug, Clone, Copy, PartialEq, Eq)]
pub enum StatementType {
    /// `vm.skip(true);`
    VmSkip,
}

/// One generated statement of a function body.
#[derive(Debug, Clone, Copy, PartialEq, Eq)]
pub struct Statement {
    pub ty: StatementType,
}

/// One line of a function body.
#[derive(Debug, Clone, PartialEq, Eq)]
pub enum Item {
    Comment(Comment),
    Statement(Statement),
}

/// A line of a function body, its text as a character sequence.
pub enum ItemView {
    Comment(CommentView),
    Statement(Statement),
}

impl View for Item {
    type V = ItemView;

    open spec fn view(&self) -> ItemView {
        match self {
            Item::Comment(c) => ItemView::Comment(c@),
            Item::Statement(s) => ItemView::Statement(*s),
        }
    }
}

/// Whether a definition is a shared precondition or a test.
#[derive(Debug, Clone, Copy, PartialEq, Eq)]
pub enum FunctionTy {
    Modifier,
    Test,
}

/// A modifier or a test function of the contract.
#[derive(Debug, Clone, PartialEq, Eq)]
pub struct FunctionDefinition {
    pub identifier: String,
    pub ty: FunctionTy,
    /// The modifiers applied to a test function, outermost first; empty for a
    /// modifier.
    pub modifiers: Vec<String>,
    /// The body of a test function; empty for a modifier.
    pub children: Vec<Item>,
    /// The line of the tree that the definition comes from.
    pub line: usize,
}

/// A definition, its texts as character sequences and its lists as
/// sequences.
pub struct FunctionView {
    pub identifier: Seq<char>,
    pub ty: FunctionTy,
    pub modifiers: Seq<Seq<char>>,
    pub children: Seq<ItemView>,
    pub line: nat,
}

/// The texts of a list of strings.
pub open spec fn strings_view(v: Seq<String>) -> Seq<Seq<char>> {
    Seq::new(v.len(), |i: int| v[i]@)
}

/// The views of a list of body lines.
pub open spec fn items_view(v: Seq<Item>) -> Seq<ItemView> {
    Seq::new(v.len(), |i: int| v[i]@)
}

/// The views of a list of definitions.
pub open spec fn functions_view(v: Seq<FunctionDefinition>) -> Seq<FunctionView> {
    Seq::new(v.len(), |i: int| v[i]@)
}

impl View for FunctionDefinition {
    type V = FunctionView;

    open spec fn view(&self) -> FunctionView {
        FunctionView {
            identifier: self.identifier@,
            ty: self.ty,
            modifiers: strings_view(self.modifiers@),
            children: items_view(self.children@),
            line: self.line as nat,
        }
    }
}

/// The one contract of a generated file.
#[derive(Debug, Clone, PartialEq, Eq)]
pub struct ContractDefinition {
    /// The name as the tree gives it; it is sanitised when rendered.
    pub identifier: String,
    /// The definitions in the order in which they are declared.
    pub children: Vec<FunctionDefinition>,
}

/// A contract, its name as a character sequence and its definitions as a
/// sequence.
pub struct ContractView {
    pub identifier: Seq<char>,
    pub children: Seq<FunctionView>,
}

impl View for ContractDefinition {
    type V = ContractView;

    open spec fn view(&self) -> ContractView {
        ContractView {
            identifier: self.identifier@,
            children: functions_view(self.children@),
        }
    }
}

/// A generated file: it holds exactly one contract.
#[derive(Debug, Clone, PartialEq, Eq)]
pub struct Root {
    pub contract: ContractDefinition,
}

/// A file, seen through the view of its contract.
pub struct RootView {
    pub contract: ContractView,
}

impl View for Root {
    type V = RootView;

    open spec fn view(&self) -> RootView {
        RootView { contract: self.contract@ }
    }
}

/// Any node of the representation.
#[derive(Debug, Clone, PartialEq, Eq)]
pub enum Hir {
    Root(Root),
    Contract(ContractDefinition),
    Function(FunctionDefinition),
    Comment(Comment),
    Statement(Statement),
}

/// Any node of the representation, seen through its view.
pub enum HirView {
    Root(RootView),
    Contract(ContractView),
    Function(FunctionView),
    Comment(CommentView),
    Statement(Statement),
}

impl View for Hir {
    type V = HirView;

    open spec fn view(&self) -> HirView {
        match self {
            Hir::Root(r) => HirView::Root(r@),
            Hir::Contract(c) => HirView::Contract(c@),
            Hir::Function(f) => HirView::Function(f@),
            Hir::Comment(c) => HirView::Comment(c@),
            Hir::Statement(s) => HirView::Statement(*s),
        }
    }
}

/// Pushing a string onto a list extends the list's view by the string's text.
pub proof fn lemma_strings_view_push(v: Seq<String>, s: String)
    ensures
        strings_view(v.push(s)) == strings_view(v).push(s@),
{
}

/// Pushing a body line onto a list extends the list's view by the line's view.
pub proof fn lemma_items_view_push(v: Seq<Item>, item: Item)
    ensures
        items_view(v.push(item)) == items_view(v).push(item@),
{
}

/// Pushing a definition onto a list extends the list's view by the
/// definition's view.
pub proof fn lemma_functions_view_push(v: Seq<FunctionDefinition>, f: FunctionDefinition)
    ensures
        functions_view(v.push(f)) == functions_view(v).push(f@),
{
}

} // verus!
