//! Renders the intermediate representation as Solidity source text.

use crate::config::Config;
use crate::hir::{
    items_view, strings_view, Comment, CommentView, ContractDefinition, ContractView,
    FunctionDefinition, FunctionTy, FunctionView, Hir, HirView, Item, ItemView, Root, RootView,
    Statement, StatementType, functions_view,
};
use crate::naming::{sanitize, sanitized};
use crate::text::{lemma_spaces_add, push_spaces, spaces};
use vstd::prelude::*;
use vstd::string::*;

verus! {

/// The number of spaces by which a comment moves right for each level that it
/// lies below its action.
pub const DESCRIPTION_INDENTATION: usize = 3;

/// The indentation of a line inside a function body: two levels.
pub open spec fn body_indentation(indent: nat) -> Seq<char> {
    spaces(indent) + spaces(indent)
}

/// One comment line.
pub open spec fn comment_text(indent: nat, comment: CommentView) -> Seq<char> {
    body_indentation(indent) + "// "@ + spaces(DESCRIPTION_INDENTATION as nat * comment.depth)
        + comment.lexeme + "\n"@
}

/// One statement line.
pub open spec fn statement_text(indent: nat, statement: Statement) -> Seq<char> {
    match statement.ty {
        StatementType::VmSkip => body_indentation(indent) + "vm.skip(true);\n"@,
    }
}

/// One line of a function body.
pub open spec fn item_text(indent: nat, item: ItemView) -> Seq<char> {
    match item {
        ItemView::Comment(c) => comment_text(indent, c),
        ItemView::Statement(s) => statement_text(indent, s),
    }
}

/// The lines of a function body, in order.
pub open spec fn items_text(indent: nat, items: Seq<ItemView>) -> Seq<char>
    decreases items.len(),
{
    if items.len() == 0 {
        Seq::empty()
    } else {
        items_text(indent, items.drop_last()) + item_text(indent, items.last())
    }
}

/// The declaration of a modifier, followed by a blank line.
pub open spec fn modifier_text(indent: nat, identifier: Seq<char>) -> Seq<char> {
    spaces(indent) + "modifier "@ + identifier + "() {\n"@ + body_indentation(indent) + "_;\n"@
        + spaces(indent) + "}\n"@ + "\n"@
}

/// The modifiers applied to a function, one per line.
pub open spec fn modifiers_text(indent: nat, modifiers: Seq<Seq<char>>) -> Seq<char>
    decreases modifiers.len(),
{
    if modifiers.len() == 0 {
        Seq::empty()
    } else {
        modifiers_text(indent, modifiers.drop_last()) + body_indentation(indent)
            + modifiers.last() + "\n"@
    }
}

/// The header of a test function up to and including the opening brace: on
/// one line where no modifier applies, else the visibility and each modifier
/// on a line of their own.
pub open spec fn fn_header_text(indent: nat, function: FunctionView) -> Seq<char> {
    if function.modifiers.len() > 0 {
        spaces(indent) + "function "@ + function.identifier + "()\n"@ + body_indentation(indent)
            + "external\n"@ + modifiers_text(indent, function.modifiers) + spaces(indent)
            + "{\n"@
    } else {
        spaces(indent) + "function "@ + function.identifier + "()"@ + " external"@ + " {\n"@
    }
}

/// A modifier or a test function, followed by a blank line.
pub open spec fn function_text(indent: nat, function: FunctionView) -> Seq<char> {
    match function.ty {
        FunctionTy::Modifier => modifier_text(indent, function.identifier),
        FunctionTy::Test => fn_header_text(indent, function) + items_text(
            indent,
            function.children,
        ) + spaces(indent) + "}\n\n"@,
    }
}

/// The definitions of a contract, in order.
pub open spec fn functions_text(indent: nat, functions: Seq<FunctionView>) -> Seq<char>
    decreases functions.len(),
{
    if functions.len() == 0 {
        Seq::empty()
    } else {
        functions_text(indent, functions.drop_last()) + function_text(indent, functions.last())
    }
}

/// The line that opens a contract; its name is sanitised.
pub open spec fn contract_header_text(contract: ContractView) -> Seq<char> {
    "contract "@ + sanitized(contract.identifier) + " {\n"@
}

/// A contract: the header, the definitions, and the closing brace in place of
/// the last line break.
pub open spec fn contract_text(indent: nat, contract: ContractView) -> Seq<char> {
    (contract_header_text(contract) + functions_text(indent, contract.children)).drop_last().push(
        '}',
    )
}

/// A file: the licence line, the version line, a blank line and the contract.
pub open spec fn root_text(indent: nat, version: Seq<char>, root: RootView) -> Seq<char> {
    "// SPDX-License-Identifier: UNLICENSED\n"@ + "pragma solidity "@ + version + ";\n\n"@
        + contract_text(indent, root.contract)
}

/// The text of any node of the representation.
pub open spec fn hir_text(indent: nat, version: Seq<char>, hir: HirView) -> Seq<char> {
    match hir {
        HirView::Root(root) => root_text(indent, version, root),
        HirView::Contract(contract) => contract_text(indent, contract),
        HirView::Function(function) => function_text(indent, function),
        HirView::Comment(comment) => comment_text(indent, comment),
        HirView::Statement(statement) => statement_text(indent, statement),
    }
}

/// Solidity code emitter: the formatting settings, tied to no particular
/// representation.
pub struct Emitter {
    /// The width of one indentation level.
    indent: usize,
    /// The version of the `pragma solidity` line.
    solidity_version: String,
}

/// The settings of an emitter, as numbers and character sequences.
pub struct EmitterView {
    pub indent: nat,
    pub solidity_version: Seq<char>,
}

impl View for Emitter {
    type V = EmitterView;

    closed spec fn view(&self) -> EmitterView {
        EmitterView { indent: self.indent as nat, solidity_version: self.solidity_version@ }
    }
}

impl Emitter {
    /// An emitter with the indentation width and the version of `cfg`.
    #[must_use]
    pub fn new(cfg: &Config) -> (emitter: Self)
        ensures
            emitter@.indent == cfg.indent,
            emitter@.solidity_version == cfg.solidity_version@,
    {
        Self { indent: cfg.indent, solidity_version: cfg.solidity_version.clone() }
    }

    /// The Solidity text of `hir`.
    #[must_use]
    pub fn emit(self, hir: &Hir) -> (emitted: String)
        ensures
            emitted@ == hir_text(self@.indent, self@.solidity_version, hir@),
    {
        let mut inner = EmitterI::new(self);
        inner.emit(hir)
    }

    /// One level of indentation.
    pub fn indent(&self) -> (indentation: String)
        ensures
            indentation@ == spaces(self@.indent),
    {
        let mut indentation = String::new();
        push_spaces(&mut indentation, self.indent);
        indentation
    }
}

/// The emitter at work: it walks a representation and renders each node.
pub struct EmitterI {
    /// The emitter state.
    emitter: Emitter,
}

impl EmitterI {
    /// The settings that the walk renders with.
    pub closed spec fn settings(&self) -> EmitterView {
        self.emitter@
    }

    /// A walk that renders with the settings of `emitter`.
    pub fn new(emitter: Emitter) -> (inner: Self)
        ensures
            inner.settings() == emitter@,
    {
        Self { emitter }
    }

    /// The Solidity text of `hir`, whichever node it is.
    pub fn emit(&mut self, hir: &Hir) -> (emitted: String)
        ensures
            final(self).settings() == old(self).settings(),
            emitted@ == hir_text(
                old(self).settings().indent,
                old(self).settings().solidity_version,
                hir@,
            ),
    {
        match hir {
            Hir::Root(inner) => self.visit_root(inner),
            Hir::Contract(inner) => self.visit_contract(inner),
            Hir::Function(inner) => self.visit_function(inner),
            Hir::Comment(inner) => self.visit_comment(inner),
            Hir::Statement(inner) => self.visit_statement(inner),
        }
    }

    /// Two levels of indentation.
    fn body_indent(&self) -> (indentation: String)
        ensures
            indentation@ == body_indentation(self.settings().indent),
    {
        let mut indentation = self.emitter.indent();
        push_spaces(&mut indentation, self.emitter.indent);
        indentation
    }

    /// The line that opens the contract.
    pub fn emit_contract_header(&self, contract: &ContractDefinition) -> (emitted: String)
        ensures
            emitted@ == contract_header_text(contract@),
    {
        let mut emitted = String::new();
        let contract_name = sanitize(contract.identifier.as_str());
        emitted.append("contract ");
        emitted.append(contract_name.as_str());
        emitted.append(" {\n");
        emitted
    }

    /// The declaration of the modifier named `modifier`.
    pub fn emit_modifier(&self, modifier: &str) -> (emitted: String)
        ensures
            emitted@ == modifier_text(self.settings().indent, modifier@),
    {
        let mut emitted = String::new();
        let indentation = self.emitter.indent();
        let body = self.body_indent();
        emitted.append(indentation.as_str());
        emitted.append("modifier ");
        emitted.append(modifier);
        emitted.append("() {\n");
        emitted.append(body.as_str());
        emitted.append("_;\n");
        emitted.append(indentation.as_str());
        emitted.append("}\n");
        emitted.append("\n");
        emitted
    }

    /// The header of a test function: its name, its visibility and the
    /// modifiers applied to it.
    pub fn emit_fn_header(&self, function: &FunctionDefinition) -> (emitted: String)
        ensures
            emitted@ == fn_header_text(self.settings().indent, function@),
    {
        let mut emitted = String::new();
        let ghost indent = self.settings().indent;
        let fn_indentation = self.emitter.indent();
        let fn_body_indentation = self.body_indent();

        let has_modifiers = function.modifiers.len() > 0;
        emitted.append(fn_indentation.as_str());
        emitted.append("function ");
        emitted.append(function.identifier.as_str());
        if has_modifiers {
            emitted.append("()\n");
            emitted.append(fn_body_indentation.as_str());
            emitted.append("external\n");
        } else {
            emitted.append("()");
            emitted.append(" external");
        }

        // The modifiers that apply to this function, outermost first.
        let ghost before = emitted@;
        let ghost modifiers = strings_view(function.modifiers@);
        let mut i: usize = 0;
        while i < function.modifiers.len()
            invariant
                i <= function.modifiers.len(),
                modifiers == strings_view(function.modifiers@),
                fn_body_indentation@ == body_indentation(indent),
                emitted@ == before + modifiers_text(indent, modifiers.take(i as int)),
            decreases function.modifiers.len() - i,
        {
            assert(modifiers.take(i + 1).drop_last() =~= modifiers.take(i as int));
            emitted.append(fn_body_indentation.as_str());
            emitted.append(function.modifiers[i].as_str());
            emitted.append("\n");
            i += 1;
        }
        assert(modifiers.take(function.modifiers.len() as int) =~= modifiers);

        if has_modifiers {
            emitted.append(fn_indentation.as_str());
            emitted.append("{\n");
        } else {
            emitted.append(" {\n");
        }
        emitted
    }

    /// A file: header lines, then the contract.
    pub fn visit_root(&mut self, root: &Root) -> (emitted: String)
        ensures
            final(self).settings() == old(self).settings(),
            emitted@ == root_text(
                old(self).settings().indent,
                old(self).settings().solidity_version,
                root@,
            ),
    {
        let mut emitted = String::new();
        emitted.append("// SPDX-License-Identifier: UNLICENSED\n");
        emitted.append("pragma solidity ");
        emitted.append(self.emitter.solidity_version.as_str());
        emitted.append(";\n\n");
        let result = self.visit_contract(&root.contract);
        emitted.append(result.as_str());
        emitted
    }

    /// A contract: its header, its definitions and the closing brace.
    pub fn visit_contract(&mut self, contract: &ContractDefinition) -> (emitted: String)
        ensures
            final(self).settings() == old(self).settings(),
            emitted@ == contract_text(old(self).settings().indent, contract@),
    {
        let mut emitted = String::new();
        let ghost indent = self.settings().indent;

        let contract_header = self.emit_contract_header(contract);
        emitted.append(contract_header.as_str());

        let ghost functions = functions_view(contract.children@);
        let mut i: usize = 0;
        while i < contract.children.len()
            invariant
                i <= contract.children.len(),
                self.settings() == old(self).settings(),
                indent == self.settings().indent,
                functions == functions_view(contract.children@),
                emitted@ == contract_header_text(contract@) + functions_text(
                    indent,
                    functions.take(i as int),
                ),
            decreases contract.children.len() - i,
        {
            assert(functions.take(i + 1).drop_last() =~= functions.take(i as int));
            let function = self.visit_function(&contract.children[i]);
            emitted.append(function.as_str());
            i += 1;
        }
        assert(functions.take(contract.children.len() as int) =~= functions);

        // The last character is the line break that ends the last definition,
        // or the header where there is none.
        proof {
            reveal_strlit(" {\n");
        }
        emitted.pop();
        emitted.push('}');

        emitted
    }

    /// A modifier or a test function with its body.
    pub fn visit_function(&mut self, function: &FunctionDefinition) -> (emitted: String)
        ensures
            final(self).settings() == old(self).settings(),
            emitted@ == function_text(old(self).settings().indent, function@),
    {
        let mut emitted = String::new();
        let ghost indent = self.settings().indent;

        match function.ty {
            FunctionTy::Modifier => {
                let modifier = self.emit_modifier(function.identifier.as_str());
                emitted.append(modifier.as_str());
            },
            FunctionTy::Test => {
                let fn_header = self.emit_fn_header(function);
                emitted.append(fn_header.as_str());

                let ghost items = items_view(function.children@);
                let mut i: usize = 0;
                while i < function.children.len()
                    invariant
                        i <= function.children.len(),
                        self.settings() == old(self).settings(),
                        indent == self.settings().indent,
                        items == items_view(function.children@),
                        emitted@ == fn_header_text(indent, function@) + items_text(
                            indent,
                            items.take(i as int),
                        ),
                    decreases function.children.len() - i,
                {
                    assert(items.take(i + 1).drop_last() =~= items.take(i as int));
                    match &function.children[i] {
                        Item::Comment(comment) => {
                            let line = self.visit_comment(comment);
                            emitted.append(line.as_str());
                        },
                        Item::Statement(statement) => {
                            let line = self.visit_statement(statement);
                            emitted.append(line.as_str());
                        },
                    }
                    i += 1;
                }
                assert(items.take(function.children.len() as int) =~= items);

                let indentation = self.emitter.indent();
                emitted.append(indentation.as_str());
                emitted.append("}\n\n");
            },
        }
        emitted
    }

    /// A comment line, moved right by its depth below its action.
    pub fn visit_comment(&mut self, comment: &Comment) -> (emitted: String)
        ensures
            final(self).settings() == old(self).settings(),
            emitted@ == comment_text(old(self).settings().indent, comment@),
    {
        let mut emitted = self.body_indent();
        emitted.append("// ");
        let ghost before = emitted@;
        let mut i: usize = 0;
        while i < comment.depth
            invariant
                i <= comment.depth,
                emitted@ == before + spaces(DESCRIPTION_INDENTATION as nat * i as nat),
            decreases comment.depth - i,
        {
            push_spaces(&mut emitted, DESCRIPTION_INDENTATION);
            proof {
                lemma_spaces_add(
                    DESCRIPTION_INDENTATION as nat * i as nat,
                    DESCRIPTION_INDENTATION as nat,
                );
            }
            i += 1;
        }
        emitted.append(comment.lexeme.as_str());
        emitted.append("\n");
        emitted
    }

    /// A statement line.
    pub fn visit_statement(&mut self, statement: &Statement) -> (emitted: String)
        ensures
            final(self).settings() == old(self).settings(),
            emitted@ == statement_text(old(self).settings().indent, *statement),
    {
        let mut emitted = self.body_indent();
        match statement.ty {
            StatementType::VmSkip => {
                emitted.append("vm.skip(true);\n");
            },
        }
        emitted
    }
}

} // verus!
