use bulloak::config::Config;
use bulloak::emitter::{Emitter, EmitterI};
use bulloak::error::{BuildError, Error};
use bulloak::hir::{
    Comment, ContractDefinition, FunctionDefinition, FunctionTy, Hir, Item, Root, Statement,
    StatementType,
};
use bulloak::scaffold::{scaffold, FileAction, Rendered, Scaffold};

fn emit(hir: &Hir) -> String {
    Emitter::new(&Config::default()).emit(hir)
}

fn test_fn(name: &str, modifiers: Vec<&str>, children: Vec<Item>) -> FunctionDefinition {
    FunctionDefinition {
        identifier: String::from(name),
        ty: FunctionTy::Test,
        modifiers: modifiers.into_iter().map(String::from).collect(),
        children,
        line: 1,
    }
}

#[test]
fn comment_moves_right_by_three_spaces_per_level() {
    let line = |depth| emit(&Hir::Comment(Comment { lexeme: String::from("x"), depth }));
    assert_eq!(line(0), "    // x\n");
    assert_eq!(line(1), "    //    x\n");
    assert_eq!(line(3), "    //          x\n");
}

#[test]
fn statement_alone_renders_as_its_line() {
    let hir = Hir::Statement(Statement { ty: StatementType::VmSkip });
    assert_eq!(emit(&hir), "    vm.skip(true);\n");
}

#[test]
fn modifier_renders_with_placeholder_body() {
    let hir = Hir::Function(FunctionDefinition {
        identifier: String::from("whenReady"),
        ty: FunctionTy::Modifier,
        modifiers: vec![],
        children: vec![],
        line: 2,
    });
    assert_eq!(emit(&hir), "  modifier whenReady() {\n    _;\n  }\n\n");
}

#[test]
fn function_header_is_inline_without_modifiers() {
    let f = test_fn("test_A", vec![], vec![]);
    assert_eq!(emit(&Hir::Function(f)), "  function test_A() external {\n  }\n\n");
}

#[test]
fn function_header_lists_modifiers_one_per_line() {
    let f = test_fn(
        "test_A",
        vec!["whenX", "givenY"],
        vec![Item::Comment(Comment { lexeme: String::from("it works"), depth: 0 })],
    );
    assert_eq!(
        emit(&Hir::Function(f)),
        "  function test_A()\n    external\n    whenX\n    givenY\n  {\n    // it works\n  }\n\n"
    );
}

#[test]
fn emitter_parts_render_alone() {
    let inner = EmitterI::new(Emitter::new(&Config::default()));
    assert_eq!(inner.emit_modifier("m"), "  modifier m() {\n    _;\n  }\n\n");
    let f = test_fn("test_A", vec!["m"], vec![]);
    assert_eq!(inner.emit_fn_header(&f), "  function test_A()\n    external\n    m\n  {\n");
    let contract = ContractDefinition { identifier: String::from("A-b c"), children: vec![] };
    assert_eq!(inner.emit_contract_header(&contract), "contract A_b_c {\n");
    assert_eq!(Emitter::new(&Config::default()).indent(), "  ");
}

#[test]
fn contract_without_functions_closes_on_the_header_line() {
    let hir = Hir::Contract(ContractDefinition {
        identifier: String::from("Empty"),
        children: vec![],
    });
    assert_eq!(emit(&hir), "contract Empty {}");
}

#[test]
fn contract_separates_functions_by_one_blank_line() {
    let hir = Hir::Contract(ContractDefinition {
        identifier: String::from("Two"),
        children: vec![test_fn("test_A", vec![], vec![]), test_fn("test_B", vec![], vec![])],
    });
    assert_eq!(
        emit(&hir),
        "contract Two {\n  function test_A() external {\n  }\n\n  function test_B() external {\n  }\n}"
    );
}

#[test]
fn version_and_indentation_come_from_the_configuration() {
    let mut cfg = Config::default();
    cfg.solidity_version = String::from(">=0.8.20");
    cfg.indent = 4;
    let root = Root {
        contract: ContractDefinition {
            identifier: String::from("Wide"),
            children: vec![test_fn(
                "test_A",
                vec!["whenX"],
                vec![
                    Item::Comment(Comment { lexeme: String::from("it works"), depth: 0 }),
                    Item::Comment(Comment { lexeme: String::from("truly"), depth: 1 }),
                    Item::Statement(Statement { ty: StatementType::VmSkip }),
                ],
            )],
        },
    };
    assert_eq!(
        Emitter::new(&cfg).emit(&Hir::Root(root)),
        "// SPDX-License-Identifier: UNLICENSED\npragma solidity >=0.8.20;\n\ncontract Wide {\n    function test_A()\n        external\n        whenX\n    {\n        // it works\n        //    truly\n        vm.skip(true);\n    }\n}"
    );
}

#[test]
fn default_configuration() {
    let cfg = Config::default();
    assert_eq!(cfg.solidity_version, "0.8.0");
    assert_eq!(cfg.indent, 2);
    assert!(!cfg.emit_vm_skip);
    assert!(!cfg.skip_modifiers);
}

#[test]
fn scaffold_gives_the_same_text_every_time() {
    let text = "T\n├── when a-b\n│   ├── it should revert\n│   └── given c\n│       └── it holds\n│           └── - as said\n└── it rests";
    let cfg = Config::default();
    let first = scaffold(text, &cfg).unwrap();
    let second = scaffold(text, &cfg).unwrap();
    assert_eq!(first, second);
    assert_eq!(
        first,
        "// SPDX-License-Identifier: UNLICENSED\npragma solidity 0.8.0;\n\ncontract T {\n  modifier whenA_b() {\n    _;\n  }\n\n  function test_RevertWhen_A_b()\n    external\n    whenA_b\n  {\n    // it should revert\n  }\n\n  function test_GivenC()\n    external\n    whenA_b\n  {\n    // it holds\n    //    - as said\n  }\n\n  function test_Rests() external {\n    // it rests\n  }\n}"
    );
}

#[test]
fn scaffold_fails_as_a_whole_on_a_bad_tree() {
    assert_eq!(
        scaffold("T\n├── it one\n└── when a", &Config::default()),
        Err(Error::Build(BuildError::NoActionsForCondition { line: 3 }))
    );
}

#[test]
fn scaffold_options_default_and_configuration() {
    let options = Scaffold::default();
    assert!(options.files.is_empty());
    assert!(!options.write_files);
    assert!(!options.force_write);
    assert_eq!(options.solidity_version, "0.8.0");
    assert!(!options.with_vm_skip);
    assert!(!options.skip_modifiers);

    let mut options = Scaffold::default();
    options.solidity_version = String::from("0.8.25");
    options.with_vm_skip = true;
    options.skip_modifiers = true;
    let cfg = options.config();
    assert_eq!(cfg.solidity_version, "0.8.25");
    assert_eq!(cfg.indent, 2);
    assert!(cfg.emit_vm_skip);
    assert!(cfg.skip_modifiers);
    assert_eq!(
        options.process("T\n└── when a\n    └── it one").unwrap(),
        "// SPDX-License-Identifier: UNLICENSED\npragma solidity 0.8.25;\n\ncontract T {\n  function test_WhenA() external {\n    // it one\n    vm.skip(true);\n  }\n}"
    );
}

#[test]
fn settle_falls_back_to_the_emitted_text_with_a_warning() {
    assert_eq!(
        Scaffold::settle(String::from("raw"), Ok(String::from("neat"))),
        Rendered { text: String::from("neat"), warning: None }
    );
    assert_eq!(
        Scaffold::settle(String::from("raw"), Err(String::from("no parse"))),
        Rendered { text: String::from("raw"), warning: Some(String::from("no parse")) }
    );
}

#[test]
fn file_action_never_overwrites_unless_forced() {
    let mut options = Scaffold::default();
    assert_eq!(options.file_action(false), FileAction::Print);
    assert_eq!(options.file_action(true), FileAction::Print);
    options.write_files = true;
    assert_eq!(options.file_action(false), FileAction::Write);
    assert_eq!(options.file_action(true), FileAction::Skip);
    options.force_write = true;
    assert_eq!(options.file_action(false), FileAction::Write);
    assert_eq!(options.file_action(true), FileAction::Write);
}

#[test]
fn exit_status_is_nonzero_on_any_failure() {
    assert_eq!(Scaffold::exit_status(0), 0);
    assert_eq!(Scaffold::exit_status(1), 1);
    assert_eq!(Scaffold::exit_status(7), 1);
}
