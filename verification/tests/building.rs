use bulloak::builder::{build, translate};
use bulloak::classifier::classify;
use bulloak::config::Config;
use bulloak::error::{BuildError, ClassificationError, Error, ParseError};
use bulloak::hir::{
    Comment, FunctionDefinition, FunctionTy, Hir, Item, Root, Statement, StatementType,
};
use bulloak::parser::parse;

fn root_of(text: &str, cfg: &Config) -> Root {
    match translate(text, cfg).unwrap() {
        Hir::Root(root) => root,
        other => panic!("not a root: {:?}", other),
    }
}

fn names(root: &Root) -> Vec<(FunctionTy, &str, Vec<&str>)> {
    root.contract
        .children
        .iter()
        .map(|f| (f.ty, f.identifier.as_str(), f.modifiers.iter().map(|m| m.as_str()).collect()))
        .collect()
}

fn comment(lexeme: &str, depth: usize) -> Item {
    Item::Comment(Comment { lexeme: String::from(lexeme), depth })
}

#[test]
fn one_condition_folds_into_the_name() {
    let root = root_of(
        "FileTest\n└── when something bad happens\n   └── it should not revert",
        &Config::default(),
    );
    assert_eq!(
        root,
        Root {
            contract: bulloak::hir::ContractDefinition {
                identifier: String::from("FileTest"),
                children: vec![FunctionDefinition {
                    identifier: String::from("test_WhenSomethingBadHappens"),
                    ty: FunctionTy::Test,
                    modifiers: vec![],
                    children: vec![comment("it should not revert", 0)],
                    line: 2,
                }],
            },
        }
    );
}

#[test]
fn revert_leaf_changes_the_name() {
    let root = root_of(
        "FileTest\n└── when something bad happens\n   └── it should revert",
        &Config::default(),
    );
    assert_eq!(
        names(&root),
        vec![(FunctionTy::Test, "test_RevertWhen_SomethingBadHappens", vec![])]
    );
}

#[test]
fn branching_condition_becomes_one_modifier_for_both_functions() {
    let root = root_of(
        "T\n└── when the vault is open\n    ├── it should accept\n    └── when the amount is zero\n        └── it should revert",
        &Config::default(),
    );
    assert_eq!(
        names(&root),
        vec![
            (FunctionTy::Modifier, "whenTheVaultIsOpen", vec![]),
            (FunctionTy::Test, "test_WhenTheVaultIsOpen", vec!["whenTheVaultIsOpen"]),
            (FunctionTy::Test, "test_RevertWhen_TheAmountIsZero", vec!["whenTheVaultIsOpen"]),
        ]
    );
    assert!(root.contract.children[0].children.is_empty());
}

#[test]
fn chain_of_single_conditions_folds_into_one_name() {
    let cfg = Config::default();
    let root = root_of("T\n└── when a b\n    └── given c\n        └── it works", &cfg);
    assert_eq!(names(&root), vec![(FunctionTy::Test, "test_WhenABGivenC", vec![])]);
    let root = root_of("T\n└── given a b\n    └── when c\n        └── it should revert", &cfg);
    assert_eq!(names(&root), vec![(FunctionTy::Test, "test_RevertWhen_ABWhenC", vec![])]);
}

#[test]
fn nested_modifiers_apply_outermost_first() {
    let root = root_of(
        "T\n└── when a\n    ├── it one\n    └── given b\n        ├── it two\n        └── when c\n            └── when d\n                └── it three",
        &Config::default(),
    );
    assert_eq!(
        names(&root),
        vec![
            (FunctionTy::Modifier, "whenA", vec![]),
            (FunctionTy::Test, "test_WhenA", vec!["whenA"]),
            (FunctionTy::Modifier, "givenB", vec![]),
            (FunctionTy::Test, "test_GivenB", vec!["whenA", "givenB"]),
            (FunctionTy::Test, "test_WhenCWhenD", vec!["whenA", "givenB"]),
        ]
    );
}

#[test]
fn skip_modifiers_folds_everything_into_names() {
    let mut cfg = Config::default();
    cfg.skip_modifiers = true;
    let root = root_of(
        "T\n└── when a\n    ├── it one\n    └── given b\n        ├── it should revert\n        └── when c\n            └── it three",
        &cfg,
    );
    assert_eq!(
        names(&root),
        vec![
            (FunctionTy::Test, "test_WhenA", vec![]),
            (FunctionTy::Test, "test_RevertWhen_AGivenB", vec![]),
            (FunctionTy::Test, "test_WhenAGivenBWhenC", vec![]),
        ]
    );
}

#[test]
fn actions_below_the_root_get_a_function_each() {
    let root = root_of("T\n├── it should revert\n├── It never reverts.\n└── stays put", &Config::default());
    assert_eq!(
        names(&root),
        vec![
            (FunctionTy::Test, "test_RevertWhen_ShouldRevert", vec![]),
            (FunctionTy::Test, "test_NeverReverts_", vec![]),
            (FunctionTy::Test, "test_StaysPut", vec![]),
        ]
    );
    let lines: Vec<usize> = root.contract.children.iter().map(|f| f.line).collect();
    assert_eq!(lines, vec![2, 3, 4]);
}

#[test]
fn descriptions_become_comments_at_their_relative_depth() {
    let root = root_of(
        "T\n└── when a\n    ├── it one\n    │   ├── first\n    │   │   └── deeper\n    │   └── second\n    └── it two",
        &Config::default(),
    );
    assert_eq!(
        root.contract.children[0].children,
        vec![
            comment("it one", 0),
            comment("first", 1),
            comment("deeper", 2),
            comment("second", 1),
            comment("it two", 0),
        ]
    );
}

#[test]
fn vm_skip_ends_every_test_and_no_modifier() {
    let mut cfg = Config::default();
    cfg.emit_vm_skip = true;
    let root = root_of(
        "T\n├── it zero\n└── when a\n    ├── it one\n    └── when b\n        └── it two",
        &cfg,
    );
    let skip = Item::Statement(Statement { ty: StatementType::VmSkip });
    assert_eq!(root.contract.children.len(), 4);
    for f in &root.contract.children {
        match f.ty {
            FunctionTy::Modifier => assert!(f.children.is_empty()),
            FunctionTy::Test => {
                assert_eq!(f.children.last(), Some(&skip));
                assert_eq!(f.children.iter().filter(|c| **c == skip).count(), 1);
            }
        }
    }
}

#[test]
fn as_many_tests_as_groups_of_actions() {
    let root = root_of(
        "T\n├── it zero\n├── when a\n│   ├── it one\n│   ├── when b\n│   │   └── it two\n│   └── it one more\n└── it last",
        &Config::default(),
    );
    let tests = root.contract.children.iter().filter(|f| f.ty == FunctionTy::Test).count();
    assert_eq!(tests, 4);
    let modifiers = root.contract.children.iter().filter(|f| f.ty == FunctionTy::Modifier).count();
    assert_eq!(modifiers, 1);
}

#[test]
fn revert_marker_goes_by_the_first_comment_alone() {
    let root = root_of(
        "T\n├── when a\n│   ├── it should\n│   └── it should revert\n├── when b\n│   └── It Should REVERT if asked\n└── when c\n    └── it  should revert",
        &Config::default(),
    );
    for f in &root.contract.children {
        let first = match &f.children[0] {
            Item::Comment(c) => c.lexeme.to_lowercase(),
            other => panic!("not a comment: {:?}", other),
        };
        assert_eq!(
            f.identifier.starts_with("test_RevertWhen_"),
            first.starts_with("it should revert")
        );
    }
    assert_eq!(
        names(&root),
        vec![
            (FunctionTy::Test, "test_WhenA", vec![]),
            (FunctionTy::Test, "test_RevertWhen_B", vec![]),
            (FunctionTy::Test, "test_WhenC", vec![]),
        ]
    );
}

#[test]
fn every_identifier_holds_identifier_characters_only() {
    let root = root_of(
        "T\n└── when the user's balance is > 0 (non-zero)\n    ├── it should pay 100%!\n    └── given a re-entrant call…\n        └── it should revert",
        &Config::default(),
    );
    assert_eq!(
        names(&root),
        vec![
            (FunctionTy::Modifier, "whenTheUser_sBalanceIs_0_non_zero_", vec![]),
            (
                FunctionTy::Test,
                "test_WhenTheUser_sBalanceIs_0_non_zero_",
                vec!["whenTheUser_sBalanceIs_0_non_zero_"]
            ),
            (
                FunctionTy::Test,
                "test_RevertWhen_ARe_entrantCall_",
                vec!["whenTheUser_sBalanceIs_0_non_zero_"]
            ),
        ]
    );
    for f in &root.contract.children {
        assert!(f.identifier.chars().all(|c| c.is_ascii_alphanumeric() || c == '_'));
    }
}

#[test]
fn condition_without_phrase_is_malformed() {
    assert_eq!(
        translate("T\n├── it one\n└── when\n    └── it two", &Config::default()),
        Err(Error::Build(BuildError::MalformedCondition { line: 3 }))
    );
}

#[test]
fn condition_without_actions_is_rejected() {
    assert_eq!(
        translate("T\n├── when a\n│   └── it one\n└── when b", &Config::default()),
        Err(Error::Build(BuildError::NoActionsForCondition { line: 4 }))
    );
    assert_eq!(
        translate("T\n└── when a\n    └── given b", &Config::default()),
        Err(Error::Build(BuildError::NoActionsForCondition { line: 2 }))
    );
}

#[test]
fn same_identifier_twice_is_a_collision() {
    assert_eq!(
        translate("T\n├── when a-b\n│   └── it one\n└── when a.b\n    └── it two", &Config::default()),
        Err(Error::Build(BuildError::IdentifierCollision { line: 4 }))
    );
}

#[test]
fn translate_passes_on_the_errors_of_earlier_stages() {
    let cfg = Config::default();
    assert_eq!(translate("", &cfg), Err(Error::Parse(ParseError::EmptyInput)));
    assert_eq!(
        translate("A\nB", &cfg),
        Err(Error::Parse(ParseError::MultipleRoots { line: 2 }))
    );
    assert_eq!(
        translate("T\n└── it x\n    └── when y", &cfg),
        Err(Error::Classification(ClassificationError { line: 3 }))
    );
}

#[test]
fn root_alone_gives_an_empty_contract() {
    let root = root_of("Lonely", &Config::default());
    assert_eq!(root.contract.identifier, "Lonely");
    assert!(root.contract.children.is_empty());
}

#[test]
fn build_works_on_the_parsed_and_classified_tree() {
    let nodes = parse("T\n└── when a\n    └── it one").unwrap();
    let kinds = classify(&nodes).unwrap();
    let root = build(&nodes, &kinds, &Config::default()).unwrap();
    assert_eq!(names(&root), vec![(FunctionTy::Test, "test_WhenA", vec![])]);
}

#[test]
fn errors_say_what_is_wrong_and_where() {
    assert_eq!(Error::Parse(ParseError::EmptyInput).message(), "the tree is empty");
    assert_eq!(
        Error::Parse(ParseError::UnexpectedToken { line: 1 }).message(),
        "line 1: unexpected token"
    );
    assert_eq!(
        ParseError::InconsistentIndentation { line: 40 }.message(),
        "line 40: inconsistent indentation"
    );
    assert_eq!(
        ParseError::MultipleRoots { line: 1234567890 }.message(),
        "line 1234567890: a tree has one root only"
    );
    assert_eq!(
        Error::Classification(ClassificationError { line: 0 }).message(),
        "line 0: a condition cannot stand below an action"
    );
    assert_eq!(
        Error::Build(BuildError::MalformedCondition { line: 9 }).message(),
        "line 9: a condition needs a phrase after its keyword"
    );
    assert_eq!(
        BuildError::NoActionsForCondition { line: 10 }.message(),
        "line 10: no action below this condition"
    );
    assert_eq!(
        BuildError::IdentifierCollision { line: 105 }.message(),
        "line 105: this identifier is declared already"
    );
    assert_eq!(
        translate("T\n└── when", &Config::default()).unwrap_err().message(),
        "line 2: a condition needs a phrase after its keyword"
    );
}
