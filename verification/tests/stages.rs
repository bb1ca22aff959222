use bulloak::classifier::{classify, classify_node, Keyword, NodeKind};
use bulloak::error::{ClassificationError, ParseError};
use bulloak::naming::sanitize;
use bulloak::parser::{parse, parse_tokens};
use bulloak::scanner::{scan, scan_line, split_lines, Token};

fn chars(s: &str) -> Vec<char> {
    s.chars().collect()
}

#[test]
fn scan_gives_one_token_per_line_with_text() {
    let tokens = scan("FileTest\n└── when something bad happens\n   └── it should not revert");
    assert_eq!(
        tokens,
        vec![
            Token { depth: 0, text: String::from("FileTest"), line: 1 },
            Token { depth: 1, text: String::from("when something bad happens"), line: 2 },
            Token { depth: 4, text: String::from("it should not revert"), line: 3 },
        ]
    );
}

#[test]
fn scan_skips_blank_lines_and_keeps_line_numbers() {
    let tokens = scan("\n\nRoot\n\n│\n├── it works  \r\n   \n└── it rests");
    assert_eq!(
        tokens,
        vec![
            Token { depth: 0, text: String::from("Root"), line: 3 },
            Token { depth: 1, text: String::from("it works"), line: 6 },
            Token { depth: 1, text: String::from("it rests"), line: 8 },
        ]
    );
}

#[test]
fn scan_of_empty_text_gives_no_token() {
    assert_eq!(scan(""), Vec::<Token>::new());
    assert_eq!(scan("  \n\t\n"), Vec::<Token>::new());
}

#[test]
fn scan_line_counts_columns_in_characters() {
    let token = scan_line(&chars("│  │   └── deep"), 7);
    assert_eq!(token, Token { depth: 8, text: String::from("deep"), line: 7 });
    let bare = scan_line(&chars("├──"), 2);
    assert_eq!(bare, Token { depth: 1, text: String::new(), line: 2 });
}

#[test]
fn split_lines_cuts_at_every_line_break() {
    assert_eq!(split_lines(&chars("")), vec![chars("")]);
    assert_eq!(split_lines(&chars("a\n\nb\n")), vec![chars("a"), chars(""), chars("b"), chars("")]);
}

#[test]
fn parse_builds_parents_children_and_depths() {
    let nodes = parse(
        "Root\n├── when a\n│   ├── it x\n│   └── when b\n│       └── it y\n└── it z",
    )
    .unwrap();
    let texts: Vec<&str> = nodes.iter().map(|n| n.text.as_str()).collect();
    assert_eq!(texts, vec!["Root", "when a", "it x", "when b", "it y", "it z"]);
    let depths: Vec<usize> = nodes.iter().map(|n| n.depth).collect();
    assert_eq!(depths, vec![0, 1, 2, 2, 3, 1]);
    let parents: Vec<Option<usize>> = nodes.iter().map(|n| n.parent).collect();
    assert_eq!(parents, vec![None, Some(0), Some(1), Some(1), Some(3), Some(0)]);
    let children: Vec<Vec<usize>> = nodes.iter().map(|n| n.children.clone()).collect();
    assert_eq!(children, vec![vec![1, 5], vec![2, 3], vec![], vec![4], vec![], vec![]]);
    let lines: Vec<usize> = nodes.iter().map(|n| n.line).collect();
    assert_eq!(lines, vec![1, 2, 3, 4, 5, 6]);
}

#[test]
fn parse_accepts_indentation_that_differs_between_branches() {
    let nodes = parse("Root\n├── when a\n│  └── it x\n└── when b\n     └── it y").unwrap();
    let parents: Vec<Option<usize>> = nodes.iter().map(|n| n.parent).collect();
    assert_eq!(parents, vec![None, Some(0), Some(1), Some(0), Some(3)]);
}

#[test]
fn parse_rejects_empty_input() {
    assert_eq!(parse(""), Err(ParseError::EmptyInput));
    assert_eq!(parse("\n   \n\t"), Err(ParseError::EmptyInput));
    assert_eq!(parse_tokens(&Vec::new()), Err(ParseError::EmptyInput));
}

#[test]
fn parse_rejects_a_connector_before_the_root() {
    assert_eq!(parse("└── when a\n   └── it x"), Err(ParseError::UnexpectedToken { line: 1 }));
}

#[test]
fn parse_rejects_a_connector_without_text() {
    assert_eq!(parse("Root\n├── it x\n└── "), Err(ParseError::UnexpectedToken { line: 3 }));
}

#[test]
fn parse_rejects_a_second_root() {
    assert_eq!(parse("Root\n└── it x\nOther"), Err(ParseError::MultipleRoots { line: 3 }));
}

#[test]
fn parse_rejects_a_line_between_two_levels() {
    assert_eq!(
        parse("Root\n├── when a\n│   └── it x\n│ └── it y"),
        Err(ParseError::InconsistentIndentation { line: 4 })
    );
}

#[test]
fn parse_reports_the_first_fault_only() {
    assert_eq!(
        parse("Root\n├── when a\n│   └── it x\n│ └── it y\nOther\n└── "),
        Err(ParseError::InconsistentIndentation { line: 4 })
    );
}

#[test]
fn classify_labels_by_keyword_and_parent() {
    let nodes = parse(
        "Root\n├── WHEN a  b\n│   ├── it x\n│   │   └── because\n│   │       └── of that\n│   └── Given c\n│       └── whenever\n└── it z",
    )
    .unwrap();
    let kinds = classify(&nodes).unwrap();
    assert_eq!(
        kinds,
        vec![
            NodeKind::Root,
            NodeKind::Condition { keyword: Keyword::When, phrase: String::from("a  b") },
            NodeKind::Action { phrase: String::from("it x") },
            NodeKind::Description { phrase: String::from("because") },
            NodeKind::Description { phrase: String::from("of that") },
            NodeKind::Condition { keyword: Keyword::Given, phrase: String::from("c") },
            NodeKind::Action { phrase: String::from("whenever") },
            NodeKind::Action { phrase: String::from("it z") },
        ]
    );
}

#[test]
fn classify_node_goes_by_text_and_parent_alone() {
    let action = NodeKind::Action { phrase: String::from("it x") };
    assert_eq!(
        classify_node("when", &NodeKind::Root),
        NodeKind::Condition { keyword: Keyword::When, phrase: String::new() }
    );
    assert_eq!(
        classify_node("given\tthat", &action),
        NodeKind::Condition { keyword: Keyword::Given, phrase: String::from("that") }
    );
    assert_eq!(
        classify_node("givenness", &NodeKind::Root),
        NodeKind::Action { phrase: String::from("givenness") }
    );
    assert_eq!(
        classify_node("note", &action),
        NodeKind::Description { phrase: String::from("note") }
    );
}

#[test]
fn classify_rejects_a_condition_below_an_action() {
    let nodes = parse("Root\n└── it should x\n    ├── a note\n    └── when y").unwrap();
    assert_eq!(classify(&nodes), Err(ClassificationError { line: 4 }));
}

#[test]
fn sanitize_puts_the_filler_for_every_other_character() {
    assert_eq!(sanitize("Fi-eTest"), "Fi_eTest");
    assert_eq!(sanitize("a.b c{d}_9-"), "a_b_c_d__9_");
    assert_eq!(sanitize(""), "");
    assert_eq!(sanitize("über-größe"), "_ber_gr__e");
}

#[test]
fn sanitize_leaves_only_identifier_characters() {
    let out = sanitize("It's 100% (un)safe - really!?");
    assert!(out.chars().all(|c| c.is_ascii_alphanumeric() || c == '_'));
    assert_eq!(out, "It_s_100___un_safe___really__");
    assert_eq!(out.chars().count(), "It's 100% (un)safe - really!?".chars().count());
}
