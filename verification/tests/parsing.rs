use drip::error::ParseError;
use drip::parse;
use drip::render::render;
use drip::span::Span;
use drip::syntax::SyntaxKind;
use drip::token::TokenKind;
use drip::tree::TreeItem;
use rowan::NodeOrToken;

#[derive(Debug, Clone, Copy, PartialEq, Eq, PartialOrd, Ord, Hash)]
enum Lang {}

impl rowan::Language for Lang {
    type Kind = SyntaxKind;

    fn kind_from_raw(raw: rowan::SyntaxKind) -> SyntaxKind {
        SyntaxKind::from_raw(raw.0).unwrap()
    }

    fn kind_to_raw(kind: SyntaxKind) -> rowan::SyntaxKind {
        rowan::SyntaxKind(kind.to_raw())
    }
}

fn root(input: &str) -> rowan::SyntaxNode<Lang> {
    rowan::SyntaxNode::new_root(parse(input).green_node().clone())
}

const INPUTS: [&str; 30] = [
    "",
    " ",
    "// only a comment",
    "1",
    "1+2*3-4",
    "-20+20",
    "(1+",
    "(foo",
    ")",
    ")))",
    "+",
    "1 + + 2",
    "a",
    "a b c",
    "a :: 10",
    "a ::",
    "a :=",
    "a =",
    "a :: (",
    "a :: ( b",
    "a :: () ->",
    "a :: () {",
    "f :: (x: i32, 1 2 3) -> (i32, , ]) { y := x }",
    "f :: (x: ",
    "S :: struct",
    "S :: struct { 1 2 a: b, c }",
    "T :: trait { Type }",
    "T :: trait { f :: () { } }",
    "extern use x := 3",
    "¤ é := 안녕 \t 1.5e-3 ~ _ . ; a/b",
];

#[test]
fn the_tree_holds_the_whole_input() {
    for input in INPUTS {
        let root = root(input);
        assert_eq!(root.text().to_string(), input);
        assert_eq!(root.kind(), SyntaxKind::Root);
        assert_eq!(u32::from(root.text_range().start()), 0);
        assert_eq!(u32::from(root.text_range().end()) as usize, input.len());
    }
}

#[test]
fn the_tokens_of_the_tree_in_order_are_the_input() {
    for input in INPUTS {
        let mut text = String::new();
        for element in root(input).descendants_with_tokens() {
            if let NodeOrToken::Token(token) = element {
                text.push_str(token.text());
            }
        }
        assert_eq!(text, input);
    }
}

#[test]
fn every_node_spans_its_children() {
    for input in INPUTS {
        for node in root(input).descendants() {
            let mut at = node.text_range().start();
            for child in node.children_with_tokens() {
                assert_eq!(child.text_range().start(), at);
                at = child.text_range().end();
            }
            assert_eq!(at, node.text_range().end());
        }
    }
}

#[test]
fn trivia_and_unrecognized_characters_stay_in_the_tree() {
    let root = root(" \t // c\n");
    let kinds: Vec<SyntaxKind> = root
        .descendants_with_tokens()
        .filter_map(|e| e.into_token())
        .map(|t| t.kind())
        .collect();
    assert_eq!(
        kinds,
        vec![
            SyntaxKind::Whitespace,
            SyntaxKind::Error,
            SyntaxKind::Whitespace,
            SyntaxKind::Comment,
            SyntaxKind::Whitespace,
        ]
    );
}

#[test]
fn the_rendering_is_the_tree_as_rowan_shows_it() {
    for input in INPUTS
        .into_iter()
        .chain(["a_very_long_identifier_of_more_than_25_bytes + 1", "                         1", "ééééééééééééééééééééé", "aééééééééééééééééééééé", "\n\n", "//\"quoted\" \\ 'c'"])
    {
        let parse = parse(input);
        let tree = format!("{:#?}", rowan::SyntaxNode::<Lang>::new_root(parse.green_node().clone()));
        let mut expected = tree[0..tree.len() - 1].to_string();
        for error in parse.errors() {
            expected.push('\n');
            expected.push_str(&error.to_text());
        }
        assert_eq!(parse.debug_tree(), expected, "{:?}", input);
    }
}

#[test]
fn a_long_token_is_shown_cut() {
    assert_eq!(
        parse("a234567890123456789012345").debug_tree(),
        "Root@0..25\n  VariableRef@0..25\n    Ident@0..25 \"a23456789012345678901 ...\""
    );
    assert_eq!(
        parse("a23456789012345678901234").debug_tree(),
        "Root@0..24\n  VariableRef@0..24\n    Ident@0..24 \"a23456789012345678901234\""
    );
    assert_eq!(
        parse("a2345678901234567890é345").debug_tree(),
        "Root@0..25\n  VariableRef@0..25\n    Ident@0..25 \"a2345678901234567890é ...\""
    );
}

#[test]
fn the_text_of_a_token_is_shown_escaped() {
    assert_eq!(parse("\n").debug_tree(), "Root@0..1\n  Whitespace@0..1 \"\\n\"");
    assert_eq!(parse("\"").debug_tree(), "Root@0..1\n  Error@0..1\n    Quote@0..1 \"\\\"\"\nerror at 0..1: expected extern, use, identifier, number, identifier, '-' or '(', but found '\"'");
    assert_eq!(parse("\t").debug_tree(), "Root@0..1\n  Error@0..1\n    Error@0..1 \"\\t\"\nerror at 0..1: expected extern, use, identifier, number, identifier, '-' or '(', but found unrecognized token");
}

#[test]
fn rendering_a_walk() {
    let items = vec![
        TreeItem::Node { kind: SyntaxKind::Root.to_raw() },
        TreeItem::Token { kind: SyntaxKind::Number.to_raw(), text: "1".to_string() },
        TreeItem::EndToken,
        TreeItem::Node { kind: 999 },
        TreeItem::Node { kind: SyntaxKind::Literal.to_raw() },
        TreeItem::Token { kind: SyntaxKind::Ident.to_raw(), text: "é".to_string() },
        TreeItem::EndToken,
        TreeItem::EndNode,
        TreeItem::Node { kind: SyntaxKind::Error.to_raw() },
        TreeItem::EndNode,
        TreeItem::EndNode,
        TreeItem::Token { kind: SyntaxKind::Plus.to_raw(), text: "+".to_string() },
        TreeItem::EndToken,
        TreeItem::EndNode,
    ];
    let errors = vec![ParseError { expected: vec![], found: None, range: Span::new(0, 0) }];
    assert_eq!(
        render(items, &errors),
        "Root@0..4\n  Number@0..1 \"1\"\n  999@1..3\n    Literal@1..3\n      Ident@1..3 \"é\"\n    Error@3..3\n  Plus@3..4 \"+\"\nerror at 0..0: expected "
    );
    assert_eq!(render(vec![], &vec![]), "");
    assert_eq!(render(vec![TreeItem::EndNode], &errors), "\nerror at 0..0: expected ");
}

#[test]
fn rendering_a_walk_that_is_no_tree() {
    let items = vec![
        TreeItem::EndNode,
        TreeItem::Node { kind: SyntaxKind::Root.to_raw() },
        TreeItem::Node { kind: SyntaxKind::Literal.to_raw() },
        TreeItem::Token { kind: SyntaxKind::Number.to_raw(), text: "12".to_string() },
        TreeItem::EndNode,
        TreeItem::Token { kind: SyntaxKind::Plus.to_raw(), text: "+".to_string() },
    ];
    assert_eq!(
        render(items, &vec![]),
        "Root@0..3\n  Literal@0..2\n    Number@0..2 \"12\"\n  Plus@2..3 \"+\""
    );
}

#[test]
fn the_ranges_of_the_tokens_are_those_of_the_tree() {
    for input in INPUTS {
        let tokens = drip::lexer::tokenize(input);
        let mut at = 0;
        for element in root(input).descendants_with_tokens() {
            if let NodeOrToken::Token(token) = element {
                assert_eq!(u32::from(token.text_range().start()), tokens[at].range.start());
                assert_eq!(u32::from(token.text_range().end()), tokens[at].range.end());
                assert_eq!(token.kind(), SyntaxKind::from(tokens[at].kind));
                assert_eq!(token.text(), tokens[at].text);
                at += 1;
            }
        }
        assert_eq!(at, tokens.len());
    }
}

#[test]
fn the_wording_of_a_diagnostic() {
    let mut error = ParseError { expected: vec![], found: None, range: Span::new(10, 12) };
    assert_eq!(error.to_text(), "error at 10..12: expected ");
    error.expected.push(TokenKind::Number);
    assert_eq!(error.to_text(), "error at 10..12: expected number");
    error.expected.push(TokenKind::Ident);
    assert_eq!(error.to_text(), "error at 10..12: expected number or identifier");
    error.expected.push(TokenKind::Minus);
    assert_eq!(error.to_text(), "error at 10..12: expected number, identifier or '-'");
    error.expected.push(TokenKind::LRoundBracket);
    assert_eq!(error.to_text(), "error at 10..12: expected number, identifier, '-' or '('");
    error.found = Some(TokenKind::RRoundBracket);
    assert_eq!(
        error.to_text(),
        "error at 10..12: expected number, identifier, '-' or '(', but found ')'"
    );
    error.range = Span::new(0, u32::MAX);
    error.expected.clear();
    error.expected.push(TokenKind::ExternKw);
    assert_eq!(error.to_text(), "error at 0..4294967295: expected extern, but found ')'");
}

#[test]
fn an_unclosed_parenthesis_gives_two_diagnostics() {
    let parse = parse("(1+");
    assert_eq!(
        parse.errors(),
        &vec![
            ParseError {
                expected: vec![
                    TokenKind::Number,
                    TokenKind::Ident,
                    TokenKind::Minus,
                    TokenKind::LRoundBracket,
                ],
                found: None,
                range: Span::new(2, 3),
            },
            ParseError {
                expected: vec![TokenKind::RRoundBracket],
                found: None,
                range: Span::new(2, 3)
            },
        ]
    );
}

#[test]
fn an_identifier_alone_is_a_reference_and_before_a_definition_mark_a_name() {
    assert_eq!(parse("y").debug_tree(), "Root@0..1\n  VariableRef@0..1\n    Ident@0..1 \"y\"");
    assert_eq!(
        parse("y:=1").debug_tree(),
        "Root@0..4\n  VariableDef@0..4\n    Ident@0..1 \"y\"\n    VariableKw@1..3 \":=\"\n    Literal@3..4\n      Number@3..4 \"1\""
    );
    assert_eq!(
        parse("y //c\n=1").debug_tree(),
        "Root@0..8\n  AssignDef@0..8\n    VariableRef@0..6\n      Ident@0..1 \"y\"\n      Whitespace@1..2 \" \"\n      Comment@2..5 \"//c\"\n      Whitespace@5..6 \"\\n\"\n    Equals@6..7 \"=\"\n    Literal@7..8\n      Number@7..8 \"1\""
    );
    assert_eq!(
        parse("y+1").debug_tree(),
        "Root@0..3\n  InfixExpr@0..3\n    VariableRef@0..1\n      Ident@0..1 \"y\"\n    Plus@1..2 \"+\"\n    Literal@2..3\n      Number@2..3 \"1\""
    );
}

#[test]
fn an_operator_without_a_right_side_ends_the_expression() {
    assert_eq!(
        parse("1+)").debug_tree(),
        "Root@0..3\n  InfixExpr@0..3\n    Literal@0..1\n      Number@0..1 \"1\"\n    Plus@1..2 \"+\"\n    Error@2..3\n      RRoundBracket@2..3 \")\"\nerror at 2..3: expected number, identifier, '-' or '(', but found ')'"
    );
}

#[test]
fn constructs_without_grammar_are_reported_and_skipped() {
    assert_eq!(
        parse("use").debug_tree(),
        "Root@0..3\n  Error@0..3\n    UseKw@0..3 \"use\"\nerror at 0..3: expected extern or use, but found use"
    );
    assert_eq!(
        parse("extern 1").debug_tree(),
        "Root@0..8\n  Error@0..7\n    ExternKw@0..6 \"extern\"\n    Whitespace@6..7 \" \"\n  Literal@7..8\n    Number@7..8 \"1\"\nerror at 0..6: expected extern, but found extern"
    );
    assert_eq!(
        parse("T::trait{Type}").debug_tree(),
        "Root@0..14\n  TraitDef@0..14\n    Ident@0..1 \"T\"\n    ConstKw@1..3 \"::\"\n    TraitKw@3..8 \"trait\"\n    TraitListsDef@8..14\n      LCurlyBracket@8..9 \"{\"\n      TraitTypeListDef@9..9\n      Error@9..13\n        TypeKw@9..13 \"Type\"\n      RCurlyBracket@13..14 \"}\"\nerror at 9..13: expected '}' or type, but found type"
    );
}

#[test]
fn a_function_is_told_from_a_constant_by_what_follows_its_parameters() {
    assert_eq!(
        parse("f::(a)").debug_tree(),
        "Root@0..6\n  ConstDef@0..6\n    Ident@0..1 \"f\"\n    ConstKw@1..3 \"::\"\n    RoundBracketExpr@3..6\n      LRoundBracket@3..4 \"(\"\n      VariableRef@4..5\n        Ident@4..5 \"a\"\n      RRoundBracket@5..6 \")\""
    );
    assert_eq!(
        parse("f::(){}").debug_tree(),
        "Root@0..7\n  FnDef@0..7\n    Ident@0..1 \"f\"\n    ConstKw@1..3 \"::\"\n    LRoundBracket@3..4 \"(\"\n    RRoundBracket@4..5 \")\"\n    LCurlyBracket@5..6 \"{\"\n    RCurlyBracket@6..7 \"}\""
    );
}

#[test]
fn the_length_check_lets_ordinary_texts_through_to_the_parser() {
    for input in INPUTS {
        let parsed = drip::try_parse(input).unwrap();
        assert_eq!(parsed.debug_tree(), parse(input).debug_tree());
        assert_eq!(parsed.errors(), parse(input).errors());
    }
}

#[test]
fn the_diagnostics_stand_in_the_order_of_their_places() {
    for input in INPUTS {
        let parse = parse(input);
        let starts: Vec<u32> = parse.errors().iter().map(|e| e.range.start()).collect();
        let mut sorted = starts.clone();
        sorted.sort();
        assert_eq!(starts, sorted, "{:?}", input);
    }
}
