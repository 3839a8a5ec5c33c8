use drip::ast::{Expr, Literal, Root, Stmt};
use drip::node::{SyntaxElement, SyntaxNode};
use drip::parse;
use drip::span::Span;
use drip::syntax::SyntaxKind;
use drip::text::parse_u64;

#[derive(Debug, Clone, Copy, PartialEq, Eq, PartialOrd, Ord, Hash)]
enum Lang {}

impl rowan::Language for Lang {
    type Kind = SyntaxKind;

    fn kind_from_raw(raw: rowan::SyntaxKind) -> SyntaxKind {
        SyntaxKind::from_raw(raw.0).unwrap()
    }

    fn kind_to_raw(kind: SyntaxKind) -> rowan::SyntaxKind {
        rowan::SyntaxKind(kind.to_raw())
    }
}

const INPUTS: [&str; 12] = [
    "",
    "  // c\n",
    "1",
    "1+2*3-4",
    " -( 1 + x ) * 3 ",
    "(1+",
    ")))",
    "a :: 10 + 3 * (4 - 3 * 3)",
    "y := 5 * -(8 + 2)\nz = y",
    "f :: (x: i32, y: string) -> (i32, Self) { x + y }",
    "S :: struct { name: string, x: f32 } T :: trait { Type }",
    "¤ é := 안녕 \t 1.5e-3 ~ _ . ; a/b extern use",
];

fn same(ours: SyntaxNode, theirs: &rowan::SyntaxNode<Lang>) {
    assert_eq!(ours.kind(), theirs.kind());
    let range = ours.text_range();
    assert_eq!(range.start(), u32::from(theirs.text_range().start()));
    assert_eq!(range.end(), u32::from(theirs.text_range().end()));
    let children = ours.children_with_tokens();
    let expected: Vec<_> = theirs.children_with_tokens().collect();
    assert_eq!(children.len(), expected.len());
    for (child, other) in children.into_iter().zip(expected) {
        match (child, other) {
            (SyntaxElement::Node(node), rowan::NodeOrToken::Node(theirs)) => same(node, &theirs),
            (SyntaxElement::Token(token), rowan::NodeOrToken::Token(theirs)) => {
                assert_eq!(token.kind(), theirs.kind());
                assert_eq!(token.text(), theirs.text());
                assert_eq!(
                    token.text_range(),
                    Span::new(theirs.text_range().start().into(), theirs.text_range().end().into())
                );
            }
            (child, other) => panic!("{:?} is not {:?}", child, other),
        }
    }
    let nodes = ours.children();
    let expected: Vec<_> = theirs.children().collect();
    assert_eq!(nodes.len(), expected.len());
    for (node, other) in nodes.into_iter().zip(expected) {
        assert_eq!(node.kind(), other.kind());
        assert_eq!(node.text_range().start(), u32::from(other.text_range().start()));
    }
    match (ours.first_token(), theirs.first_token()) {
        (Some(token), Some(other)) => {
            assert_eq!(token.text(), other.text());
            assert_eq!(token.text_range().start(), u32::from(other.text_range().start()));
        }
        (None, None) => {}
        (token, other) => panic!("{:?} is not {:?}", token, other),
    }
}

#[test]
fn the_tree_answers_as_rowan_does() {
    for input in INPUTS {
        let parse = parse(input);
        let tree = parse.syntax();
        let theirs = rowan::SyntaxNode::<Lang>::new_root(parse.green_node().clone());
        same(tree.root(), &theirs);
    }
}

#[test]
fn the_root_is_the_whole_input() {
    for input in INPUTS {
        let parse = parse(input);
        let tree = parse.syntax();
        let root = tree.root();
        assert_eq!(root.kind(), SyntaxKind::Root);
        assert_eq!(root.text_range(), Span::new(0, input.len() as u32));
        assert!(Root::cast(root).is_some());
        assert!(Literal::cast(root).is_none());
    }
}

#[test]
fn an_element_is_a_node_or_a_token() {
    let parse = parse("1+)");
    let tree = parse.syntax();
    let infix = tree.root().children()[0];
    let elements = infix.children_with_tokens();
    assert_eq!(elements.len(), 3);
    assert!(elements[0].into_node().is_some());
    assert!(elements[0].into_token().is_none());
    assert_eq!(elements[1].into_token().unwrap().text(), "+");
    assert!(elements[1].into_node().is_none());
    assert_eq!(elements[2].into_node().unwrap().kind(), SyntaxKind::Error);
}

#[test]
fn the_statements_of_an_input() {
    let parse = parse("x := 1 + 2\ny :: 7 f :: () { } -z (4) w = 1");
    let tree = parse.syntax();
    let root = Root::cast(tree.root()).unwrap();
    let shapes: Vec<&str> = root
        .stmts()
        .iter()
        .map(|stmt| match stmt {
            Stmt::VariableDef(_) => "variable",
            Stmt::ConstDef(_) => "constant",
            Stmt::Expr(Expr::BinaryExpr(_)) => "binary",
            Stmt::Expr(Expr::UnaryExpr(_)) => "unary",
            Stmt::Expr(Expr::Literal(_)) => "literal",
            Stmt::Expr(Expr::RoundBracketExpr(_)) => "bracket",
            Stmt::Expr(Expr::VariableRef(_)) => "reference",
        })
        .collect();
    assert_eq!(shapes, vec!["variable", "constant", "unary", "bracket"]);
}

#[test]
fn the_parts_of_a_definition() {
    let parse = parse("answer := 40 + 2");
    let tree = parse.syntax();
    let root = Root::cast(tree.root()).unwrap();
    let stmts = root.stmts();
    assert_eq!(stmts.len(), 1);
    let Stmt::VariableDef(def) = &stmts[0] else { panic!("{:?}", stmts) };
    assert_eq!(def.name().unwrap().text(), "answer");
    let Some(Expr::BinaryExpr(sum)) = def.value() else { panic!("{:?}", def.value()) };
    assert_eq!(sum.op().unwrap().kind(), SyntaxKind::Plus);
    let Some(Expr::Literal(lhs)) = sum.lhs() else { panic!("{:?}", sum.lhs()) };
    let Some(Expr::Literal(rhs)) = sum.rhs() else { panic!("{:?}", sum.rhs()) };
    assert_eq!(lhs.parse(), Some(40));
    assert_eq!(rhs.parse(), Some(2));
}

#[test]
fn the_parts_of_a_constant_and_of_expressions() {
    let parse = parse("c :: -(x) * 1_0");
    let tree = parse.syntax();
    let stmts = Root::cast(tree.root()).unwrap().stmts();
    let Stmt::ConstDef(def) = &stmts[0] else { panic!("{:?}", stmts) };
    assert_eq!(def.name().unwrap().text(), "c");
    let Some(Expr::BinaryExpr(product)) = def.value() else { panic!("{:?}", def.value()) };
    assert_eq!(product.op().unwrap().text(), "*");
    let Some(Expr::UnaryExpr(negation)) = product.lhs() else { panic!("{:?}", product.lhs()) };
    assert_eq!(negation.op().unwrap().kind(), SyntaxKind::Minus);
    let Some(Expr::RoundBracketExpr(bracket)) = negation.expr() else { panic!() };
    let Some(Expr::VariableRef(reference)) = bracket.expr() else { panic!() };
    assert_eq!(reference.name().unwrap().text(), "x");
    let Some(Expr::Literal(number)) = product.rhs() else { panic!() };
    assert_eq!(number.parse(), None);
}

#[test]
fn what_is_missing_is_none() {
    let parse = parse("1 +");
    let tree = parse.syntax();
    let stmts = Root::cast(tree.root()).unwrap().stmts();
    let Stmt::Expr(Expr::BinaryExpr(sum)) = &stmts[0] else { panic!("{:?}", stmts) };
    assert!(sum.lhs().is_some());
    assert!(sum.rhs().is_none());
    assert!(sum.op().is_some());
    let parse = parse_empty_definition();
    let tree = parse.syntax();
    let stmts = Root::cast(tree.root()).unwrap().stmts();
    let Stmt::VariableDef(def) = &stmts[0] else { panic!("{:?}", stmts) };
    assert!(def.value().is_none());
    assert_eq!(def.name().unwrap().text(), "v");
}

fn parse_empty_definition() -> drip::Parse {
    parse("v :=")
}

#[test]
fn whole_numbers_in_decimal_digits() {
    assert_eq!(parse_u64("0"), Some(0));
    assert_eq!(parse_u64("007"), Some(7));
    assert_eq!(parse_u64("+12"), Some(12));
    assert_eq!(parse_u64("18446744073709551615"), Some(u64::MAX));
    assert_eq!(parse_u64("18446744073709551616"), None);
    assert_eq!(parse_u64("99999999999999999999999"), None);
    assert_eq!(parse_u64(""), None);
    assert_eq!(parse_u64("+"), None);
    assert_eq!(parse_u64("-1"), None);
    assert_eq!(parse_u64("++1"), None);
    assert_eq!(parse_u64("1_000"), None);
    assert_eq!(parse_u64("1.5"), None);
    assert_eq!(parse_u64(" 1"), None);
    assert_eq!(parse_u64("1e3"), None);
    assert_eq!(parse_u64("１"), None);
    for text in ["0", "42", "+5", "18446744073709551615", "18446744073709551616", "x", "", "+", "-0"] {
        assert_eq!(parse_u64(text), text.parse::<u64>().ok(), "{:?}", text);
    }
}
