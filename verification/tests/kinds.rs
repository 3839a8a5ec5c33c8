use drip::grammar::expr::{BinaryOp, UnaryOp};
use drip::grammar::types::is_path_type_start;
use drip::lexer::tokenize;
use drip::span::Span;
use drip::syntax::{Drip, SyntaxKind, SYNTAX_KIND_COUNT};
use drip::token::TokenKind;

const ALL_TOKEN_TEXTS: &str = "¤ //c\n x fn use extern struct trait :: := Type self Self 1 ! ? + - * / ^ ^^ & && | || = == % $ # @ _ . , : ; \" ' ` -> { } ( ) < > [ ]";

fn all_token_kinds() -> Vec<TokenKind> {
    let mut kinds: Vec<TokenKind> = Vec::new();
    for token in tokenize(ALL_TOKEN_TEXTS) {
        if !kinds.contains(&token.kind) {
            kinds.push(token.kind);
        }
    }
    kinds
}

#[test]
fn the_sample_holds_every_token_kind() {
    assert_eq!(all_token_kinds().len(), 50);
}

#[test]
fn every_token_kind_has_a_tree_kind_of_its_own() {
    let kinds = all_token_kinds();
    for a in &kinds {
        for b in &kinds {
            if a != b {
                assert_ne!(SyntaxKind::from(*a), SyntaxKind::from(*b));
            }
        }
    }
}

#[test]
fn token_kinds_keep_their_names_in_the_tree() {
    for kind in all_token_kinds() {
        assert_eq!(format!("{:?}", SyntaxKind::from(kind)), format!("{:?}", kind));
    }
    assert_eq!(SyntaxKind::from(TokenKind::UseKw), SyntaxKind::UseKw);
    assert_eq!(SyntaxKind::from(TokenKind::ExternKw), SyntaxKind::ExternKw);
    assert_eq!(SyntaxKind::from(TokenKind::Error), SyntaxKind::Error);
}

#[test]
fn raw_tags_round_trip() {
    for raw in 0..SYNTAX_KIND_COUNT {
        let kind = SyntaxKind::from_raw(raw).unwrap();
        assert_eq!(kind.to_raw(), raw);
        assert_eq!(Drip::kind_from_raw(raw), kind);
        assert_eq!(Drip::kind_to_raw(kind), raw);
    }
    assert_eq!(SyntaxKind::from_raw(SYNTAX_KIND_COUNT), None);
    assert_eq!(SyntaxKind::from_raw(u16::MAX), None);
    assert_eq!(SyntaxKind::Root.to_raw(), 0);
    assert_eq!(SYNTAX_KIND_COUNT, 77);
}

#[test]
fn tree_kinds_are_named_as_they_are_written() {
    for raw in 0..SYNTAX_KIND_COUNT {
        let kind = SyntaxKind::from_raw(raw).unwrap();
        assert_eq!(kind.name(), format!("{:?}", kind));
    }
    assert_eq!(SyntaxKind::ExternKw.name(), "ExternKw");
    assert_eq!(SyntaxKind::InfixExpr.name(), "InfixExpr");
}

#[test]
fn binding_powers() {
    assert_eq!(BinaryOp::Add.binding_power(), (1, 2));
    assert_eq!(BinaryOp::Sub.binding_power(), (1, 2));
    assert_eq!(BinaryOp::Mul.binding_power(), (3, 4));
    assert_eq!(BinaryOp::Div.binding_power(), (3, 4));
    assert_eq!(UnaryOp::Neg.binding_power(), ((), 5));
}

#[test]
fn a_type_starts_with_an_identifier_or_self_type() {
    for kind in all_token_kinds() {
        assert_eq!(
            is_path_type_start(kind),
            kind == TokenKind::Ident || kind == TokenKind::SelfTypeKw
        );
    }
}

#[test]
fn spans() {
    let span = Span::new(3, 7);
    assert_eq!(span.start(), 3);
    assert_eq!(span.end(), 7);
    assert_eq!(span.len(), 4);
    assert!(!span.is_empty());
    assert!(Span::new(5, 5).is_empty());
    assert_eq!(Span::new(5, 5).len(), 0);
    assert_eq!(Span { start: 9, end: 2 }.len(), 0);
    assert_eq!(Span::new(0, u32::MAX).len(), u32::MAX);
}
