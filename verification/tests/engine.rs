use drip::error::ParseError;
use drip::event::Event;
use drip::lexer::tokenize;
use drip::parser::Parser;
use drip::sink::Sink;
use drip::source::Source;
use drip::span::Span;
use drip::syntax::SyntaxKind;
use drip::token::TokenKind;

fn start(kind: SyntaxKind, offset: Option<usize>) -> Event {
    Event::StartNode { kind, offset }
}

#[test]
fn peek_skips_trivia_without_consuming() {
    let tokens = tokenize("  a // c\n + ");
    let mut source = Source::new(&tokens);
    assert_eq!(source.peek_kind(), Some(TokenKind::Ident));
    assert_eq!(source.peek_kind(), Some(TokenKind::Ident));
    assert_eq!(source.peek_token().map(|t| t.text.as_str()), Some("a"));
    assert_eq!(source.next_token().map(|t| t.kind), Some(TokenKind::Ident));
    assert_eq!(source.peek_kind(), Some(TokenKind::Plus));
    assert_eq!(source.next_token().map(|t| t.kind), Some(TokenKind::Plus));
    assert_eq!(source.peek_kind(), None);
    assert_eq!(source.next_token(), None);
    assert_eq!(source.peek_token(), None);
}

#[test]
fn peek_nth_counts_structural_tokens_only() {
    let tokens = tokenize(" a  + //x\n b");
    let mut source = Source::new(&tokens);
    assert_eq!(source.peek_nth(0), Some(TokenKind::Ident));
    assert_eq!(source.peek_nth(1), Some(TokenKind::Plus));
    assert_eq!(source.peek_nth(2), Some(TokenKind::Ident));
    assert_eq!(source.peek_nth(3), None);
    assert_eq!(source.peek_nth(usize::MAX), None);
    source.next_token();
    assert_eq!(source.peek_nth(0), Some(TokenKind::Plus));
    assert_eq!(source.peek_nth(1), Some(TokenKind::Ident));
    assert_eq!(source.peek_nth(2), None);
}

#[test]
fn last_token_range_is_that_of_the_last_token_trivia_included() {
    let tokens = tokenize("ab  ");
    assert_eq!(Source::new(&tokens).last_token_range(), Some(Span::new(2, 4)));
    let none = tokenize("");
    assert_eq!(Source::new(&none).last_token_range(), None);
    assert_eq!(Source::new(&tokens).len(), 2);
}

#[test]
fn start_bump_complete_write_the_log() {
    let tokens = tokenize(" 7 ");
    let mut p = Parser::new(Source::new(&tokens));
    let m = p.start();
    assert_eq!(m.position(), 0);
    assert!(p.at(TokenKind::Number));
    p.bump();
    let done = m.complete(&mut p, SyntaxKind::Literal);
    assert_eq!(done.position(), 0);
    assert_eq!(p.event_count(), 3);
    assert!(p.at_end());
    assert_eq!(
        p.into_events(),
        vec![start(SyntaxKind::Literal, None), Event::AddToken, Event::FinishNode]
    );
}

#[test]
fn the_log_of_a_sum_wraps_the_left_operand() {
    let tokens = tokenize("1+2");
    let events = Parser::new(Source::new(&tokens)).parse();
    assert_eq!(
        events,
        vec![
            start(SyntaxKind::Root, None),
            start(SyntaxKind::Literal, Some(4)),
            Event::AddToken,
            Event::FinishNode,
            Event::AddToken,
            start(SyntaxKind::InfixExpr, None),
            start(SyntaxKind::Literal, None),
            Event::AddToken,
            Event::FinishNode,
            Event::FinishNode,
            Event::FinishNode,
        ]
    );
}

#[test]
fn an_abandoned_marker_at_the_end_of_the_log_leaves_nothing() {
    let tokens = tokenize("x");
    let mut p = Parser::new(Source::new(&tokens));
    let m = p.start();
    m.abandon(&mut p);
    assert_eq!(p.event_count(), 0);
    let first = p.start();
    let second = p.start();
    first.abandon(&mut p);
    assert_eq!(p.events(), &vec![Event::Placeholder, Event::Placeholder]);
    second.abandon(&mut p);
    assert_eq!(p.events(), &vec![Event::Placeholder]);
}

#[test]
fn an_abandoned_marker_inside_the_log_leaves_a_placeholder() {
    let tokens = tokenize("counter");
    let events = Parser::new(Source::new(&tokens)).parse();
    assert_eq!(
        events,
        vec![
            start(SyntaxKind::Root, None),
            Event::Placeholder,
            start(SyntaxKind::VariableRef, None),
            Event::AddToken,
            Event::FinishNode,
            Event::FinishNode,
        ]
    );
}

#[test]
fn precede_points_the_node_forward_to_the_new_marker() {
    let tokens = tokenize("a b");
    let mut p = Parser::new(Source::new(&tokens));
    let root = p.start();
    let m = p.start();
    p.bump();
    let inner = m.complete(&mut p, SyntaxKind::VariableRef);
    let outer = inner.precede(&mut p);
    assert_eq!(outer.position(), 4);
    p.bump();
    let wrapped = outer.complete(&mut p, SyntaxKind::InfixExpr);
    let outermost = wrapped.precede(&mut p);
    outermost.complete(&mut p, SyntaxKind::BlockExpr);
    root.complete(&mut p, SyntaxKind::Root);
    assert_eq!(
        p.events(),
        &vec![
            start(SyntaxKind::Root, None),
            start(SyntaxKind::VariableRef, Some(3)),
            Event::AddToken,
            Event::FinishNode,
            start(SyntaxKind::InfixExpr, Some(3)),
            Event::AddToken,
            Event::FinishNode,
            start(SyntaxKind::BlockExpr, None),
            Event::FinishNode,
            Event::FinishNode,
        ]
    );
    let parse = Sink::new(&tokens, p.into_events()).finish();
    assert_eq!(
        parse.debug_tree(),
        "Root@0..3\n  BlockExpr@0..3\n    InfixExpr@0..3\n      VariableRef@0..2\n        Ident@0..1 \"a\"\n        Whitespace@1..2 \" \"\n      Ident@2..3 \"b\""
    );
}

#[test]
fn at_records_what_was_expected_and_bump_forgets_it() {
    let tokens = tokenize("1 )");
    let mut p = Parser::new(Source::new(&tokens));
    let root = p.start();
    assert!(!p.at(TokenKind::Plus));
    assert!(p.at(TokenKind::Number));
    p.bump();
    assert!(!p.at(TokenKind::Minus));
    assert!(!p.at(TokenKind::Star));
    p.expect(TokenKind::Comma);
    root.complete(&mut p, SyntaxKind::Root);
    let parse = Sink::new(&tokens, p.into_events()).finish();
    assert_eq!(
        parse.errors(),
        &vec![ParseError {
            expected: vec![TokenKind::Minus, TokenKind::Star, TokenKind::Comma],
            found: Some(TokenKind::RRoundBracket),
            range: Span::new(2, 3),
        }]
    );
}

#[test]
fn an_error_at_a_token_outside_the_recovery_set_consumes_it() {
    let tokens = tokenize(") 1");
    let mut p = Parser::new(Source::new(&tokens));
    p.at(TokenKind::Number);
    p.error();
    assert_eq!(
        p.events(),
        &vec![
            Event::Error(ParseError {
                expected: vec![TokenKind::Number],
                found: Some(TokenKind::RRoundBracket),
                range: Span::new(0, 1),
            }),
            start(SyntaxKind::Error, None),
            Event::AddToken,
            Event::FinishNode,
        ]
    );
    assert_eq!(p.current(), Some(TokenKind::Number));
}

#[test]
fn an_error_at_an_identifier_consumes_nothing() {
    let tokens = tokenize(" x");
    let mut p = Parser::new(Source::new(&tokens));
    p.at(TokenKind::Number);
    p.at(TokenKind::Minus);
    p.error();
    assert_eq!(
        p.events(),
        &vec![Event::Error(ParseError {
            expected: vec![TokenKind::Number, TokenKind::Minus],
            found: Some(TokenKind::Ident),
            range: Span::new(1, 2),
        })]
    );
    assert_eq!(p.current(), Some(TokenKind::Ident));
    p.error();
    assert_eq!(p.event_count(), 2);
}

#[test]
fn an_error_at_the_end_points_at_the_last_token() {
    let tokens = tokenize("1  ");
    let mut p = Parser::new(Source::new(&tokens));
    p.bump();
    p.at(TokenKind::Plus);
    p.error();
    assert_eq!(
        p.into_events(),
        vec![
            Event::AddToken,
            Event::Error(ParseError {
                expected: vec![TokenKind::Plus],
                found: None,
                range: Span::new(1, 3),
            }),
        ]
    );
}

#[test]
fn an_error_in_an_empty_input_points_at_its_start() {
    let tokens = tokenize("");
    let mut p = Parser::new(Source::new(&tokens));
    p.error();
    assert_eq!(
        p.into_events(),
        vec![Event::Error(ParseError { expected: vec![], found: None, range: Span::new(0, 0) })]
    );
}

#[test]
fn expect_consumes_or_raises() {
    let tokens = tokenize("( x");
    let mut p = Parser::new(Source::new(&tokens));
    p.expect(TokenKind::LRoundBracket);
    assert_eq!(p.events(), &vec![Event::AddToken]);
    p.expect(TokenKind::RRoundBracket);
    assert_eq!(p.event_count(), 2);
    assert_eq!(p.current(), Some(TokenKind::Ident));
}

#[test]
fn at_set_and_at_end_and_peek_nth_look_without_recording() {
    let tokens = tokenize(" a := 1");
    let mut p = Parser::new(Source::new(&tokens));
    assert!(p.at_set(&[TokenKind::Number, TokenKind::Ident]));
    assert!(!p.at_set(&[TokenKind::Number]));
    assert!(!p.at_set(&[]));
    assert!(!p.at_end());
    assert_eq!(p.peek_nth(0), Some(TokenKind::Ident));
    assert_eq!(p.peek_nth(1), Some(TokenKind::VariableKw));
    assert_eq!(p.peek_nth(2), Some(TokenKind::Number));
    assert_eq!(p.peek_nth(3), None);
    assert_eq!(p.token_count(), 6);
    p.error();
    assert_eq!(
        p.into_events(),
        vec![Event::Error(ParseError {
            expected: vec![],
            found: Some(TokenKind::Ident),
            range: Span::new(1, 2),
        })]
    );
}

#[test]
fn the_log_is_linear_in_the_number_of_tokens() {
    for input in [
        "",
        "((((((((((",
        "))))))))))",
        "+ + + + + +",
        "a :: ( a :: ( a :: ( a :: (",
        "f :: (x: y, z: w) -> (a, b) { g :: () { 1 } }",
        "- - - - - - 1 * * * 2",
        "x x x x x x x x",
    ] {
        let tokens = tokenize(input);
        let events = Parser::new(Source::new(&tokens)).parse();
        assert!(events.len() <= 32 * tokens.len() + 2, "{}", input);
        let starts = events.iter().filter(|e| matches!(e, Event::StartNode { .. })).count();
        let finishes = events.iter().filter(|e| matches!(e, Event::FinishNode)).count();
        assert_eq!(starts, finishes, "{}", input);
        let added = events.iter().filter(|e| matches!(e, Event::AddToken)).count();
        let structural = tokens.iter().filter(|t| !t.is_trivia()).count();
        assert_eq!(added, structural, "{}", input);
        for (i, event) in events.iter().enumerate() {
            if let Event::StartNode { offset: Some(d), .. } = event {
                assert!(*d >= 1);
                assert!(matches!(events[i + d], Event::StartNode { .. }));
            }
        }
    }
}

#[test]
fn the_sink_opens_the_outermost_node_of_a_chain_first() {
    let tokens = tokenize("1");
    let events = vec![
        start(SyntaxKind::Root, None),
        start(SyntaxKind::Literal, Some(3)),
        Event::AddToken,
        Event::FinishNode,
        start(SyntaxKind::PrefixExpr, Some(2)),
        Event::FinishNode,
        start(SyntaxKind::InfixExpr, None),
        Event::FinishNode,
        Event::FinishNode,
    ];
    let parse = Sink::new(&tokens, events).finish();
    assert_eq!(
        parse.debug_tree(),
        "Root@0..1\n  InfixExpr@0..1\n    PrefixExpr@0..1\n      Literal@0..1\n        Number@0..1 \"1\""
    );
    assert!(parse.errors().is_empty());
}

#[test]
fn the_sink_skips_placeholders_and_collects_diagnostics_in_order() {
    let tokens = tokenize(" 1 ");
    let first = ParseError { expected: vec![TokenKind::Plus], found: None, range: Span::new(0, 1) };
    let second = ParseError { expected: vec![], found: Some(TokenKind::Number), range: Span::new(1, 2) };
    let events = vec![
        start(SyntaxKind::Root, None),
        Event::Placeholder,
        Event::Error(first.clone()),
        Event::AddToken,
        Event::Placeholder,
        Event::Error(second.clone()),
        Event::FinishNode,
    ];
    let parse = Sink::new(&tokens, events).finish();
    assert_eq!(parse.errors(), &vec![first, second]);
    assert_eq!(
        parse.debug_tree(),
        "Root@0..3\n  Whitespace@0..1 \" \"\n  Number@1..2 \"1\"\n  Whitespace@2..3 \" \"\nerror at 0..1: expected '+'\nerror at 1..2: expected , but found number"
    );
}

#[test]
fn a_chain_that_leads_to_no_start_ends_there() {
    let tokens = tokenize("1");
    let events = vec![
        start(SyntaxKind::Root, None),
        start(SyntaxKind::Literal, Some(3)),
        Event::AddToken,
        Event::FinishNode,
        Event::Placeholder,
        Event::FinishNode,
    ];
    let parse = Sink::new(&tokens, events).finish();
    assert_eq!(parse.debug_tree(), "Root@0..1\n  Literal@0..1\n    Number@0..1 \"1\"");
}
