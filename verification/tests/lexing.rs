use drip::lexer::{tokenize, Lexer};
use drip::span::Span;
use drip::token::{Token, TokenKind};

fn kinds(input: &str) -> Vec<(TokenKind, String)> {
    tokenize(input).into_iter().map(|t| (t.kind, t.text)).collect()
}

fn pair(kind: TokenKind, text: &str) -> (TokenKind, String) {
    (kind, text.to_string())
}

#[test]
fn token_texts_concatenate_to_the_input() {
    for input in [
        "",
        "a :: 10 + 3 * (4 - 3 * 3)",
        " 1 +   2* 3 ",
        "\n1\n  + 1 // Add one\n  + 10 // Add ten",
        "¤¤ é := 1.5e-3 \t ~ \\ 안녕",
        "f :: (x: i32, y: string) -> (i32, Self) { x }",
        "////\n/a/b // c",
    ] {
        let tokens = tokenize(input);
        let text: String = tokens.iter().map(|t| t.text.as_str()).collect();
        assert_eq!(text, input);
    }
}

#[test]
fn token_ranges_are_contiguous_byte_ranges() {
    let input = "é := 안녕 + 1 // ¤";
    let tokens = tokenize(input);
    let mut offset: u32 = 0;
    for token in &tokens {
        assert_eq!(token.range.start(), offset);
        assert_eq!(token.range.len() as usize, token.text.len());
        assert_eq!(&input[token.range.start() as usize..token.range.end() as usize], token.text);
        offset = token.range.end();
    }
    assert_eq!(offset as usize, input.len());
}

#[test]
fn ranges_count_bytes_not_characters() {
    let tokens = tokenize("é+");
    assert_eq!(
        tokens,
        vec![
            Token { kind: TokenKind::Ident, text: "é".to_string(), range: Span::new(0, 2) },
            Token { kind: TokenKind::Plus, text: "+".to_string(), range: Span::new(2, 3) },
        ]
    );
}

#[test]
fn every_token_is_nonempty() {
    for token in tokenize("a ::\t\t( 1 .. _ __ )") {
        assert!(!token.text.is_empty());
        assert!(!token.range.is_empty());
    }
}

#[test]
fn lexer_ends_with_none_and_stays_there() {
    let mut lexer = Lexer::new("a");
    assert!(lexer.next().is_some());
    assert!(lexer.next().is_none());
    assert!(lexer.next().is_none());
}

#[test]
fn empty_input_has_no_token() {
    assert!(tokenize("").is_empty());
    assert!(Lexer::new("").next().is_none());
}

#[test]
fn a_keyword_is_a_whole_word() {
    assert_eq!(kinds("fn"), vec![pair(TokenKind::FnKw, "fn")]);
    assert_eq!(kinds("fnx"), vec![pair(TokenKind::Ident, "fnx")]);
    assert_eq!(kinds("f"), vec![pair(TokenKind::Ident, "f")]);
    assert_eq!(kinds("structs"), vec![pair(TokenKind::Ident, "structs")]);
    assert_eq!(kinds("selfish"), vec![pair(TokenKind::Ident, "selfish")]);
    assert_eq!(kinds("type"), vec![pair(TokenKind::Ident, "type")]);
    assert_eq!(kinds("Type"), vec![pair(TokenKind::TypeKw, "Type")]);
    assert_eq!(kinds("use"), vec![pair(TokenKind::UseKw, "use")]);
    assert_eq!(kinds("extern"), vec![pair(TokenKind::ExternKw, "extern")]);
    assert_eq!(kinds("externs"), vec![pair(TokenKind::Ident, "externs")]);
}

#[test]
fn the_longest_mark_wins() {
    assert_eq!(kinds("::"), vec![pair(TokenKind::ConstKw, "::")]);
    assert_eq!(kinds(":="), vec![pair(TokenKind::VariableKw, ":=")]);
    assert_eq!(
        kinds(":::"),
        vec![pair(TokenKind::ConstKw, "::"), pair(TokenKind::Colon, ":")]
    );
    assert_eq!(kinds("->"), vec![pair(TokenKind::Arrow, "->")]);
    assert_eq!(
        kinds("-->"),
        vec![pair(TokenKind::Minus, "-"), pair(TokenKind::Arrow, "->")]
    );
    assert_eq!(
        kinds("==="),
        vec![pair(TokenKind::Equals2, "=="), pair(TokenKind::Equals, "=")]
    );
    assert_eq!(
        kinds("&&&"),
        vec![pair(TokenKind::And2, "&&"), pair(TokenKind::And, "&")]
    );
    assert_eq!(
        kinds("|||"),
        vec![pair(TokenKind::Pipe2, "||"), pair(TokenKind::Pipe, "|")]
    );
    assert_eq!(
        kinds("^^^"),
        vec![pair(TokenKind::Circumflex2, "^^"), pair(TokenKind::Circumflex, "^")]
    );
}

#[test]
fn slash_starts_a_comment_an_identifier_or_stands_alone() {
    assert_eq!(kinds("/"), vec![pair(TokenKind::Slash, "/")]);
    assert_eq!(kinds("//"), vec![pair(TokenKind::Comment, "//")]);
    assert_eq!(kinds("//a b"), vec![pair(TokenKind::Comment, "//a b")]);
    assert_eq!(
        kinds("//a\nb"),
        vec![
            pair(TokenKind::Comment, "//a"),
            pair(TokenKind::Whitespace, "\n"),
            pair(TokenKind::Ident, "b"),
        ]
    );
    assert_eq!(kinds("/a"), vec![pair(TokenKind::Ident, "/a")]);
    assert_eq!(kinds("a/b"), vec![pair(TokenKind::Ident, "a/b")]);
    assert_eq!(
        kinds("/ a"),
        vec![
            pair(TokenKind::Slash, "/"),
            pair(TokenKind::Whitespace, " "),
            pair(TokenKind::Ident, "a"),
        ]
    );
}

#[test]
fn numbers_take_fraction_and_exponent() {
    for text in ["0", "1_000", "1.5", ".5", "1.5e10", "1e5", "1E+5", "2e-3", "1_.2_e_3", "__", "1_", "._"] {
        assert_eq!(kinds(text), vec![pair(TokenKind::Number, text)]);
    }
}

#[test]
fn a_number_stops_where_its_shape_ends() {
    assert_eq!(kinds("1."), vec![pair(TokenKind::Number, "1"), pair(TokenKind::Dot, ".")]);
    assert_eq!(
        kinds("1e"),
        vec![pair(TokenKind::Number, "1"), pair(TokenKind::Ident, "e")]
    );
    assert_eq!(
        kinds("1e+"),
        vec![pair(TokenKind::Number, "1"), pair(TokenKind::Ident, "e"), pair(TokenKind::Plus, "+")]
    );
    assert_eq!(
        kinds("_1.5"),
        vec![pair(TokenKind::Number, "_1"), pair(TokenKind::Number, ".5")]
    );
    assert_eq!(
        kinds("1.2.3"),
        vec![pair(TokenKind::Number, "1.2"), pair(TokenKind::Number, ".3")]
    );
    assert_eq!(kinds("."), vec![pair(TokenKind::Dot, ".")]);
    assert_eq!(kinds("_"), vec![pair(TokenKind::Underscore, "_")]);
    assert_eq!(
        kinds("_a"),
        vec![pair(TokenKind::Underscore, "_"), pair(TokenKind::Ident, "a")]
    );
}

#[test]
fn whitespace_is_blanks_and_line_feeds_only() {
    assert_eq!(kinds(" \n \n"), vec![pair(TokenKind::Whitespace, " \n \n")]);
    assert_eq!(
        kinds(" \t "),
        vec![
            pair(TokenKind::Whitespace, " "),
            pair(TokenKind::Error, "\t"),
            pair(TokenKind::Whitespace, " "),
        ]
    );
    assert_eq!(kinds("\r"), vec![pair(TokenKind::Error, "\r")]);
}

#[test]
fn each_unrecognized_character_is_a_token_of_its_own() {
    assert_eq!(
        kinds("¤¤~"),
        vec![
            pair(TokenKind::Error, "¤"),
            pair(TokenKind::Error, "¤"),
            pair(TokenKind::Error, "~"),
        ]
    );
    let tokens = tokenize("a¤b");
    assert_eq!(tokens[1].kind, TokenKind::Error);
    assert_eq!(tokens[1].range, Span::new(1, 3));
    assert_eq!(tokens[2].kind, TokenKind::Ident);
}

#[test]
fn letters_beyond_ascii_make_identifiers() {
    assert_eq!(kinds("是"), vec![pair(TokenKind::Ident, "是")]);
    assert_eq!(kinds("Gerät3"), vec![pair(TokenKind::Ident, "Gerät3")]);
    assert_eq!(
        kinds("x²"),
        vec![pair(TokenKind::Ident, "x"), pair(TokenKind::Error, "²")]
    );
    assert_eq!(kinds("3是"), vec![pair(TokenKind::Number, "3"), pair(TokenKind::Ident, "是")]);
}

#[test]
fn trivia_is_whitespace_and_comments() {
    let tokens = tokenize("a // b\n");
    let trivia: Vec<bool> = tokens.iter().map(|t| t.is_trivia()).collect();
    assert_eq!(trivia, vec![false, true, true, true]);
    assert!(TokenKind::Whitespace.is_trivia());
    assert!(TokenKind::Comment.is_trivia());
    assert!(!TokenKind::Error.is_trivia());
    assert!(!TokenKind::Ident.is_trivia());
    assert!(!TokenKind::Slash.is_trivia());
}

#[test]
fn token_kinds_have_their_names() {
    assert_eq!(TokenKind::Error.name(), "unrecognized token");
    assert_eq!(TokenKind::Ident.name(), "identifier");
    assert_eq!(TokenKind::Number.name(), "number");
    assert_eq!(TokenKind::ExternKw.name(), "extern");
    assert_eq!(TokenKind::UseKw.name(), "use");
    assert_eq!(TokenKind::TypeKw.name(), "type");
    assert_eq!(TokenKind::SelfVarKw.name(), "'self'");
    assert_eq!(TokenKind::SelfTypeKw.name(), "'Self'");
    assert_eq!(TokenKind::ConstKw.name(), "::");
    assert_eq!(TokenKind::Bang.name(), "!");
    assert_eq!(TokenKind::Quote.name(), "'\"'");
    assert_eq!(TokenKind::SingleQuote.name(), "'''");
    assert_eq!(TokenKind::RRoundBracket.name(), "')'");
    assert_eq!(TokenKind::Arrow.name(), "->");
}

#[test]
fn the_length_check_lets_ordinary_texts_through() {
    assert_eq!(drip::lexer::try_tokenize("a + 1"), Some(tokenize("a + 1")));
    assert_eq!(drip::lexer::try_tokenize(""), Some(vec![]));
    let mut lexer = Lexer::try_new("é").unwrap();
    assert_eq!(
        lexer.next(),
        Some(Token { kind: TokenKind::Ident, text: "é".to_string(), range: Span::new(0, 2) })
    );
    assert_eq!(lexer.next(), None);
}

#[test]
fn a_letter_beyond_ascii_is_what_is_alphabetic() {
    for text in ["Ⅷ", "ª", "ǅ", "ʰ", "א"] {
        assert!(text.chars().all(char::is_alphabetic));
        assert_eq!(kinds(text), vec![pair(TokenKind::Ident, text)]);
    }
    for text in ["٣", "€", "→", "\u{301}"] {
        assert!(!text.chars().any(char::is_alphabetic));
        assert_eq!(kinds(text), vec![pair(TokenKind::Error, text)]);
    }
}
