use drip::lexer::Lexer;
use drip::token::TokenKind;

fn check_token(input: &str, kind: TokenKind) {
    let mut lexer = Lexer::new(input);

    let token = lexer.next().unwrap();
    assert_eq!(token.kind, kind);
    assert_eq!(token.text, input);
}

#[test]
fn spaces() {
    check_token(" ", TokenKind::Whitespace);
    check_token("   ", TokenKind::Whitespace);
}

#[test]
fn fn_keyword() {
    check_token("fn", TokenKind::FnKw);
}

#[test]
fn mod_ident() {
    check_token("Aksdf123", TokenKind::Ident);
    check_token("SDFSLS3234DSFD", TokenKind::Ident);
}

#[test]
fn mod_plus() {
    check_token("+", TokenKind::Plus);
}

#[test]
fn mod_minus() {
    check_token("-", TokenKind::Minus);
}

#[test]
fn mod_star() {
    check_token("*", TokenKind::Star);
}

#[test]
fn mod_slash() {
    check_token("/", TokenKind::Slash);
}

#[test]
fn mod_circumflex() {
    check_token("^", TokenKind::Circumflex);
}

#[test]
fn double_circumflex() {
    check_token("^^", TokenKind::Circumflex2);
}

#[test]
fn mod_equals() {
    check_token("=", TokenKind::Equals);
}

#[test]
fn l_brace() {
    check_token("{", TokenKind::LCurlyBracket);
}

#[test]
fn r_brace() {
    check_token("}", TokenKind::RCurlyBracket);
}
