use drip::lexer::Lexer;
use drip::token::TokenKind;

fn check_token(input: &str, kind: TokenKind) {
    let mut lexer = Lexer::new(input);

    let token = lexer.next().unwrap();
    assert_eq!(token.kind, kind);
    assert_eq!(token.text, input);
}

#[test]
fn comments() {
    check_token("//This is a comment", TokenKind::Comment);
}

#[test]
fn whitespaces() {
    check_token(" ", TokenKind::Whitespace);
    check_token("   ", TokenKind::Whitespace);
    check_token("\n", TokenKind::Whitespace);
    check_token("    \n ", TokenKind::Whitespace);
}

#[test]
fn token_ident() {
    check_token("Aksdf123", TokenKind::Ident);
    check_token("SDFSLS3234DSFD", TokenKind::Ident);
    check_token("안녕하세요", TokenKind::Ident);
    check_token("안녕하세요3", TokenKind::Ident);
    check_token("Gerät3是", TokenKind::Ident);
}

#[test]
fn struct_kw() {
    check_token("struct", TokenKind::StructKw);
}

#[test]
fn trait_kw() {
    check_token("trait", TokenKind::TraitKw);
}

#[test]
fn const_kw() {
    check_token("::", TokenKind::ConstKw);
}

#[test]
fn variable_kw() {
    check_token(":=", TokenKind::VariableKw);
}

#[test]
fn self_var_kw() {
    check_token("self", TokenKind::SelfVarKw);
}

#[test]
fn self_type_kw() {
    check_token("Self", TokenKind::SelfTypeKw);
}

#[test]
fn number() {
    check_token("123", TokenKind::Number);
    check_token("41242343", TokenKind::Number);
    check_token(".13", TokenKind::Number);
    check_token("2535.324", TokenKind::Number);
    check_token("2535.324e10", TokenKind::Number);
    check_token("23_629_349_234", TokenKind::Number);
    check_token("2_____4", TokenKind::Number);
    check_token("2_490.0", TokenKind::Number);
    check_token("2_490.023_423_7", TokenKind::Number);
}

#[test]
fn bang() {
    check_token("!", TokenKind::Bang);
}

#[test]
fn quest() {
    check_token("?", TokenKind::Quest);
}

#[test]
fn token_plus() {
    check_token("+", TokenKind::Plus);
}

#[test]
fn token_minus() {
    check_token("-", TokenKind::Minus);
}

#[test]
fn token_star() {
    check_token("*", TokenKind::Star);
}

#[test]
fn token_slash() {
    check_token("/", TokenKind::Slash);
}

#[test]
fn token_circumflex() {
    check_token("^", TokenKind::Circumflex);
}

#[test]
fn circumflex2() {
    check_token("^^", TokenKind::Circumflex2);
}

#[test]
fn and() {
    check_token("&", TokenKind::And);
}

#[test]
fn and2() {
    check_token("&&", TokenKind::And2);
}

#[test]
fn pipe() {
    check_token("|", TokenKind::Pipe);
}

#[test]
fn pipe2() {
    check_token("||", TokenKind::Pipe2);
}

#[test]
fn token_equals() {
    check_token("=", TokenKind::Equals);
}

#[test]
fn equals2() {
    check_token("==", TokenKind::Equals2);
}

#[test]
fn percent() {
    check_token("%", TokenKind::Percent);
}

#[test]
fn dollar() {
    check_token("$", TokenKind::Dollar);
}

#[test]
fn hashtag() {
    check_token("#", TokenKind::Hashtag);
}

#[test]
fn at() {
    check_token("@", TokenKind::At);
}

#[test]
fn underscore() {
    check_token("_", TokenKind::Underscore);
}

#[test]
fn dot() {
    check_token(".", TokenKind::Dot);
}

#[test]
fn comma() {
    check_token(",", TokenKind::Comma);
}

#[test]
fn colon() {
    check_token(":", TokenKind::Colon);
}

#[test]
fn semicolon() {
    check_token(";", TokenKind::Semicolon);
}

#[test]
fn quote() {
    check_token("\"", TokenKind::Quote);
}

#[test]
fn single_quote() {
    check_token("\'", TokenKind::SingleQuote);
}

#[test]
fn grave() {
    check_token("`", TokenKind::Grave);
}

#[test]
fn l_round_bracket() {
    check_token("(", TokenKind::LRoundBracket);
}

#[test]
fn r_round_bracket() {
    check_token(")", TokenKind::RRoundBracket);
}

#[test]
fn l_angled_bracket() {
    check_token("<", TokenKind::LAngledBracket);
}

#[test]
fn r_angled_bracket() {
    check_token(">", TokenKind::RAngledBracket);
}

#[test]
fn l_square_bracket() {
    check_token("[", TokenKind::LSquareBracket);
}

#[test]
fn r_square_bracket() {
    check_token("]", TokenKind::RSquareBracket);
}

#[test]
fn l_curly_bracket() {
    check_token("{", TokenKind::LCurlyBracket);
}

#[test]
fn r_curly_bracket() {
    check_token("}", TokenKind::RCurlyBracket);
}

#[test]
fn token_errors() {
    check_token("¤", TokenKind::Error);
}
