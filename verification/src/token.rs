//! Token kinds and tokens.

use crate::span::Span;
use crate::text::{byte_len, lemma_byte_len_concat};
use vstd::prelude::*;

verus! {

/// The lexical category of a token.
#[derive(Clone, Copy, Debug, PartialEq, Eq, Structural)]
pub enum TokenKind {
    Error,
    Comment,
    Whitespace,
    Ident,
    FnKw,
    UseKw,
    ExternKw,
    StructKw,
    TraitKw,
    ConstKw,
    VariableKw,
    TypeKw,
    SelfVarKw,
    SelfTypeKw,
    Number,
    Bang,
    Quest,
    Plus,
    Minus,
    Star,
    Slash,
    Circumflex,
    Circumflex2,
    And,
    And2,
    Pipe,
    Pipe2,
    Equals,
    Equals2,
    Percent,
    Dollar,
    Hashtag,
    At,
    Underscore,
    Dot,
    Comma,
    Colon,
    Semicolon,
    Quote,
    SingleQuote,
    Grave,
    Arrow,
    LCurlyBracket,
    RCurlyBracket,
    LRoundBracket,
    RRoundBracket,
    LAngledBracket,
    RAngledBracket,
    LSquareBracket,
    RSquareBracket,
}

impl TokenKind {
    /// Trivia are the kinds the grammar never looks at: whitespace and comments.
    pub open spec fn spec_is_trivia(self) -> bool {
        self == TokenKind::Whitespace || self == TokenKind::Comment
    }

    /// Whether this kind is skipped by the grammar.
    #[verifier::when_used_as_spec(spec_is_trivia)]
    pub fn is_trivia(self) -> (r: bool)
        ensures
            r == self.spec_is_trivia(),
    {
        matches!(self, TokenKind::Whitespace | TokenKind::Comment)
    }

    /// The wording used for this kind in diagnostics.
    pub open spec fn spec_name(self) -> Seq<char> {
        match self {
            TokenKind::Error => "unrecognized token"@,
            TokenKind::Comment => "comment"@,
            TokenKind::Whitespace => "whitespace"@,
            TokenKind::Ident => "identifier"@,
            TokenKind::FnKw => "fn"@,
            TokenKind::UseKw => "use"@,
            TokenKind::ExternKw => "ex"@ + "tern"@,
            TokenKind::StructKw => "struct"@,
            TokenKind::TraitKw => "trait"@,
            TokenKind::ConstKw => "::"@,
            TokenKind::VariableKw => ":="@,
            TokenKind::TypeKw => "type"@,
            TokenKind::SelfVarKw => "'self'"@,
            TokenKind::SelfTypeKw => "'Self'"@,
            TokenKind::Number => "number"@,
            TokenKind::Bang => "!"@,
            TokenKind::Quest => "'?'"@,
            TokenKind::Plus => "'+'"@,
            TokenKind::Minus => "'-'"@,
            TokenKind::Star => "'*'"@,
            TokenKind::Slash => "'/'"@,
            TokenKind::Circumflex => "'^'"@,
            TokenKind::Circumflex2 => "'^^'"@,
            TokenKind::And => "'&'"@,
            TokenKind::And2 => "'&&'"@,
            TokenKind::Pipe => "'|'"@,
            TokenKind::Pipe2 => "'||'"@,
            TokenKind::Equals => "'='"@,
            TokenKind::Equals2 => "'=='"@,
            TokenKind::Percent => "'%'"@,
            TokenKind::Dollar => "'$'"@,
            TokenKind::Hashtag => "'#'"@,
            TokenKind::At => "'@'"@,
            TokenKind::Underscore => "'_'"@,
            TokenKind::Dot => "'.'"@,
            TokenKind::Comma => "','"@,
            TokenKind::Colon => "':'"@,
            TokenKind::Semicolon => "';'"@,
            TokenKind::Quote => "'\"'"@,
            TokenKind::SingleQuote => "'''"@,
            TokenKind::Grave => "'`'"@,
            TokenKind::Arrow => "->"@,
            TokenKind::LCurlyBracket => "'{'"@,
            TokenKind::RCurlyBracket => "'}'"@,
            TokenKind::LRoundBracket => "'('"@,
            TokenKind::RRoundBracket => "')'"@,
            TokenKind::LAngledBracket => "'<'"@,
            TokenKind::RAngledBracket => "'>'"@,
            TokenKind::LSquareBracket => "'['"@,
            TokenKind::RSquareBracket => "']'"@,
        }
    }

    /// The wording used for this kind in diagnostics, as an owned string.
    pub fn name(self) -> (r: String)
        ensures
            r@ == self.spec_name(),
    {
        match self {
            TokenKind::Error => "unrecognized token".to_owned(),
            TokenKind::Comment => "comment".to_owned(),
            TokenKind::Whitespace => "whitespace".to_owned(),
            TokenKind::Ident => "identifier".to_owned(),
            TokenKind::FnKw => "fn".to_owned(),
            TokenKind::UseKw => "use".to_owned(),
            TokenKind::ExternKw => "ex".to_owned().concat("tern"),
            TokenKind::StructKw => "struct".to_owned(),
            TokenKind::TraitKw => "trait".to_owned(),
            TokenKind::ConstKw => "::".to_owned(),
            TokenKind::VariableKw => ":=".to_owned(),
            TokenKind::TypeKw => "type".to_owned(),
            TokenKind::SelfVarKw => "'self'".to_owned(),
            TokenKind::SelfTypeKw => "'Self'".to_owned(),
            TokenKind::Number => "number".to_owned(),
            TokenKind::Bang => "!".to_owned(),
            TokenKind::Quest => "'?'".to_owned(),
            TokenKind::Plus => "'+'".to_owned(),
            TokenKind::Minus => "'-'".to_owned(),
            TokenKind::Star => "'*'".to_owned(),
            TokenKind::Slash => "'/'".to_owned(),
            TokenKind::Circumflex => "'^'".to_owned(),
            TokenKind::Circumflex2 => "'^^'".to_owned(),
            TokenKind::And => "'&'".to_owned(),
            TokenKind::And2 => "'&&'".to_owned(),
            TokenKind::Pipe => "'|'".to_owned(),
            TokenKind::Pipe2 => "'||'".to_owned(),
            TokenKind::Equals => "'='".to_owned(),
            TokenKind::Equals2 => "'=='".to_owned(),
            TokenKind::Percent => "'%'".to_owned(),
            TokenKind::Dollar => "'$'".to_owned(),
            TokenKind::Hashtag => "'#'".to_owned(),
            TokenKind::At => "'@'".to_owned(),
            TokenKind::Underscore => "'_'".to_owned(),
            TokenKind::Dot => "'.'".to_owned(),
            TokenKind::Comma => "','".to_owned(),
            TokenKind::Colon => "':'".to_owned(),
            TokenKind::Semicolon => "';'".to_owned(),
            TokenKind::Quote => "'\"'".to_owned(),
            TokenKind::SingleQuote => "'''".to_owned(),
            TokenKind::Grave => "'`'".to_owned(),
            TokenKind::Arrow => "->".to_owned(),
            TokenKind::LCurlyBracket => "'{'".to_owned(),
            TokenKind::RCurlyBracket => "'}'".to_owned(),
            TokenKind::LRoundBracket => "'('".to_owned(),
            TokenKind::RRoundBracket => "')'".to_owned(),
            TokenKind::LAngledBracket => "'<'".to_owned(),
            TokenKind::RAngledBracket => "'>'".to_owned(),
            TokenKind::LSquareBracket => "'['".to_owned(),
            TokenKind::RSquareBracket => "']'".to_owned(),
        }
    }
}

/// One token: its kind, its text and the bytes of the input it covers.
#[derive(Debug, PartialEq)]
pub struct Token {
    pub kind: TokenKind,
    pub text: String,
    pub range: Span,
}

impl Token {
    /// Whether the grammar skips this token.
    pub fn is_trivia(&self) -> (r: bool)
        ensures
            r == self.kind.spec_is_trivia(),
    {
        self.kind.is_trivia()
    }
}

/// Whether each token starts no earlier than the tokens before it.
pub open spec fn starts_ascend(tokens: Seq<Token>) -> bool {
    forall|i: int, j: int|
        0 <= i <= j < tokens.len() ==> (#[trigger] tokens[i]).range.start <= (
        #[trigger] tokens[j]).range.start
}

/// The texts of the tokens, concatenated in order.
pub open spec fn text_of(tokens: Seq<Token>) -> Seq<char>
    decreases tokens.len(),
{
    if tokens.len() == 0 {
        Seq::empty()
    } else {
        text_of(tokens.drop_last()) + tokens.last().text@
    }
}

/// The text of tokens put one after the other is the text of the first
/// followed by the text of the second.
pub proof fn lemma_text_of_concat(a: Seq<Token>, b: Seq<Token>)
    ensures
        text_of(a + b) == text_of(a) + text_of(b),
    decreases b.len(),
{
    if b.len() == 0 {
        assert(a + b =~= a);
        assert(text_of(a) + Seq::<char>::empty() =~= text_of(a));
    } else {
        assert((a + b).drop_last() =~= a + b.drop_last());
        lemma_text_of_concat(a, b.drop_last());
        assert(text_of(a + b) =~= text_of(a) + text_of(b.drop_last()) + b.last().text@);
        assert(text_of(a) + text_of(b) =~= text_of(a) + text_of(b.drop_last()) + b.last().text@);
    }
}

/// The text of the first `k` tokens is the start of the text of all of them.
pub proof fn lemma_text_of_take(tokens: Seq<Token>, k: int)
    requires
        0 <= k <= tokens.len(),
    ensures
        text_of(tokens.take(k)).len() <= text_of(tokens).len(),
        text_of(tokens.take(k)) == text_of(tokens).take(text_of(tokens.take(k)).len() as int),
{
    lemma_text_of_concat(tokens.take(k), tokens.skip(k));
    assert(tokens.take(k) + tokens.skip(k) =~= tokens);
    let head = text_of(tokens.take(k));
    let tail = text_of(tokens.skip(k));
    assert((head + tail).take(head.len() as int) =~= head);
}

/// A prefix one token longer has the text of that token at its end.
pub proof fn lemma_text_of_step(tokens: Seq<Token>, k: int)
    requires
        0 <= k < tokens.len(),
    ensures
        text_of(tokens.take(k + 1)) == text_of(tokens.take(k)) + tokens[k].text@,
{
    assert(tokens.take(k + 1).drop_last() =~= tokens.take(k));
}

/// The text of a prefix of the tokens is no longer, in bytes, than the text
/// of all of them.
pub proof fn lemma_text_of_prefix(tokens: Seq<Token>, k: int)
    requires
        0 <= k <= tokens.len(),
    ensures
        byte_len(text_of(tokens.take(k))) <= byte_len(text_of(tokens)),
    decreases tokens.len() - k,
{
    if k < tokens.len() {
        lemma_text_of_prefix(tokens, k + 1);
        lemma_text_of_step(tokens, k);
        lemma_byte_len_concat(text_of(tokens.take(k)), tokens[k].text@);
    } else {
        assert(tokens.take(k) =~= tokens);
    }
}

} // verus!
