//! The tokenizer.

use crate::span::Span;
use crate::text::{byte_len, chars_of, lemma_byte_len_concat, lemma_byte_len_push, width_of};
use crate::token::{
    lemma_text_of_prefix, lemma_text_of_step, lemma_text_of_take, starts_ascend, text_of, Token,
    TokenKind,
};
use vstd::prelude::*;

verus! {

/// Whether a character beyond ASCII is alphabetic.
pub uninterp spec fn alphabetic(c: char) -> bool;

/// `char::is_alphabetic` of std: whether the character has the Unicode
/// property `Alphabetic`.
#[verifier::external_body]
fn is_alphabetic(c: char) -> (r: bool)
    ensures
        r == alphabetic(c),
{
    c.is_alphabetic()
}

/// The sets of characters that runs are made of.
#[derive(Clone, Copy, Debug, PartialEq, Eq, Structural)]
pub enum CharClass {
    /// A blank or a line feed.
    Space,
    /// What an identifier goes on with: a letter, a digit, `_` or `/`.
    IdentContinue,
    /// A digit or `_`.
    DigitOrUnderscore,
    /// Anything but a line feed.
    NotNewline,
}

/// A letter: an ASCII letter, or an alphabetic character beyond ASCII.
pub open spec fn is_letter(c: char) -> bool {
    ('a' <= c && c <= 'z') || ('A' <= c && c <= 'Z') || (c as u32 >= 0x80 && alphabetic(c))
}

/// A decimal digit.
pub open spec fn is_digit(c: char) -> bool {
    '0' <= c && c <= '9'
}

/// What an identifier starts with: a letter or `/`.
pub open spec fn is_ident_start(c: char) -> bool {
    c == '/' || is_letter(c)
}

/// Whether a character belongs to a class.
pub open spec fn in_class(c: char, class: CharClass) -> bool {
    match class {
        CharClass::Space => c == ' ' || c == '\n',
        CharClass::IdentContinue => c == '/' || c == '_' || is_digit(c) || is_letter(c),
        CharClass::DigitOrUnderscore => c == '_' || is_digit(c),
        CharClass::NotNewline => c != '\n',
    }
}

/// The end of the longest run of characters of a class that starts at
/// `from`; `from` itself where no such character stands there.
pub open spec fn run_end(s: Seq<char>, from: int, class: CharClass) -> int
    decreases s.len() - from,
{
    if 0 <= from < s.len() && in_class(s[from], class) {
        run_end(s, from + 1, class)
    } else {
        from
    }
}

/// Whether the character `c` stands at position `i`.
pub open spec fn at(s: Seq<char>, i: int, c: char) -> bool {
    0 <= i < s.len() && s[i] == c
}

/// The length of the comment at `p`: `//` and the rest of the line.
pub open spec fn comment_len(s: Seq<char>, p: int) -> int {
    if at(s, p, '/') && at(s, p + 1, '/') {
        run_end(s, p + 2, CharClass::NotNewline) - p
    } else {
        0
    }
}

/// The length of the identifier at `p`: a starting character and the run of
/// continuing characters after it.
pub open spec fn ident_len(s: Seq<char>, p: int) -> int {
    if 0 <= p < s.len() && is_ident_start(s[p]) {
        run_end(s, p + 1, CharClass::IdentContinue) - p
    } else {
        0
    }
}

/// The end of the digits of the number at `p`, before any exponent; `p`
/// where no number starts. The digits are a run of digits and `_`; or such a
/// run that starts with a digit, a `.`, and another run; or a `.` and a run.
pub open spec fn mantissa_end(s: Seq<char>, p: int) -> int {
    let whole = run_end(s, p, CharClass::DigitOrUnderscore);
    if at(s, p, '.') {
        let fraction = run_end(s, p + 1, CharClass::DigitOrUnderscore);
        if fraction > p + 1 {
            fraction
        } else {
            p
        }
    } else if whole > p {
        let fraction = run_end(s, whole + 1, CharClass::DigitOrUnderscore);
        if is_digit(s[p]) && at(s, whole, '.') && fraction > whole + 1 {
            fraction
        } else {
            whole
        }
    } else {
        p
    }
}

/// The end of the exponent that follows digits ending at `m`: `e` or `E`, a
/// sign or none, and a run of digits and `_`. It is `m` where no exponent
/// follows.
pub open spec fn exponent_end(s: Seq<char>, m: int) -> int {
    if at(s, m, 'e') || at(s, m, 'E') {
        let digits = if at(s, m + 1, '+') || at(s, m + 1, '-') {
            m + 2
        } else {
            m + 1
        };
        let end = run_end(s, digits, CharClass::DigitOrUnderscore);
        if end > digits {
            end
        } else {
            m
        }
    } else {
        m
    }
}

/// The length of the number at `p`.
pub open spec fn number_len(s: Seq<char>, p: int) -> int {
    let m = mantissa_end(s, p);
    if m > p {
        exponent_end(s, m) - p
    } else {
        0
    }
}

/// The length `len` if the text is matched, and zero if it is not.
pub open spec fn len_if(matched: bool, len: int) -> int {
    if matched {
        len
    } else {
        0
    }
}

/// The length of the longest text at `p` that a kind matches; zero where it
/// matches nothing. A keyword or a punctuation mark matches its own text; the
/// other kinds match runs of characters.
pub open spec fn match_len(s: Seq<char>, p: int, kind: TokenKind) -> int {
    match kind {
        TokenKind::Error => 0,
        TokenKind::Whitespace => run_end(s, p, CharClass::Space) - p,
        TokenKind::Comment => comment_len(s, p),
        TokenKind::Ident => ident_len(s, p),
        TokenKind::Number => number_len(s, p),
        TokenKind::FnKw => len_if(at(s, p, 'f') && at(s, p + 1, 'n'), 2),
        TokenKind::UseKw => len_if(at(s, p, 'u') && at(s, p + 1, 's') && at(s, p + 2, 'e'), 3),
        TokenKind::ExternKw => len_if(
            at(s, p, 'e')
                && at(s, p + 1, 'x')
                && at(s, p + 2, 't')
                && at(s, p + 3, 'e')
                && at(s, p + 4, 'r')
                && at(s, p + 5, 'n'),
            6,
        ),
        TokenKind::StructKw => len_if(
            at(s, p, 's')
                && at(s, p + 1, 't')
                && at(s, p + 2, 'r')
                && at(s, p + 3, 'u')
                && at(s, p + 4, 'c')
                && at(s, p + 5, 't'),
            6,
        ),
        TokenKind::TraitKw => len_if(
            at(s, p, 't')
                && at(s, p + 1, 'r')
                && at(s, p + 2, 'a')
                && at(s, p + 3, 'i')
                && at(s, p + 4, 't'),
            5,
        ),
        TokenKind::ConstKw => len_if(at(s, p, ':') && at(s, p + 1, ':'), 2),
        TokenKind::VariableKw => len_if(at(s, p, ':') && at(s, p + 1, '='), 2),
        TokenKind::TypeKw => len_if(
            at(s, p, 'T')
                && at(s, p + 1, 'y')
                && at(s, p + 2, 'p')
                && at(s, p + 3, 'e'),
            4,
        ),
        TokenKind::SelfVarKw => len_if(
            at(s, p, 's')
                && at(s, p + 1, 'e')
                && at(s, p + 2, 'l')
                && at(s, p + 3, 'f'),
            4,
        ),
        TokenKind::SelfTypeKw => len_if(
            at(s, p, 'S')
                && at(s, p + 1, 'e')
                && at(s, p + 2, 'l')
                && at(s, p + 3, 'f'),
            4,
        ),
        TokenKind::Bang => len_if(at(s, p, '!'), 1),
        TokenKind::Quest => len_if(at(s, p, '?'), 1),
        TokenKind::Plus => len_if(at(s, p, '+'), 1),
        TokenKind::Minus => len_if(at(s, p, '-'), 1),
        TokenKind::Star => len_if(at(s, p, '*'), 1),
        TokenKind::Slash => len_if(at(s, p, '/'), 1),
        TokenKind::Circumflex => len_if(at(s, p, '^'), 1),
        TokenKind::Circumflex2 => len_if(at(s, p, '^') && at(s, p + 1, '^'), 2),
        TokenKind::And => len_if(at(s, p, '&'), 1),
        TokenKind::And2 => len_if(at(s, p, '&') && at(s, p + 1, '&'), 2),
        TokenKind::Pipe => len_if(at(s, p, '|'), 1),
        TokenKind::Pipe2 => len_if(at(s, p, '|') && at(s, p + 1, '|'), 2),
        TokenKind::Equals => len_if(at(s, p, '='), 1),
        TokenKind::Equals2 => len_if(at(s, p, '=') && at(s, p + 1, '='), 2),
        TokenKind::Percent => len_if(at(s, p, '%'), 1),
        TokenKind::Dollar => len_if(at(s, p, '$'), 1),
        TokenKind::Hashtag => len_if(at(s, p, '#'), 1),
        TokenKind::At => len_if(at(s, p, '@'), 1),
        TokenKind::Underscore => len_if(at(s, p, '_'), 1),
        TokenKind::Dot => len_if(at(s, p, '.'), 1),
        TokenKind::Comma => len_if(at(s, p, ','), 1),
        TokenKind::Colon => len_if(at(s, p, ':'), 1),
        TokenKind::Semicolon => len_if(at(s, p, ';'), 1),
        TokenKind::Quote => len_if(at(s, p, '"'), 1),
        TokenKind::SingleQuote => len_if(at(s, p, '\''), 1),
        TokenKind::Grave => len_if(at(s, p, '`'), 1),
        TokenKind::Arrow => len_if(at(s, p, '-') && at(s, p + 1, '>'), 2),
        TokenKind::LCurlyBracket => len_if(at(s, p, '{'), 1),
        TokenKind::RCurlyBracket => len_if(at(s, p, '}'), 1),
        TokenKind::LRoundBracket => len_if(at(s, p, '('), 1),
        TokenKind::RRoundBracket => len_if(at(s, p, ')'), 1),
        TokenKind::LAngledBracket => len_if(at(s, p, '<'), 1),
        TokenKind::RAngledBracket => len_if(at(s, p, '>'), 1),
        TokenKind::LSquareBracket => len_if(at(s, p, '['), 1),
        TokenKind::RSquareBracket => len_if(at(s, p, ']'), 1),
    }
}

/// The rank of a kind among kinds that match texts of the same length: a
/// keyword or a mark goes before a comment, and a comment before the rest.
pub open spec fn rank(kind: TokenKind) -> int {
    match kind {
        TokenKind::Error => 0,
        TokenKind::Ident | TokenKind::Number | TokenKind::Whitespace => 1,
        TokenKind::Comment => 2,
        _ => 3,
    }
}

/// Whether the token at `p` is of the given kind and length. The token is
/// the longest match of any kind, and among kinds that match that length the
/// one of the highest rank; where no kind matches, it is the one character
/// at `p`, as an `Error` token.
#[verifier::opaque]
pub open spec fn is_token_at(s: Seq<char>, p: int, kind: TokenKind, len: int) -> bool {
    if kind == TokenKind::Error {
        len == 1 && forall|k: TokenKind| #[trigger] match_len(s, p, k) <= 0
    } else {
        &&& len >= 1
        &&& match_len(s, p, kind) == len
        &&& forall|k: TokenKind| #[trigger] match_len(s, p, k) <= len
        &&& forall|k: TokenKind| #[trigger] match_len(s, p, k) == len ==> rank(k) <= rank(kind)
    }
}


/// At most one token stands at a place: the kind and the length of the token
/// at `p` are determined by the text.
pub proof fn lemma_token_unique(
    s: Seq<char>,
    p: int,
    kind: TokenKind,
    len: int,
    other_kind: TokenKind,
    other_len: int,
)
    requires
        is_token_at(s, p, kind, len),
        is_token_at(s, p, other_kind, other_len),
    ensures
        kind == other_kind,
        len == other_len,
{
    reveal(is_token_at);
    if kind != TokenKind::Error && other_kind != TokenKind::Error {
        assert(match_len(s, p, kind) <= other_len);
        assert(match_len(s, p, other_kind) <= len);
        assert(rank(kind) == rank(other_kind));
    } else if kind == TokenKind::Error && other_kind != TokenKind::Error {
        assert(match_len(s, p, other_kind) <= 0);
    } else if kind != TokenKind::Error && other_kind == TokenKind::Error {
        assert(match_len(s, p, kind) <= 0);
    }
}

/// A run of characters of a class reaches at least as far as the characters
/// of the class go on without a break.
pub proof fn lemma_run_reaches(s: Seq<char>, from: int, class: CharClass, to: int)
    requires
        0 <= from <= to <= s.len(),
        forall|i: int| from <= i < to ==> in_class(#[trigger] s[i], class),
    ensures
        run_end(s, from, class) >= to,
        run_end(s, from, class) == run_end(s, to, class),
    decreases to - from,
{
    if from < to {
        lemma_run_reaches(s, from + 1, class, to);
    } else {
        lemma_run_end(s, from, class);
    }
}

/// A run ends within the text, on a character that is not of the class or
/// at the end of the text, and holds characters of the class only.
pub proof fn lemma_run_end(s: Seq<char>, from: int, class: CharClass)
    requires
        0 <= from <= s.len(),
    ensures
        from <= run_end(s, from, class) <= s.len(),
        run_end(s, from, class) < s.len() ==> !in_class(s[run_end(s, from, class)], class),
        forall|i: int| from <= i < run_end(s, from, class) ==> in_class(#[trigger] s[i], class),
    decreases s.len() - from,
{
    if from < s.len() && in_class(s[from], class) {
        lemma_run_end(s, from + 1, class);
    }
}

/// A run of identifier characters holds no line feed, so it ends no later
/// than the line does.
proof fn lemma_ident_run_within_line(s: Seq<char>, from: int)
    requires
        0 <= from <= s.len(),
    ensures
        run_end(s, from, CharClass::IdentContinue) <= run_end(s, from, CharClass::NotNewline),
    decreases s.len() - from,
{
    if from < s.len() && in_class(s[from], CharClass::IdentContinue) {
        lemma_ident_run_within_line(s, from + 1);
    } else {
        lemma_run_end(s, from, CharClass::NotNewline);
    }
}

/// A keyword that stands at `p` is no longer than the identifier there.
proof fn lemma_keywords_within_ident(s: Seq<char>, p: int)
    requires
        0 <= p < s.len(),
    ensures
        match_len(s, p, TokenKind::FnKw) <= ident_len(s, p),
        match_len(s, p, TokenKind::UseKw) <= ident_len(s, p),
        match_len(s, p, TokenKind::ExternKw) <= ident_len(s, p),
        match_len(s, p, TokenKind::StructKw) <= ident_len(s, p),
        match_len(s, p, TokenKind::TraitKw) <= ident_len(s, p),
        match_len(s, p, TokenKind::TypeKw) <= ident_len(s, p),
        match_len(s, p, TokenKind::SelfVarKw) <= ident_len(s, p),
        match_len(s, p, TokenKind::SelfTypeKw) <= ident_len(s, p),
{
    let class = CharClass::IdentContinue;
    lemma_run_end(s, p + 1, class);
    if match_len(s, p, TokenKind::FnKw) > 0 {
        assert(is_ident_start(s[p]));
        assert(in_class(s[p + 1], class));
        lemma_run_reaches(s, p + 1, class, p + 2);
    }
    if match_len(s, p, TokenKind::UseKw) > 0 {
        assert(is_ident_start(s[p]));
        assert(in_class(s[p + 1], class));
        assert(in_class(s[p + 2], class));
        lemma_run_reaches(s, p + 1, class, p + 3);
    }
    if match_len(s, p, TokenKind::ExternKw) > 0 {
        assert(is_ident_start(s[p]));
        assert(in_class(s[p + 1], class));
        assert(in_class(s[p + 2], class));
        assert(in_class(s[p + 3], class));
        assert(in_class(s[p + 4], class));
        assert(in_class(s[p + 5], class));
        lemma_run_reaches(s, p + 1, class, p + 6);
    }
    if match_len(s, p, TokenKind::StructKw) > 0 {
        assert(is_ident_start(s[p]));
        assert(in_class(s[p + 1], class));
        assert(in_class(s[p + 2], class));
        assert(in_class(s[p + 3], class));
        assert(in_class(s[p + 4], class));
        assert(in_class(s[p + 5], class));
        lemma_run_reaches(s, p + 1, class, p + 6);
    }
    if match_len(s, p, TokenKind::TraitKw) > 0 {
        assert(is_ident_start(s[p]));
        assert(in_class(s[p + 1], class));
        assert(in_class(s[p + 2], class));
        assert(in_class(s[p + 3], class));
        assert(in_class(s[p + 4], class));
        lemma_run_reaches(s, p + 1, class, p + 5);
    }
    if match_len(s, p, TokenKind::TypeKw) > 0 {
        assert(is_ident_start(s[p]));
        assert(in_class(s[p + 1], class));
        assert(in_class(s[p + 2], class));
        assert(in_class(s[p + 3], class));
        lemma_run_reaches(s, p + 1, class, p + 4);
    }
    if match_len(s, p, TokenKind::SelfVarKw) > 0 {
        assert(is_ident_start(s[p]));
        assert(in_class(s[p + 1], class));
        assert(in_class(s[p + 2], class));
        assert(in_class(s[p + 3], class));
        lemma_run_reaches(s, p + 1, class, p + 4);
    }
    if match_len(s, p, TokenKind::SelfTypeKw) > 0 {
        assert(is_ident_start(s[p]));
        assert(in_class(s[p + 1], class));
        assert(in_class(s[p + 2], class));
        assert(in_class(s[p + 3], class));
        lemma_run_reaches(s, p + 1, class, p + 4);
    }
}

/// Whether a character is a letter.
fn letter(c: char) -> (r: bool)
    ensures
        r == is_letter(c),
{
    if (c as u32) < 0x80 {
        (c >= 'a' && c <= 'z') || (c >= 'A' && c <= 'Z')
    } else {
        is_alphabetic(c)
    }
}

/// Whether a character belongs to a class.
fn char_in_class(c: char, class: CharClass) -> (r: bool)
    ensures
        r == in_class(c, class),
{
    match class {
        CharClass::Space => c == ' ' || c == '\n',
        CharClass::IdentContinue => c == '/' || c == '_' || (c >= '0' && c <= '9') || letter(c),
        CharClass::DigitOrUnderscore => c == '_' || (c >= '0' && c <= '9'),
        CharClass::NotNewline => c != '\n',
    }
}

/// The end of the run of characters of a class that starts at `from`.
fn scan(chars: &Vec<char>, from: usize, class: CharClass) -> (end: usize)
    requires
        from <= chars@.len(),
    ensures
        end == run_end(chars@, from as int, class),
        from <= end <= chars@.len(),
{
    let n = chars.len();
    let mut end: usize = from;
    while end < n && char_in_class(chars[end], class)
        invariant
            n == chars@.len(),
            from <= end <= n,
            run_end(chars@, end as int, class) == run_end(chars@, from as int, class),
        decreases n - end,
    {
        end += 1;
    }
    end
}

/// The end of the number at `from`; `from` where no number starts.
fn scan_number(chars: &Vec<char>, from: usize) -> (end: usize)
    requires
        from < chars@.len(),
    ensures
        end - from == number_len(chars@, from as int),
        from <= end <= chars@.len(),
{
    let n = chars.len();
    let class = CharClass::DigitOrUnderscore;
    let whole = scan(chars, from, class);
    let first = chars[from];
    let mantissa = if first == '.' {
        let fraction = scan(chars, from + 1, class);
        if fraction > from + 1 {
            fraction
        } else {
            from
        }
    } else if whole > from {
        if first >= '0' && first <= '9' && whole < n && chars[whole] == '.' {
            let fraction = scan(chars, whole + 1, class);
            if fraction > whole + 1 {
                fraction
            } else {
                whole
            }
        } else {
            whole
        }
    } else {
        from
    };
    if mantissa == from {
        return from;
    }
    if mantissa < n && (chars[mantissa] == 'e' || chars[mantissa] == 'E') {
        let digits = if mantissa + 1 < n && (chars[mantissa + 1] == '+' || chars[mantissa + 1]
            == '-') {
            mantissa + 2
        } else {
            mantissa + 1
        };
        let end = scan(chars, digits, class);
        if end > digits {
            end
        } else {
            mantissa
        }
    } else {
        mantissa
    }
}

/// The kind of a word: the keyword it spells, or an identifier.
fn word_kind(chars: &Vec<char>, from: usize, end: usize) -> (kind: TokenKind)
    requires
        from < end <= chars@.len(),
    ensures
        kind == spec_word_kind(chars@, from as int, end - from),
{
    let len = end - from;
    if len == 2 && chars[from] == 'f' && chars[from + 1] == 'n' {
        TokenKind::FnKw
    }     else if len == 3 && chars[from] == 'u' && chars[from + 1] == 's' && chars[from + 2] == 'e' {
        TokenKind::UseKw
    }     else if len == 6 && chars[from] == 'e' && chars[from + 1] == 'x' && chars[from + 2] == 't' && chars[from + 3] == 'e' && chars[from + 4] == 'r' && chars[from + 5] == 'n' {
        TokenKind::ExternKw
    }     else if len == 6 && chars[from] == 's' && chars[from + 1] == 't' && chars[from + 2] == 'r' && chars[from + 3] == 'u' && chars[from + 4] == 'c' && chars[from + 5] == 't' {
        TokenKind::StructKw
    }     else if len == 5 && chars[from] == 't' && chars[from + 1] == 'r' && chars[from + 2] == 'a' && chars[from + 3] == 'i' && chars[from + 4] == 't' {
        TokenKind::TraitKw
    }     else if len == 4 && chars[from] == 'T' && chars[from + 1] == 'y' && chars[from + 2] == 'p' && chars[from + 3] == 'e' {
        TokenKind::TypeKw
    }     else if len == 4 && chars[from] == 's' && chars[from + 1] == 'e' && chars[from + 2] == 'l' && chars[from + 3] == 'f' {
        TokenKind::SelfVarKw
    }     else if len == 4 && chars[from] == 'S' && chars[from + 1] == 'e' && chars[from + 2] == 'l' && chars[from + 3] == 'f' {
        TokenKind::SelfTypeKw
    } else {
        TokenKind::Ident
    }
}

/// The kind of a word of the given length at `p`: the keyword it spells, or
/// an identifier.
pub open spec fn spec_word_kind(s: Seq<char>, p: int, len: int) -> TokenKind {
    if len == 2 && at(s, p, 'f') && at(s, p + 1, 'n') {
        TokenKind::FnKw
    }     else if len == 3 && at(s, p, 'u') && at(s, p + 1, 's') && at(s, p + 2, 'e') {
        TokenKind::UseKw
    }     else if len == 6 && at(s, p, 'e') && at(s, p + 1, 'x') && at(s, p + 2, 't') && at(s, p + 3, 'e') && at(s, p + 4, 'r') && at(s, p + 5, 'n') {
        TokenKind::ExternKw
    }     else if len == 6 && at(s, p, 's') && at(s, p + 1, 't') && at(s, p + 2, 'r') && at(s, p + 3, 'u') && at(s, p + 4, 'c') && at(s, p + 5, 't') {
        TokenKind::StructKw
    }     else if len == 5 && at(s, p, 't') && at(s, p + 1, 'r') && at(s, p + 2, 'a') && at(s, p + 3, 'i') && at(s, p + 4, 't') {
        TokenKind::TraitKw
    }     else if len == 4 && at(s, p, 'T') && at(s, p + 1, 'y') && at(s, p + 2, 'p') && at(s, p + 3, 'e') {
        TokenKind::TypeKw
    }     else if len == 4 && at(s, p, 's') && at(s, p + 1, 'e') && at(s, p + 2, 'l') && at(s, p + 3, 'f') {
        TokenKind::SelfVarKw
    }     else if len == 4 && at(s, p, 'S') && at(s, p + 1, 'e') && at(s, p + 2, 'l') && at(s, p + 3, 'f') {
        TokenKind::SelfTypeKw
    } else {
        TokenKind::Ident
    }
}

/// The punctuation mark at `from`: its kind and its end. A character that
/// starts no mark is an `Error` token of its own.
fn punctuation(chars: &Vec<char>, from: usize) -> (r: (TokenKind, usize))
    requires
        from < chars@.len(),
        !in_class(chars@[from as int], CharClass::Space),
        !is_ident_start(chars@[from as int]),
        !in_class(chars@[from as int], CharClass::DigitOrUnderscore),
        chars@[from as int] != '.',
    ensures
        from < r.1 <= chars@.len(),
        is_token_at(chars@, from as int, r.0, r.1 - from),
{
    reveal(is_token_at);
    let n = chars.len();
    let c = chars[from];
    let next: Option<char> = if from + 1 < n {
        Some(chars[from + 1])
    } else {
        None
    };
    match c {
        '!' => {
            (TokenKind::Bang, from + 1)
        },
        '?' => {
            (TokenKind::Quest, from + 1)
        },
        '+' => {
            (TokenKind::Plus, from + 1)
        },
        '-' => {
            if next == Some('>') {
                (TokenKind::Arrow, from + 2)
            } else {
                (TokenKind::Minus, from + 1)
            }
        },
        '*' => {
            (TokenKind::Star, from + 1)
        },
        '^' => {
            if next == Some('^') {
                (TokenKind::Circumflex2, from + 2)
            } else {
                (TokenKind::Circumflex, from + 1)
            }
        },
        '&' => {
            if next == Some('&') {
                (TokenKind::And2, from + 2)
            } else {
                (TokenKind::And, from + 1)
            }
        },
        '|' => {
            if next == Some('|') {
                (TokenKind::Pipe2, from + 2)
            } else {
                (TokenKind::Pipe, from + 1)
            }
        },
        '=' => {
            if next == Some('=') {
                (TokenKind::Equals2, from + 2)
            } else {
                (TokenKind::Equals, from + 1)
            }
        },
        '%' => {
            (TokenKind::Percent, from + 1)
        },
        '$' => {
            (TokenKind::Dollar, from + 1)
        },
        '#' => {
            (TokenKind::Hashtag, from + 1)
        },
        '@' => {
            (TokenKind::At, from + 1)
        },
        ',' => {
            (TokenKind::Comma, from + 1)
        },
        ':' => {
            if next == Some(':') {
                (TokenKind::ConstKw, from + 2)
            }             else if next == Some('=') {
                (TokenKind::VariableKw, from + 2)
            } else {
                (TokenKind::Colon, from + 1)
            }
        },
        ';' => {
            (TokenKind::Semicolon, from + 1)
        },
        '"' => {
            (TokenKind::Quote, from + 1)
        },
        '\'' => {
            (TokenKind::SingleQuote, from + 1)
        },
        '`' => {
            (TokenKind::Grave, from + 1)
        },
        '{' => {
            (TokenKind::LCurlyBracket, from + 1)
        },
        '}' => {
            (TokenKind::RCurlyBracket, from + 1)
        },
        '(' => {
            (TokenKind::LRoundBracket, from + 1)
        },
        ')' => {
            (TokenKind::RRoundBracket, from + 1)
        },
        '<' => {
            (TokenKind::LAngledBracket, from + 1)
        },
        '>' => {
            (TokenKind::RAngledBracket, from + 1)
        },
        '[' => {
            (TokenKind::LSquareBracket, from + 1)
        },
        ']' => {
            (TokenKind::RSquareBracket, from + 1)
        },
        _ => (TokenKind::Error, from + 1),
    }
}

/// The run of blanks and line feeds at `from`.
fn scan_space(chars: &Vec<char>, from: usize) -> (r: (TokenKind, usize))
    requires
        from < chars@.len(),
        in_class(chars@[from as int], CharClass::Space),
    ensures
        from < r.1 <= chars@.len(),
        is_token_at(chars@, from as int, r.0, r.1 - from),
{
    reveal(is_token_at);
    let n = chars.len();
    let end = scan(chars, from + 1, CharClass::Space);
    proof {
        lemma_run_end(chars@, from as int, CharClass::DigitOrUnderscore);
    }
    (TokenKind::Whitespace, end)
}

/// What starts with `/`: a comment, an identifier, or the mark alone.
fn scan_slash(chars: &Vec<char>, from: usize) -> (r: (TokenKind, usize))
    requires
        from < chars@.len(),
        chars@[from as int] == '/',
    ensures
        from < r.1 <= chars@.len(),
        is_token_at(chars@, from as int, r.0, r.1 - from),
{
    reveal(is_token_at);
    let n = chars.len();
    let ghost s = chars@;
    let ghost p = from as int;
    proof {
        lemma_run_end(s, p, CharClass::DigitOrUnderscore);
        lemma_run_end(s, p, CharClass::Space);
        lemma_run_end(s, p + 1, CharClass::IdentContinue);
    }
    if from + 1 < n && chars[from + 1] == '/' {
        let end = scan(chars, from + 2, CharClass::NotNewline);
        proof {
            lemma_ident_run_within_line(s, p + 1);
            lemma_run_end(s, p + 2, CharClass::NotNewline);
        }
        (TokenKind::Comment, end)
    } else {
        let end = scan(chars, from + 1, CharClass::IdentContinue);
        if end == from + 1 {
            (TokenKind::Slash, end)
        } else {
            (TokenKind::Ident, end)
        }
    }
}

/// The word at `from`: a keyword or an identifier.
fn scan_word(chars: &Vec<char>, from: usize) -> (r: (TokenKind, usize))
    requires
        from < chars@.len(),
        is_letter(chars@[from as int]),
    ensures
        from < r.1 <= chars@.len(),
        is_token_at(chars@, from as int, r.0, r.1 - from),
{
    reveal(is_token_at);
    let n = chars.len();
    let ghost s = chars@;
    let ghost p = from as int;
    let end = scan(chars, from + 1, CharClass::IdentContinue);
    proof {
        lemma_keywords_within_ident(s, p);
        lemma_run_end(s, p, CharClass::DigitOrUnderscore);
        lemma_run_end(s, p, CharClass::Space);
    }
    (word_kind(chars, from, end), end)
}

/// What starts with a digit, `_` or `.`: a number, or one of the two marks.
fn scan_numeric(chars: &Vec<char>, from: usize) -> (r: (TokenKind, usize))
    requires
        from < chars@.len(),
        in_class(chars@[from as int], CharClass::DigitOrUnderscore) || chars@[from as int] == '.',
    ensures
        from < r.1 <= chars@.len(),
        is_token_at(chars@, from as int, r.0, r.1 - from),
{
    reveal(is_token_at);
    let n = chars.len();
    let ghost s = chars@;
    let ghost p = from as int;
    let c = chars[from];
    let end = scan_number(chars, from);
    proof {
        lemma_run_end(s, p, CharClass::DigitOrUnderscore);
        lemma_run_end(s, p, CharClass::Space);
    }
    if end == from {
        (TokenKind::Dot, from + 1)
    } else if end == from + 1 && c == '_' {
        (TokenKind::Underscore, end)
    } else {
        (TokenKind::Number, end)
    }
}

/// The kind and the end of the token that starts at `from`.
fn scan_token(chars: &Vec<char>, from: usize) -> (r: (TokenKind, usize))
    requires
        from < chars@.len(),
    ensures
        from < r.1 <= chars@.len(),
        is_token_at(chars@, from as int, r.0, r.1 - from),
{
    let c = chars[from];
    if c == ' ' || c == '\n' {
        scan_space(chars, from)
    } else if c == '/' {
        scan_slash(chars, from)
    } else if letter(c) {
        scan_word(chars, from)
    } else if (c >= '0' && c <= '9') || c == '_' || c == '.' {
        scan_numeric(chars, from)
    } else {
        punctuation(chars, from)
    }
}

/// The tokenizer: the characters of the input and the position up to which
/// they have been made into tokens.
pub struct Lexer {
    chars: Vec<char>,
    pos: usize,
    offset: u32,
}

impl Lexer {
    /// The characters of the input.
    pub closed spec fn input(&self) -> Seq<char> {
        self.chars@
    }

    /// The number of characters that have been made into tokens.
    pub closed spec fn pos(&self) -> int {
        self.pos as int
    }

    /// The position lies within the input, whose text fits the `u32` byte
    /// offsets of a range, and the byte offset of the position is known.
    pub closed spec fn wf(&self) -> bool {
        &&& self.pos <= self.chars@.len()
        &&& self.offset == byte_len(self.chars@.take(self.pos as int))
        &&& byte_len(self.chars@) <= u32::MAX
    }

    /// A tokenizer at the start of the input.
    pub fn new(input: &str) -> (lexer: Self)
        requires
            byte_len(input@) <= u32::MAX,
        ensures
            lexer.wf(),
            lexer.input() == input@,
            lexer.pos() == 0,
    {
        let chars = chars_of(input);
        proof {
            assert(chars@.take(0) =~= Seq::<char>::empty());
            lemma_byte_len_push(Seq::<char>::empty(), 'a');
        }
        Self { chars, pos: 0, offset: 0 }
    }

    /// A tokenizer at the start of the input; `None` for an input whose
    /// text is too long for the `u32` byte offsets of a range.
    pub fn try_new(input: &str) -> (lexer: Option<Self>)
        ensures
            match lexer {
                Some(l) => byte_len(input@) <= u32::MAX && l.wf() && l.input() == input@ && l.pos()
                    == 0,
                None => byte_len(input@) > u32::MAX,
            },
    {
        let chars = chars_of(input);
        let n = chars.len();
        let mut bytes: u64 = 0;
        let mut i: usize = 0;
        proof {
            assert(chars@.take(0) =~= Seq::<char>::empty());
            lemma_byte_len_push(Seq::<char>::empty(), 'a');
        }
        while i < n
            invariant
                n == chars@.len(),
                chars@ == input@,
                i <= n,
                bytes == byte_len(chars@.take(i as int)),
                bytes <= u32::MAX,
            decreases n - i,
        {
            let c = chars[i];
            proof {
                let s = chars@;
                assert(s.take(i + 1) =~= s.take(i as int).push(c));
                lemma_byte_len_push(s.take(i as int), c);
                assert(s =~= s.take(i + 1) + s.skip(i + 1));
                lemma_byte_len_concat(s.take(i + 1), s.skip(i + 1));
            }
            bytes = bytes + width_of(c) as u64;
            if bytes > 0xffff_ffff {
                return None;
            }
            i += 1;
        }
        proof {
            assert(chars@.take(n as int) =~= chars@);
        }
        Some(Self { chars, pos: 0, offset: 0 })
    }

    /// The next token, `None` at the end of the input. A token is never
    /// empty, so the position moves forward with each token.
    pub fn next(&mut self) -> (token: Option<Token>)
        requires
            old(self).wf(),
        ensures
            final(self).wf(),
            final(self).input() == old(self).input(),
            match token {
                None => old(self).pos() == old(self).input().len() && final(self).pos() == old(
                    self,
                ).pos(),
                Some(t) => {
                    &&& old(self).pos() < final(self).pos() <= old(self).input().len()
                    &&& is_token_at(
                        old(self).input(),
                        old(self).pos(),
                        t.kind,
                        final(self).pos() - old(self).pos(),
                    )
                    &&& t.text@ == old(self).input().subrange(old(self).pos(), final(self).pos())
                    &&& t.range == (Span {
                        start: byte_len(old(self).input().take(old(self).pos())) as u32,
                        end: byte_len(old(self).input().take(final(self).pos())) as u32,
                    })
                },
            },
    {
        if self.pos >= self.chars.len() {
            return None;
        }
        let (kind, end) = scan_token(&self.chars, self.pos);
        let start = self.offset;
        let mut text = String::new();
        let mut bytes: u32 = 0;
        let mut i: usize = self.pos;
        proof {
            let s = self.chars@;
            assert(s.subrange(self.pos as int, self.pos as int) =~= Seq::<char>::empty());
            lemma_byte_len_push(Seq::<char>::empty(), 'a');
            assert(s =~= s.take(self.pos as int) + s.skip(self.pos as int));
            lemma_byte_len_concat(s.take(self.pos as int), s.skip(self.pos as int));
        }
        while i < end
            invariant
                self.pos <= i <= end <= self.chars@.len(),
                start + bytes <= u32::MAX,
                text@ == self.chars@.subrange(self.pos as int, i as int),
                start + bytes == byte_len(self.chars@.take(i as int)),
                start == byte_len(self.chars@.take(self.pos as int)),
                byte_len(self.chars@) <= u32::MAX,
            decreases end - i,
        {
            let c = self.chars[i];
            proof {
                let s = self.chars@;
                assert(s.take(i + 1) =~= s.take(i as int).push(c));
                lemma_byte_len_push(s.take(i as int), c);
                assert(s =~= s.take(i + 1) + s.skip(i + 1));
                lemma_byte_len_concat(s.take(i + 1), s.skip(i + 1));
                assert(s.subrange(self.pos as int, i + 1) =~= s.subrange(
                    self.pos as int,
                    i as int,
                ).push(c));
            }
            text.push(c);
            bytes = bytes + width_of(c);
            i += 1;
        }
        self.pos = end;
        self.offset = start + bytes;
        Some(Token { kind, text, range: Span::new(start, start + bytes) })
    }
}

/// Whether the token at index `i` is the token of the text `s` that stands
/// where the tokens before it end, and ranges over the bytes that its text
/// takes in the UTF-8 encoding of `s`.
pub open spec fn is_token_of(s: Seq<char>, tokens: Seq<Token>, i: int) -> bool {
    &&& tokens[i].text@.len() >= 1
    &&& is_token_at(
        s,
        text_of(tokens.take(i)).len() as int,
        tokens[i].kind,
        tokens[i].text@.len() as int,
    )
    &&& tokens[i].range == (Span {
        start: byte_len(text_of(tokens.take(i))) as u32,
        end: byte_len(text_of(tokens.take(i + 1))) as u32,
    })
}

/// Whether the tokens are the tokens of the text: their texts, laid end to
/// end, are the text, and each is the token that stands where the ones before
/// it end.
pub open spec fn is_lexed(s: Seq<char>, tokens: Seq<Token>) -> bool {
    &&& text_of(tokens) == s
    &&& forall|i: int| 0 <= i < tokens.len() ==> #[trigger] is_token_of(s, tokens, i)
}

/// Two ways of splitting a text into its tokens agree on the first `k`
/// tokens.
proof fn lemma_lexing_agrees(s: Seq<char>, a: Seq<Token>, b: Seq<Token>, k: int)
    requires
        is_lexed(s, a),
        is_lexed(s, b),
        0 <= k <= a.len(),
        k <= b.len(),
    ensures
        text_of(a.take(k)) == text_of(b.take(k)),
        forall|i: int|
            0 <= i < k ==> (#[trigger] a[i]).kind == b[i].kind && a[i].text@ == b[i].text@
                && a[i].range == b[i].range,
    decreases k,
{
    if k == 0 {
        assert(a.take(0) =~= Seq::<Token>::empty());
        assert(b.take(0) =~= Seq::<Token>::empty());
    } else {
        let i = k - 1;
        lemma_lexing_agrees(s, a, b, i);
        assert(is_token_of(s, a, i));
        assert(is_token_of(s, b, i));
        let from = text_of(a.take(i)).len() as int;
        lemma_token_unique(s, from, a[i].kind, a[i].text@.len() as int, b[i].kind, b[i].text@.len() as int);
        lemma_text_of_step(a, i);
        lemma_text_of_step(b, i);
        lemma_text_of_take(a, k);
        lemma_text_of_take(b, k);
        let to = from + a[i].text@.len();
        assert(text_of(a.take(k)) =~= s.take(to));
        assert(text_of(b.take(k)) =~= s.take(to));
        assert(a[i].text@ =~= s.subrange(from, to)) by {
            assert(s.take(to).subrange(from, to) =~= s.subrange(from, to));
            assert((text_of(a.take(i)) + a[i].text@).subrange(from, to) =~= a[i].text@);
        }
        assert(b[i].text@ =~= s.subrange(from, to)) by {
            assert(s.take(to).subrange(from, to) =~= s.subrange(from, to));
            assert((text_of(b.take(i)) + b[i].text@).subrange(from, to) =~= b[i].text@);
        }
    }
}

/// The tokens of a text are determined by the text: two ways of splitting it
/// into its tokens give the same number of tokens, of the same kinds, texts
/// and ranges.
pub proof fn lemma_lexing_unique(s: Seq<char>, a: Seq<Token>, b: Seq<Token>)
    requires
        is_lexed(s, a),
        is_lexed(s, b),
    ensures
        a.len() == b.len(),
        forall|i: int|
            0 <= i < a.len() ==> (#[trigger] a[i]).kind == b[i].kind && a[i].text@ == b[i].text@
                && a[i].range == b[i].range,
{
    let k = if a.len() <= b.len() {
        a.len() as int
    } else {
        b.len() as int
    };
    lemma_lexing_agrees(s, a, b, k);
    assert(a.take(a.len() as int) =~= a);
    assert(b.take(b.len() as int) =~= b);
    if a.len() < b.len() {
        assert(is_token_of(s, b, k));
        lemma_text_of_step(b, k);
        lemma_text_of_take(b, k + 1);
    } else if b.len() < a.len() {
        assert(is_token_of(s, a, k));
        lemma_text_of_step(a, k);
        lemma_text_of_take(a, k + 1);
    }
}

/// The tokens of a text start one after the other: each no earlier than
/// the ones before it.
pub proof fn lemma_lexed_ascend(s: Seq<char>, tokens: Seq<Token>)
    requires
        is_lexed(s, tokens),
        byte_len(s) <= u32::MAX,
    ensures
        starts_ascend(tokens),
{
    assert forall|i: int, j: int| 0 <= i <= j < tokens.len() implies (
    #[trigger] tokens[i]).range.start <= (#[trigger] tokens[j]).range.start by {
        assert(is_token_of(s, tokens, i));
        assert(is_token_of(s, tokens, j));
        lemma_text_of_prefix(tokens, j);
        lemma_text_of_prefix(tokens.take(j), i);
        assert(tokens.take(j).take(i) =~= tokens.take(i));
    }
}

/// A token stays what it is when another is put after the tokens.
proof fn lemma_token_of_push(s: Seq<char>, tokens: Seq<Token>, token: Token, i: int)
    requires
        0 <= i < tokens.len(),
        is_token_of(s, tokens, i),
    ensures
        is_token_of(s, tokens.push(token), i),
{
    let after = tokens.push(token);
    assert(after.take(i) =~= tokens.take(i));
    assert(after.take(i + 1) =~= tokens.take(i + 1));
}

/// The tokens of the input of a tokenizer that stands at its start.
fn scan_all(lexer: Lexer) -> (tokens: Vec<Token>)
    requires
        lexer.wf(),
        lexer.pos() == 0,
    ensures
        is_lexed(lexer.input(), tokens@),
{
    let mut lexer = lexer;
    let mut tokens: Vec<Token> = Vec::new();
    let ghost s = lexer.input();
    proof {
        assert(s.take(0) =~= Seq::<char>::empty());
    }
    loop
        invariant
            lexer.wf(),
            lexer.input() == s,
            0 <= lexer.pos() <= s.len(),
            text_of(tokens@) == s.take(lexer.pos()),
            forall|i: int| 0 <= i < tokens@.len() ==> #[trigger] is_token_of(s, tokens@, i),
        ensures
            is_lexed(s, tokens@),
        decreases s.len() - lexer.pos(),
    {
        let ghost before = tokens@;
        let ghost from = lexer.pos();
        match lexer.next() {
            None => {
                proof {
                    assert(s.take(s.len() as int) =~= s);
                }
                break ;
            },
            Some(token) => {
                proof {
                    let after = before.push(token);
                    let to = lexer.pos();
                    assert(after.drop_last() =~= before);
                    assert(s.take(from) + s.subrange(from, to) =~= s.take(to));
                    assert(after.take(before.len() as int) =~= before);
                    assert(after.take(after.len() as int) =~= after);
                    assert(s.take(from).len() == from);
                    assert(s.subrange(from, to).len() == to - from);
                    assert(is_token_of(s, after, before.len() as int));
                    assert forall|i: int| 0 <= i < after.len() implies #[trigger] is_token_of(
                        s,
                        after,
                        i,
                    ) by {
                        if i < before.len() {
                            lemma_token_of_push(s, before, token, i);
                        }
                    }
                }
                tokens.push(token);
            },
        }
    }
    tokens
}

/// Splits a text into its tokens.
pub fn tokenize(input: &str) -> (tokens: Vec<Token>)
    requires
        byte_len(input@) <= u32::MAX,
    ensures
        is_lexed(input@, tokens@),
{
    scan_all(Lexer::new(input))
}

/// Splits a text into its tokens; `None` for a text that is too long for the
/// `u32` byte offsets of a range.
pub fn try_tokenize(input: &str) -> (tokens: Option<Vec<Token>>)
    ensures
        match tokens {
            Some(t) => byte_len(input@) <= u32::MAX && is_lexed(input@, t@),
            None => byte_len(input@) > u32::MAX,
        },
{
    match Lexer::try_new(input) {
        Some(lexer) => Some(scan_all(lexer)),
        None => None,
    }
}

} // verus!
