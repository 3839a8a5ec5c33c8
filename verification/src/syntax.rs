//! Kinds of tree nodes and tree tokens.

use crate::token::TokenKind;
use vstd::prelude::*;
use vstd::std_specs::convert::FromSpecImpl;

verus! {

/// The kind tag of a node or token of the syntax tree.
#[derive(Clone, Copy, Debug, PartialEq, Eq, PartialOrd, Ord, Hash, Structural)]
pub enum SyntaxKind {
    Root,
    Error,
    Comment,
    Whitespace,
    InfixExpr,
    PrefixExpr,
    RoundBracketExpr,
    BlockExpr,
    ConstDef,
    VariableDef,
    VariableRef,
    AssignDef,
    FnDef,
    FnParamListDef,
    FnParamDef,
    FnReturnDef,
    FnReturnTypeListDef,
    FnReturnTypeDef,
    FnBodyDef,
    StructDef,
    StructFieldListDef,
    StructFieldDef,
    TraitDef,
    TraitListsDef,
    TraitTypeListDef,
    TraitTypeDef,
    TraitFnListDef,
    FnKw,
    UseKw,
    ExternKw,
    StructKw,
    TraitKw,
    Ident,
    Type,
    TypeKw,
    ConstKw,
    VariableKw,
    SelfVarKw,
    SelfTypeKw,
    Literal,
    Number,
    Bang,
    Quest,
    Plus,
    Minus,
    Star,
    Slash,
    Circumflex,
    Circumflex2,
    And,
    And2,
    Pipe,
    Pipe2,
    Equals,
    Equals2,
    Equals3,
    Percent,
    Dollar,
    Hashtag,
    At,
    Underscore,
    Dot,
    Comma,
    Colon,
    Semicolon,
    Quote,
    SingleQuote,
    Grave,
    Arrow,
    LRoundBracket,
    RRoundBracket,
    LAngledBracket,
    RAngledBracket,
    LSquareBracket,
    RSquareBracket,
    LCurlyBracket,
    RCurlyBracket,
}

/// The number of syntax kinds; raw tags are the numbers below it.
pub const SYNTAX_KIND_COUNT: u16 = 77;

impl SyntaxKind {
    /// The raw tag under which this kind is stored in the tree.
    pub open spec fn spec_to_raw(self) -> u16 {
        match self {
            SyntaxKind::Root => 0u16,
            SyntaxKind::Error => 1u16,
            SyntaxKind::Comment => 2u16,
            SyntaxKind::Whitespace => 3u16,
            SyntaxKind::InfixExpr => 4u16,
            SyntaxKind::PrefixExpr => 5u16,
            SyntaxKind::RoundBracketExpr => 6u16,
            SyntaxKind::BlockExpr => 7u16,
            SyntaxKind::ConstDef => 8u16,
            SyntaxKind::VariableDef => 9u16,
            SyntaxKind::VariableRef => 10u16,
            SyntaxKind::AssignDef => 11u16,
            SyntaxKind::FnDef => 12u16,
            SyntaxKind::FnParamListDef => 13u16,
            SyntaxKind::FnParamDef => 14u16,
            SyntaxKind::FnReturnDef => 15u16,
            SyntaxKind::FnReturnTypeListDef => 16u16,
            SyntaxKind::FnReturnTypeDef => 17u16,
            SyntaxKind::FnBodyDef => 18u16,
            SyntaxKind::StructDef => 19u16,
            SyntaxKind::StructFieldListDef => 20u16,
            SyntaxKind::StructFieldDef => 21u16,
            SyntaxKind::TraitDef => 22u16,
            SyntaxKind::TraitListsDef => 23u16,
            SyntaxKind::TraitTypeListDef => 24u16,
            SyntaxKind::TraitTypeDef => 25u16,
            SyntaxKind::TraitFnListDef => 26u16,
            SyntaxKind::FnKw => 27u16,
            SyntaxKind::UseKw => 28u16,
            SyntaxKind::ExternKw => 29u16,
            SyntaxKind::StructKw => 30u16,
            SyntaxKind::TraitKw => 31u16,
            SyntaxKind::Ident => 32u16,
            SyntaxKind::Type => 33u16,
            SyntaxKind::TypeKw => 34u16,
            SyntaxKind::ConstKw => 35u16,
            SyntaxKind::VariableKw => 36u16,
            SyntaxKind::SelfVarKw => 37u16,
            SyntaxKind::SelfTypeKw => 38u16,
            SyntaxKind::Literal => 39u16,
            SyntaxKind::Number => 40u16,
            SyntaxKind::Bang => 41u16,
            SyntaxKind::Quest => 42u16,
            SyntaxKind::Plus => 43u16,
            SyntaxKind::Minus => 44u16,
            SyntaxKind::Star => 45u16,
            SyntaxKind::Slash => 46u16,
            SyntaxKind::Circumflex => 47u16,
            SyntaxKind::Circumflex2 => 48u16,
            SyntaxKind::And => 49u16,
            SyntaxKind::And2 => 50u16,
            SyntaxKind::Pipe => 51u16,
            SyntaxKind::Pipe2 => 52u16,
            SyntaxKind::Equals => 53u16,
            SyntaxKind::Equals2 => 54u16,
            SyntaxKind::Equals3 => 55u16,
            SyntaxKind::Percent => 56u16,
            SyntaxKind::Dollar => 57u16,
            SyntaxKind::Hashtag => 58u16,
            SyntaxKind::At => 59u16,
            SyntaxKind::Underscore => 60u16,
            SyntaxKind::Dot => 61u16,
            SyntaxKind::Comma => 62u16,
            SyntaxKind::Colon => 63u16,
            SyntaxKind::Semicolon => 64u16,
            SyntaxKind::Quote => 65u16,
            SyntaxKind::SingleQuote => 66u16,
            SyntaxKind::Grave => 67u16,
            SyntaxKind::Arrow => 68u16,
            SyntaxKind::LRoundBracket => 69u16,
            SyntaxKind::RRoundBracket => 70u16,
            SyntaxKind::LAngledBracket => 71u16,
            SyntaxKind::RAngledBracket => 72u16,
            SyntaxKind::LSquareBracket => 73u16,
            SyntaxKind::RSquareBracket => 74u16,
            SyntaxKind::LCurlyBracket => 75u16,
            SyntaxKind::RCurlyBracket => 76u16,
        }
    }

    /// The kind stored under a raw tag, if the tag is one of this language.
    pub open spec fn spec_from_raw(raw: u16) -> Option<SyntaxKind> {
        if raw == 0u16 {
            Some(SyntaxKind::Root)
        } else if raw == 1u16 {
            Some(SyntaxKind::Error)
        } else if raw == 2u16 {
            Some(SyntaxKind::Comment)
        } else if raw == 3u16 {
            Some(SyntaxKind::Whitespace)
        } else if raw == 4u16 {
            Some(SyntaxKind::InfixExpr)
        } else if raw == 5u16 {
            Some(SyntaxKind::PrefixExpr)
        } else if raw == 6u16 {
            Some(SyntaxKind::RoundBracketExpr)
        } else if raw == 7u16 {
            Some(SyntaxKind::BlockExpr)
        } else if raw == 8u16 {
            Some(SyntaxKind::ConstDef)
        } else if raw == 9u16 {
            Some(SyntaxKind::VariableDef)
        } else if raw == 10u16 {
            Some(SyntaxKind::VariableRef)
        } else if raw == 11u16 {
            Some(SyntaxKind::AssignDef)
        } else if raw == 12u16 {
            Some(SyntaxKind::FnDef)
        } else if raw == 13u16 {
            Some(SyntaxKind::FnParamListDef)
        } else if raw == 14u16 {
            Some(SyntaxKind::FnParamDef)
        } else if raw == 15u16 {
            Some(SyntaxKind::FnReturnDef)
        } else if raw == 16u16 {
            Some(SyntaxKind::FnReturnTypeListDef)
        } else if raw == 17u16 {
            Some(SyntaxKind::FnReturnTypeDef)
        } else if raw == 18u16 {
            Some(SyntaxKind::FnBodyDef)
        } else if raw == 19u16 {
            Some(SyntaxKind::StructDef)
        } else if raw == 20u16 {
            Some(SyntaxKind::StructFieldListDef)
        } else if raw == 21u16 {
            Some(SyntaxKind::StructFieldDef)
        } else if raw == 22u16 {
            Some(SyntaxKind::TraitDef)
        } else if raw == 23u16 {
            Some(SyntaxKind::TraitListsDef)
        } else if raw == 24u16 {
            Some(SyntaxKind::TraitTypeListDef)
        } else if raw == 25u16 {
            Some(SyntaxKind::TraitTypeDef)
        } else if raw == 26u16 {
            Some(SyntaxKind::TraitFnListDef)
        } else if raw == 27u16 {
            Some(SyntaxKind::FnKw)
        } else if raw == 28u16 {
            Some(SyntaxKind::UseKw)
        } else if raw == 29u16 {
            Some(SyntaxKind::ExternKw)
        } else if raw == 30u16 {
            Some(SyntaxKind::StructKw)
        } else if raw == 31u16 {
            Some(SyntaxKind::TraitKw)
        } else if raw == 32u16 {
            Some(SyntaxKind::Ident)
        } else if raw == 33u16 {
            Some(SyntaxKind::Type)
        } else if raw == 34u16 {
            Some(SyntaxKind::TypeKw)
        } else if raw == 35u16 {
            Some(SyntaxKind::ConstKw)
        } else if raw == 36u16 {
            Some(SyntaxKind::VariableKw)
        } else if raw == 37u16 {
            Some(SyntaxKind::SelfVarKw)
        } else if raw == 38u16 {
            Some(SyntaxKind::SelfTypeKw)
        } else if raw == 39u16 {
            Some(SyntaxKind::Literal)
        } else if raw == 40u16 {
            Some(SyntaxKind::Number)
        } else if raw == 41u16 {
            Some(SyntaxKind::Bang)
        } else if raw == 42u16 {
            Some(SyntaxKind::Quest)
        } else if raw == 43u16 {
            Some(SyntaxKind::Plus)
        } else if raw == 44u16 {
            Some(SyntaxKind::Minus)
        } else if raw == 45u16 {
            Some(SyntaxKind::Star)
        } else if raw == 46u16 {
            Some(SyntaxKind::Slash)
        } else if raw == 47u16 {
            Some(SyntaxKind::Circumflex)
        } else if raw == 48u16 {
            Some(SyntaxKind::Circumflex2)
        } else if raw == 49u16 {
            Some(SyntaxKind::And)
        } else if raw == 50u16 {
            Some(SyntaxKind::And2)
        } else if raw == 51u16 {
            Some(SyntaxKind::Pipe)
        } else if raw == 52u16 {
            Some(SyntaxKind::Pipe2)
        } else if raw == 53u16 {
            Some(SyntaxKind::Equals)
        } else if raw == 54u16 {
            Some(SyntaxKind::Equals2)
        } else if raw == 55u16 {
            Some(SyntaxKind::Equals3)
        } else if raw == 56u16 {
            Some(SyntaxKind::Percent)
        } else if raw == 57u16 {
            Some(SyntaxKind::Dollar)
        } else if raw == 58u16 {
            Some(SyntaxKind::Hashtag)
        } else if raw == 59u16 {
            Some(SyntaxKind::At)
        } else if raw == 60u16 {
            Some(SyntaxKind::Underscore)
        } else if raw == 61u16 {
            Some(SyntaxKind::Dot)
        } else if raw == 62u16 {
            Some(SyntaxKind::Comma)
        } else if raw == 63u16 {
            Some(SyntaxKind::Colon)
        } else if raw == 64u16 {
            Some(SyntaxKind::Semicolon)
        } else if raw == 65u16 {
            Some(SyntaxKind::Quote)
        } else if raw == 66u16 {
            Some(SyntaxKind::SingleQuote)
        } else if raw == 67u16 {
            Some(SyntaxKind::Grave)
        } else if raw == 68u16 {
            Some(SyntaxKind::Arrow)
        } else if raw == 69u16 {
            Some(SyntaxKind::LRoundBracket)
        } else if raw == 70u16 {
            Some(SyntaxKind::RRoundBracket)
        } else if raw == 71u16 {
            Some(SyntaxKind::LAngledBracket)
        } else if raw == 72u16 {
            Some(SyntaxKind::RAngledBracket)
        } else if raw == 73u16 {
            Some(SyntaxKind::LSquareBracket)
        } else if raw == 74u16 {
            Some(SyntaxKind::RSquareBracket)
        } else if raw == 75u16 {
            Some(SyntaxKind::LCurlyBracket)
        } else if raw == 76u16 {
            Some(SyntaxKind::RCurlyBracket)
        } else {
            None
        }
    }

    /// The raw tag under which this kind is stored in the tree.
    pub fn to_raw(self) -> (raw: u16)
        ensures
            raw == self.spec_to_raw(),
            raw < SYNTAX_KIND_COUNT,
            SyntaxKind::spec_from_raw(raw) == Some(self),
    {
        match self {
            SyntaxKind::Root => 0u16,
            SyntaxKind::Error => 1u16,
            SyntaxKind::Comment => 2u16,
            SyntaxKind::Whitespace => 3u16,
            SyntaxKind::InfixExpr => 4u16,
            SyntaxKind::PrefixExpr => 5u16,
            SyntaxKind::RoundBracketExpr => 6u16,
            SyntaxKind::BlockExpr => 7u16,
            SyntaxKind::ConstDef => 8u16,
            SyntaxKind::VariableDef => 9u16,
            SyntaxKind::VariableRef => 10u16,
            SyntaxKind::AssignDef => 11u16,
            SyntaxKind::FnDef => 12u16,
            SyntaxKind::FnParamListDef => 13u16,
            SyntaxKind::FnParamDef => 14u16,
            SyntaxKind::FnReturnDef => 15u16,
            SyntaxKind::FnReturnTypeListDef => 16u16,
            SyntaxKind::FnReturnTypeDef => 17u16,
            SyntaxKind::FnBodyDef => 18u16,
            SyntaxKind::StructDef => 19u16,
            SyntaxKind::StructFieldListDef => 20u16,
            SyntaxKind::StructFieldDef => 21u16,
            SyntaxKind::TraitDef => 22u16,
            SyntaxKind::TraitListsDef => 23u16,
            SyntaxKind::TraitTypeListDef => 24u16,
            SyntaxKind::TraitTypeDef => 25u16,
            SyntaxKind::TraitFnListDef => 26u16,
            SyntaxKind::FnKw => 27u16,
            SyntaxKind::UseKw => 28u16,
            SyntaxKind::ExternKw => 29u16,
            SyntaxKind::StructKw => 30u16,
            SyntaxKind::TraitKw => 31u16,
            SyntaxKind::Ident => 32u16,
            SyntaxKind::Type => 33u16,
            SyntaxKind::TypeKw => 34u16,
            SyntaxKind::ConstKw => 35u16,
            SyntaxKind::VariableKw => 36u16,
            SyntaxKind::SelfVarKw => 37u16,
            SyntaxKind::SelfTypeKw => 38u16,
            SyntaxKind::Literal => 39u16,
            SyntaxKind::Number => 40u16,
            SyntaxKind::Bang => 41u16,
            SyntaxKind::Quest => 42u16,
            SyntaxKind::Plus => 43u16,
            SyntaxKind::Minus => 44u16,
            SyntaxKind::Star => 45u16,
            SyntaxKind::Slash => 46u16,
            SyntaxKind::Circumflex => 47u16,
            SyntaxKind::Circumflex2 => 48u16,
            SyntaxKind::And => 49u16,
            SyntaxKind::And2 => 50u16,
            SyntaxKind::Pipe => 51u16,
            SyntaxKind::Pipe2 => 52u16,
            SyntaxKind::Equals => 53u16,
            SyntaxKind::Equals2 => 54u16,
            SyntaxKind::Equals3 => 55u16,
            SyntaxKind::Percent => 56u16,
            SyntaxKind::Dollar => 57u16,
            SyntaxKind::Hashtag => 58u16,
            SyntaxKind::At => 59u16,
            SyntaxKind::Underscore => 60u16,
            SyntaxKind::Dot => 61u16,
            SyntaxKind::Comma => 62u16,
            SyntaxKind::Colon => 63u16,
            SyntaxKind::Semicolon => 64u16,
            SyntaxKind::Quote => 65u16,
            SyntaxKind::SingleQuote => 66u16,
            SyntaxKind::Grave => 67u16,
            SyntaxKind::Arrow => 68u16,
            SyntaxKind::LRoundBracket => 69u16,
            SyntaxKind::RRoundBracket => 70u16,
            SyntaxKind::LAngledBracket => 71u16,
            SyntaxKind::RAngledBracket => 72u16,
            SyntaxKind::LSquareBracket => 73u16,
            SyntaxKind::RSquareBracket => 74u16,
            SyntaxKind::LCurlyBracket => 75u16,
            SyntaxKind::RCurlyBracket => 76u16,
        }
    }

    /// The kind stored under a raw tag; `None` for a tag of no kind.
    pub fn from_raw(raw: u16) -> (kind: Option<SyntaxKind>)
        ensures
            kind == SyntaxKind::spec_from_raw(raw),
            kind is Some <==> raw < SYNTAX_KIND_COUNT,
            kind matches Some(k) ==> k.spec_to_raw() == raw,
    {
        match raw {
            0u16 => Some(SyntaxKind::Root),
            1u16 => Some(SyntaxKind::Error),
            2u16 => Some(SyntaxKind::Comment),
            3u16 => Some(SyntaxKind::Whitespace),
            4u16 => Some(SyntaxKind::InfixExpr),
            5u16 => Some(SyntaxKind::PrefixExpr),
            6u16 => Some(SyntaxKind::RoundBracketExpr),
            7u16 => Some(SyntaxKind::BlockExpr),
            8u16 => Some(SyntaxKind::ConstDef),
            9u16 => Some(SyntaxKind::VariableDef),
            10u16 => Some(SyntaxKind::VariableRef),
            11u16 => Some(SyntaxKind::AssignDef),
            12u16 => Some(SyntaxKind::FnDef),
            13u16 => Some(SyntaxKind::FnParamListDef),
            14u16 => Some(SyntaxKind::FnParamDef),
            15u16 => Some(SyntaxKind::FnReturnDef),
            16u16 => Some(SyntaxKind::FnReturnTypeListDef),
            17u16 => Some(SyntaxKind::FnReturnTypeDef),
            18u16 => Some(SyntaxKind::FnBodyDef),
            19u16 => Some(SyntaxKind::StructDef),
            20u16 => Some(SyntaxKind::StructFieldListDef),
            21u16 => Some(SyntaxKind::StructFieldDef),
            22u16 => Some(SyntaxKind::TraitDef),
            23u16 => Some(SyntaxKind::TraitListsDef),
            24u16 => Some(SyntaxKind::TraitTypeListDef),
            25u16 => Some(SyntaxKind::TraitTypeDef),
            26u16 => Some(SyntaxKind::TraitFnListDef),
            27u16 => Some(SyntaxKind::FnKw),
            28u16 => Some(SyntaxKind::UseKw),
            29u16 => Some(SyntaxKind::ExternKw),
            30u16 => Some(SyntaxKind::StructKw),
            31u16 => Some(SyntaxKind::TraitKw),
            32u16 => Some(SyntaxKind::Ident),
            33u16 => Some(SyntaxKind::Type),
            34u16 => Some(SyntaxKind::TypeKw),
            35u16 => Some(SyntaxKind::ConstKw),
            36u16 => Some(SyntaxKind::VariableKw),
            37u16 => Some(SyntaxKind::SelfVarKw),
            38u16 => Some(SyntaxKind::SelfTypeKw),
            39u16 => Some(SyntaxKind::Literal),
            40u16 => Some(SyntaxKind::Number),
            41u16 => Some(SyntaxKind::Bang),
            42u16 => Some(SyntaxKind::Quest),
            43u16 => Some(SyntaxKind::Plus),
            44u16 => Some(SyntaxKind::Minus),
            45u16 => Some(SyntaxKind::Star),
            46u16 => Some(SyntaxKind::Slash),
            47u16 => Some(SyntaxKind::Circumflex),
            48u16 => Some(SyntaxKind::Circumflex2),
            49u16 => Some(SyntaxKind::And),
            50u16 => Some(SyntaxKind::And2),
            51u16 => Some(SyntaxKind::Pipe),
            52u16 => Some(SyntaxKind::Pipe2),
            53u16 => Some(SyntaxKind::Equals),
            54u16 => Some(SyntaxKind::Equals2),
            55u16 => Some(SyntaxKind::Equals3),
            56u16 => Some(SyntaxKind::Percent),
            57u16 => Some(SyntaxKind::Dollar),
            58u16 => Some(SyntaxKind::Hashtag),
            59u16 => Some(SyntaxKind::At),
            60u16 => Some(SyntaxKind::Underscore),
            61u16 => Some(SyntaxKind::Dot),
            62u16 => Some(SyntaxKind::Comma),
            63u16 => Some(SyntaxKind::Colon),
            64u16 => Some(SyntaxKind::Semicolon),
            65u16 => Some(SyntaxKind::Quote),
            66u16 => Some(SyntaxKind::SingleQuote),
            67u16 => Some(SyntaxKind::Grave),
            68u16 => Some(SyntaxKind::Arrow),
            69u16 => Some(SyntaxKind::LRoundBracket),
            70u16 => Some(SyntaxKind::RRoundBracket),
            71u16 => Some(SyntaxKind::LAngledBracket),
            72u16 => Some(SyntaxKind::RAngledBracket),
            73u16 => Some(SyntaxKind::LSquareBracket),
            74u16 => Some(SyntaxKind::RSquareBracket),
            75u16 => Some(SyntaxKind::LCurlyBracket),
            76u16 => Some(SyntaxKind::RCurlyBracket),
            _ => None,
        }
    }

    /// The tree kind under which a token of the given kind is stored.
    pub open spec fn of_token(token: TokenKind) -> SyntaxKind {
        match token {
            TokenKind::Error => SyntaxKind::Error,
            TokenKind::Comment => SyntaxKind::Comment,
            TokenKind::Whitespace => SyntaxKind::Whitespace,
            TokenKind::Ident => SyntaxKind::Ident,
            TokenKind::FnKw => SyntaxKind::FnKw,
            TokenKind::UseKw => SyntaxKind::UseKw,
            TokenKind::ExternKw => SyntaxKind::ExternKw,
            TokenKind::StructKw => SyntaxKind::StructKw,
            TokenKind::TraitKw => SyntaxKind::TraitKw,
            TokenKind::ConstKw => SyntaxKind::ConstKw,
            TokenKind::VariableKw => SyntaxKind::VariableKw,
            TokenKind::TypeKw => SyntaxKind::TypeKw,
            TokenKind::SelfVarKw => SyntaxKind::SelfVarKw,
            TokenKind::SelfTypeKw => SyntaxKind::SelfTypeKw,
            TokenKind::Number => SyntaxKind::Number,
            TokenKind::Bang => SyntaxKind::Bang,
            TokenKind::Quest => SyntaxKind::Quest,
            TokenKind::Plus => SyntaxKind::Plus,
            TokenKind::Minus => SyntaxKind::Minus,
            TokenKind::Star => SyntaxKind::Star,
            TokenKind::Slash => SyntaxKind::Slash,
            TokenKind::Circumflex => SyntaxKind::Circumflex,
            TokenKind::Circumflex2 => SyntaxKind::Circumflex2,
            TokenKind::And => SyntaxKind::And,
            TokenKind::And2 => SyntaxKind::And2,
            TokenKind::Pipe => SyntaxKind::Pipe,
            TokenKind::Pipe2 => SyntaxKind::Pipe2,
            TokenKind::Equals => SyntaxKind::Equals,
            TokenKind::Equals2 => SyntaxKind::Equals2,
            TokenKind::Percent => SyntaxKind::Percent,
            TokenKind::Dollar => SyntaxKind::Dollar,
            TokenKind::Hashtag => SyntaxKind::Hashtag,
            TokenKind::At => SyntaxKind::At,
            TokenKind::Underscore => SyntaxKind::Underscore,
            TokenKind::Dot => SyntaxKind::Dot,
            TokenKind::Comma => SyntaxKind::Comma,
            TokenKind::Colon => SyntaxKind::Colon,
            TokenKind::Semicolon => SyntaxKind::Semicolon,
            TokenKind::Quote => SyntaxKind::Quote,
            TokenKind::SingleQuote => SyntaxKind::SingleQuote,
            TokenKind::Grave => SyntaxKind::Grave,
            TokenKind::Arrow => SyntaxKind::Arrow,
            TokenKind::LCurlyBracket => SyntaxKind::LCurlyBracket,
            TokenKind::RCurlyBracket => SyntaxKind::RCurlyBracket,
            TokenKind::LRoundBracket => SyntaxKind::LRoundBracket,
            TokenKind::RRoundBracket => SyntaxKind::RRoundBracket,
            TokenKind::LAngledBracket => SyntaxKind::LAngledBracket,
            TokenKind::RAngledBracket => SyntaxKind::RAngledBracket,
            TokenKind::LSquareBracket => SyntaxKind::LSquareBracket,
            TokenKind::RSquareBracket => SyntaxKind::RSquareBracket,
        }
    }

    /// The name of this kind, as shown in a rendered tree.
    pub open spec fn spec_name(self) -> Seq<char> {
        match self {
            SyntaxKind::Root => "Root"@,
            SyntaxKind::Error => "Error"@,
            SyntaxKind::Comment => "Comment"@,
            SyntaxKind::Whitespace => "Whitespace"@,
            SyntaxKind::InfixExpr => "InfixExpr"@,
            SyntaxKind::PrefixExpr => "PrefixExpr"@,
            SyntaxKind::RoundBracketExpr => "RoundBracketExpr"@,
            SyntaxKind::BlockExpr => "BlockExpr"@,
            SyntaxKind::ConstDef => "ConstDef"@,
            SyntaxKind::VariableDef => "VariableDef"@,
            SyntaxKind::VariableRef => "VariableRef"@,
            SyntaxKind::AssignDef => "AssignDef"@,
            SyntaxKind::FnDef => "FnDef"@,
            SyntaxKind::FnParamListDef => "FnParamListDef"@,
            SyntaxKind::FnParamDef => "FnParamDef"@,
            SyntaxKind::FnReturnDef => "FnReturnDef"@,
            SyntaxKind::FnReturnTypeListDef => "FnReturnTypeListDef"@,
            SyntaxKind::FnReturnTypeDef => "FnReturnTypeDef"@,
            SyntaxKind::FnBodyDef => "FnBodyDef"@,
            SyntaxKind::StructDef => "StructDef"@,
            SyntaxKind::StructFieldListDef => "StructFieldListDef"@,
            SyntaxKind::StructFieldDef => "StructFieldDef"@,
            SyntaxKind::TraitDef => "TraitDef"@,
            SyntaxKind::TraitListsDef => "TraitListsDef"@,
            SyntaxKind::TraitTypeListDef => "TraitTypeListDef"@,
            SyntaxKind::TraitTypeDef => "TraitTypeDef"@,
            SyntaxKind::TraitFnListDef => "TraitFnListDef"@,
            SyntaxKind::FnKw => "FnKw"@,
            SyntaxKind::UseKw => "UseKw"@,
            SyntaxKind::ExternKw => "Ex"@ + "ternKw"@,
            SyntaxKind::StructKw => "StructKw"@,
            SyntaxKind::TraitKw => "TraitKw"@,
            SyntaxKind::Ident => "Ident"@,
            SyntaxKind::Type => "Type"@,
            SyntaxKind::TypeKw => "TypeKw"@,
            SyntaxKind::ConstKw => "ConstKw"@,
            SyntaxKind::VariableKw => "VariableKw"@,
            SyntaxKind::SelfVarKw => "SelfVarKw"@,
            SyntaxKind::SelfTypeKw => "SelfTypeKw"@,
            SyntaxKind::Literal => "Literal"@,
            SyntaxKind::Number => "Number"@,
            SyntaxKind::Bang => "Bang"@,
            SyntaxKind::Quest => "Quest"@,
            SyntaxKind::Plus => "Plus"@,
            SyntaxKind::Minus => "Minus"@,
            SyntaxKind::Star => "Star"@,
            SyntaxKind::Slash => "Slash"@,
            SyntaxKind::Circumflex => "Circumflex"@,
            SyntaxKind::Circumflex2 => "Circumflex2"@,
            SyntaxKind::And => "And"@,
            SyntaxKind::And2 => "And2"@,
            SyntaxKind::Pipe => "Pipe"@,
            SyntaxKind::Pipe2 => "Pipe2"@,
            SyntaxKind::Equals => "Equals"@,
            SyntaxKind::Equals2 => "Equals2"@,
            SyntaxKind::Equals3 => "Equals3"@,
            SyntaxKind::Percent => "Percent"@,
            SyntaxKind::Dollar => "Dollar"@,
            SyntaxKind::Hashtag => "Hashtag"@,
            SyntaxKind::At => "At"@,
            SyntaxKind::Underscore => "Underscore"@,
            SyntaxKind::Dot => "Dot"@,
            SyntaxKind::Comma => "Comma"@,
            SyntaxKind::Colon => "Colon"@,
            SyntaxKind::Semicolon => "Semicolon"@,
            SyntaxKind::Quote => "Quote"@,
            SyntaxKind::SingleQuote => "SingleQuote"@,
            SyntaxKind::Grave => "Grave"@,
            SyntaxKind::Arrow => "Arrow"@,
            SyntaxKind::LRoundBracket => "LRoundBracket"@,
            SyntaxKind::RRoundBracket => "RRoundBracket"@,
            SyntaxKind::LAngledBracket => "LAngledBracket"@,
            SyntaxKind::RAngledBracket => "RAngledBracket"@,
            SyntaxKind::LSquareBracket => "LSquareBracket"@,
            SyntaxKind::RSquareBracket => "RSquareBracket"@,
            SyntaxKind::LCurlyBracket => "LCurlyBracket"@,
            SyntaxKind::RCurlyBracket => "RCurlyBracket"@,
        }
    }

    /// The name of this kind, as shown in a rendered tree.
    pub fn name(self) -> (r: String)
        ensures
            r@ == self.spec_name(),
    {
        match self {
            SyntaxKind::Root => "Root".to_owned(),
            SyntaxKind::Error => "Error".to_owned(),
            SyntaxKind::Comment => "Comment".to_owned(),
            SyntaxKind::Whitespace => "Whitespace".to_owned(),
            SyntaxKind::InfixExpr => "InfixExpr".to_owned(),
            SyntaxKind::PrefixExpr => "PrefixExpr".to_owned(),
            SyntaxKind::RoundBracketExpr => "RoundBracketExpr".to_owned(),
            SyntaxKind::BlockExpr => "BlockExpr".to_owned(),
            SyntaxKind::ConstDef => "ConstDef".to_owned(),
            SyntaxKind::VariableDef => "VariableDef".to_owned(),
            SyntaxKind::VariableRef => "VariableRef".to_owned(),
            SyntaxKind::AssignDef => "AssignDef".to_owned(),
            SyntaxKind::FnDef => "FnDef".to_owned(),
            SyntaxKind::FnParamListDef => "FnParamListDef".to_owned(),
            SyntaxKind::FnParamDef => "FnParamDef".to_owned(),
            SyntaxKind::FnReturnDef => "FnReturnDef".to_owned(),
            SyntaxKind::FnReturnTypeListDef => "FnReturnTypeListDef".to_owned(),
            SyntaxKind::FnReturnTypeDef => "FnReturnTypeDef".to_owned(),
            SyntaxKind::FnBodyDef => "FnBodyDef".to_owned(),
            SyntaxKind::StructDef => "StructDef".to_owned(),
            SyntaxKind::StructFieldListDef => "StructFieldListDef".to_owned(),
            SyntaxKind::StructFieldDef => "StructFieldDef".to_owned(),
            SyntaxKind::TraitDef => "TraitDef".to_owned(),
            SyntaxKind::TraitListsDef => "TraitListsDef".to_owned(),
            SyntaxKind::TraitTypeListDef => "TraitTypeListDef".to_owned(),
            SyntaxKind::TraitTypeDef => "TraitTypeDef".to_owned(),
            SyntaxKind::TraitFnListDef => "TraitFnListDef".to_owned(),
            SyntaxKind::FnKw => "FnKw".to_owned(),
            SyntaxKind::UseKw => "UseKw".to_owned(),
            SyntaxKind::ExternKw => "Ex".to_owned().concat("ternKw"),
            SyntaxKind::StructKw => "StructKw".to_owned(),
            SyntaxKind::TraitKw => "TraitKw".to_owned(),
            SyntaxKind::Ident => "Ident".to_owned(),
            SyntaxKind::Type => "Type".to_owned(),
            SyntaxKind::TypeKw => "TypeKw".to_owned(),
            SyntaxKind::ConstKw => "ConstKw".to_owned(),
            SyntaxKind::VariableKw => "VariableKw".to_owned(),
            SyntaxKind::SelfVarKw => "SelfVarKw".to_owned(),
            SyntaxKind::SelfTypeKw => "SelfTypeKw".to_owned(),
            SyntaxKind::Literal => "Literal".to_owned(),
            SyntaxKind::Number => "Number".to_owned(),
            SyntaxKind::Bang => "Bang".to_owned(),
            SyntaxKind::Quest => "Quest".to_owned(),
            SyntaxKind::Plus => "Plus".to_owned(),
            SyntaxKind::Minus => "Minus".to_owned(),
            SyntaxKind::Star => "Star".to_owned(),
            SyntaxKind::Slash => "Slash".to_owned(),
            SyntaxKind::Circumflex => "Circumflex".to_owned(),
            SyntaxKind::Circumflex2 => "Circumflex2".to_owned(),
            SyntaxKind::And => "And".to_owned(),
            SyntaxKind::And2 => "And2".to_owned(),
            SyntaxKind::Pipe => "Pipe".to_owned(),
            SyntaxKind::Pipe2 => "Pipe2".to_owned(),
            SyntaxKind::Equals => "Equals".to_owned(),
            SyntaxKind::Equals2 => "Equals2".to_owned(),
            SyntaxKind::Equals3 => "Equals3".to_owned(),
            SyntaxKind::Percent => "Percent".to_owned(),
            SyntaxKind::Dollar => "Dollar".to_owned(),
            SyntaxKind::Hashtag => "Hashtag".to_owned(),
            SyntaxKind::At => "At".to_owned(),
            SyntaxKind::Underscore => "Underscore".to_owned(),
            SyntaxKind::Dot => "Dot".to_owned(),
            SyntaxKind::Comma => "Comma".to_owned(),
            SyntaxKind::Colon => "Colon".to_owned(),
            SyntaxKind::Semicolon => "Semicolon".to_owned(),
            SyntaxKind::Quote => "Quote".to_owned(),
            SyntaxKind::SingleQuote => "SingleQuote".to_owned(),
            SyntaxKind::Grave => "Grave".to_owned(),
            SyntaxKind::Arrow => "Arrow".to_owned(),
            SyntaxKind::LRoundBracket => "LRoundBracket".to_owned(),
            SyntaxKind::RRoundBracket => "RRoundBracket".to_owned(),
            SyntaxKind::LAngledBracket => "LAngledBracket".to_owned(),
            SyntaxKind::RAngledBracket => "RAngledBracket".to_owned(),
            SyntaxKind::LSquareBracket => "LSquareBracket".to_owned(),
            SyntaxKind::RSquareBracket => "RSquareBracket".to_owned(),
            SyntaxKind::LCurlyBracket => "LCurlyBracket".to_owned(),
            SyntaxKind::RCurlyBracket => "RCurlyBracket".to_owned(),
        }
    }
}

impl From<TokenKind> for SyntaxKind {
    fn from(token: TokenKind) -> (kind: SyntaxKind) {
        match token {
            TokenKind::Error => SyntaxKind::Error,
            TokenKind::Comment => SyntaxKind::Comment,
            TokenKind::Whitespace => SyntaxKind::Whitespace,
            TokenKind::Ident => SyntaxKind::Ident,
            TokenKind::FnKw => SyntaxKind::FnKw,
            TokenKind::UseKw => SyntaxKind::UseKw,
            TokenKind::ExternKw => SyntaxKind::ExternKw,
            TokenKind::StructKw => SyntaxKind::StructKw,
            TokenKind::TraitKw => SyntaxKind::TraitKw,
            TokenKind::ConstKw => SyntaxKind::ConstKw,
            TokenKind::VariableKw => SyntaxKind::VariableKw,
            TokenKind::TypeKw => SyntaxKind::TypeKw,
            TokenKind::SelfVarKw => SyntaxKind::SelfVarKw,
            TokenKind::SelfTypeKw => SyntaxKind::SelfTypeKw,
            TokenKind::Number => SyntaxKind::Number,
            TokenKind::Bang => SyntaxKind::Bang,
            TokenKind::Quest => SyntaxKind::Quest,
            TokenKind::Plus => SyntaxKind::Plus,
            TokenKind::Minus => SyntaxKind::Minus,
            TokenKind::Star => SyntaxKind::Star,
            TokenKind::Slash => SyntaxKind::Slash,
            TokenKind::Circumflex => SyntaxKind::Circumflex,
            TokenKind::Circumflex2 => SyntaxKind::Circumflex2,
            TokenKind::And => SyntaxKind::And,
            TokenKind::And2 => SyntaxKind::And2,
            TokenKind::Pipe => SyntaxKind::Pipe,
            TokenKind::Pipe2 => SyntaxKind::Pipe2,
            TokenKind::Equals => SyntaxKind::Equals,
            TokenKind::Equals2 => SyntaxKind::Equals2,
            TokenKind::Percent => SyntaxKind::Percent,
            TokenKind::Dollar => SyntaxKind::Dollar,
            TokenKind::Hashtag => SyntaxKind::Hashtag,
            TokenKind::At => SyntaxKind::At,
            TokenKind::Underscore => SyntaxKind::Underscore,
            TokenKind::Dot => SyntaxKind::Dot,
            TokenKind::Comma => SyntaxKind::Comma,
            TokenKind::Colon => SyntaxKind::Colon,
            TokenKind::Semicolon => SyntaxKind::Semicolon,
            TokenKind::Quote => SyntaxKind::Quote,
            TokenKind::SingleQuote => SyntaxKind::SingleQuote,
            TokenKind::Grave => SyntaxKind::Grave,
            TokenKind::Arrow => SyntaxKind::Arrow,
            TokenKind::LCurlyBracket => SyntaxKind::LCurlyBracket,
            TokenKind::RCurlyBracket => SyntaxKind::RCurlyBracket,
            TokenKind::LRoundBracket => SyntaxKind::LRoundBracket,
            TokenKind::RRoundBracket => SyntaxKind::RRoundBracket,
            TokenKind::LAngledBracket => SyntaxKind::LAngledBracket,
            TokenKind::RAngledBracket => SyntaxKind::RAngledBracket,
            TokenKind::LSquareBracket => SyntaxKind::LSquareBracket,
            TokenKind::RSquareBracket => SyntaxKind::RSquareBracket,
        }
    }
}

impl FromSpecImpl<TokenKind> for SyntaxKind {
    open spec fn obeys_from_spec() -> bool {
        true
    }

    open spec fn from_spec(token: TokenKind) -> SyntaxKind {
        SyntaxKind::of_token(token)
    }
}

/// Every token kind has a tree kind of its own: no two token kinds are stored
/// under the same tree kind.
pub proof fn lemma_of_token_injective(a: TokenKind, b: TokenKind)
    requires
        SyntaxKind::of_token(a) == SyntaxKind::of_token(b),
    ensures
        a == b,
{
}

/// Raw tags identify kinds: two kinds with the same raw tag are the same kind,
/// and reading back the tag of a kind gives that kind.
pub proof fn lemma_raw_round_trip(a: SyntaxKind, b: SyntaxKind)
    ensures
        SyntaxKind::spec_from_raw(a.spec_to_raw()) == Some(a),
        a.spec_to_raw() < SYNTAX_KIND_COUNT,
        a.spec_to_raw() == b.spec_to_raw() ==> a == b,
{
}

/// The language tag of Drip syntax trees: the conversion between the tree's
/// raw kind tags and `SyntaxKind`.
#[derive(Clone, Copy, Debug, PartialEq, Eq)]
pub struct Drip;

impl Drip {
    /// The kind stored under a raw tag of a Drip tree.
    pub fn kind_from_raw(raw: u16) -> (kind: SyntaxKind)
        requires
            raw < SYNTAX_KIND_COUNT,
        ensures
            SyntaxKind::spec_from_raw(raw) == Some(kind),
            kind.spec_to_raw() == raw,
    {
        match SyntaxKind::from_raw(raw) {
            Some(kind) => kind,
            None => SyntaxKind::Error,
        }
    }

    /// The raw tag under which a kind is stored in a Drip tree.
    pub fn kind_to_raw(kind: SyntaxKind) -> (raw: u16)
        ensures
            raw == kind.spec_to_raw(),
    {
        kind.to_raw()
    }
}

} // verus!
