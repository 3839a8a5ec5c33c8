//! Types.

use crate::model::Model;
use crate::parser::Parser;
use crate::syntax::SyntaxKind;
use crate::token::{Token, TokenKind};
use vstd::prelude::*;

verus! {

/// Whether a type can start with a token of this kind.
pub open spec fn spec_is_path_type_start(token: TokenKind) -> bool {
    token == TokenKind::Ident || token == TokenKind::SelfTypeKw
}

/// Whether a type can start with a token of this kind: an identifier or `Self`.
#[verifier::when_used_as_spec(spec_is_path_type_start)]
pub fn is_path_type_start(token: TokenKind) -> (r: bool)
    ensures
        r == spec_is_path_type_start(token),
{
    matches!(token, TokenKind::Ident | TokenKind::SelfTypeKw)
}

/// A type: one token that can start a type, in a `Type` node. Where no such
/// token stands, nothing happens.
pub open spec fn types_model(tokens: Seq<Token>, m: Model) -> Model {
    match m.lookahead(tokens) {
        Some(kind) => if spec_is_path_type_start(kind) {
            m.start().bump(tokens).complete(m.log.len() as int, SyntaxKind::Type)
        } else {
            m
        },
        None => m,
    }
}

/// Parses a type: one token that can start a type, as a `Type` node. Where
/// no such token stands, nothing is consumed and nothing is logged.
pub(crate) fn types(p: &mut Parser)
    requires
        old(p).wf(),
    ensures
        final(p).advances(old(p), 0),
        (old(p).lookahead() matches Some(k) && spec_is_path_type_start(k)) ==> final(p).consumed(
            old(p),
            16,
        ),
        final(p).model() == types_model(old(p).tokens(), old(p).model()),
{
    match p.current() {
        Some(token) => {
            if is_path_type_start(token) {
                let m = p.start();
                p.bump();
                let _ = m.complete(p, SyntaxKind::Type);
                proof {
                    assert(p.open() =~= old(p).open());
                }
            }
        },
        None => {},
    }
}

} // verus!
