//! Function definitions.

use crate::grammar::decl::decl_model;
use crate::grammar::types::types_model;
use crate::grammar::{decl, types};
use crate::model::Model;
use crate::parser::Parser;
use crate::syntax::SyntaxKind;
use crate::token::{Token, TokenKind};
use vstd::prelude::*;

verus! {

/// A function after its name and `::`: `(`, parameters, `)`, `->` and what
/// is returned, or neither, `{`, a body or none, `}`. The four brackets are
/// expected.
pub open spec fn function_def_model(tokens: Seq<Token>, m: Model) -> Model
    decreases tokens.len() - m.pos, 19int,
{
    let opened = m.expect(tokens, TokenKind::LRoundBracket);
    let params = if opened.is_at(tokens, TokenKind::RRoundBracket) {
        opened.at(TokenKind::RRoundBracket)
    } else {
        function_param_list_model(tokens, opened.at(TokenKind::RRoundBracket))
    };
    let closed = params.expect(tokens, TokenKind::RRoundBracket);
    let returned = if closed.is_at(tokens, TokenKind::Arrow) {
        function_return_model(tokens, closed.at(TokenKind::Arrow).bump(tokens))
    } else {
        closed.at(TokenKind::Arrow)
    };
    let braced = returned.expect(tokens, TokenKind::LCurlyBracket);
    let looked = braced.at(TokenKind::RCurlyBracket);
    let body = if !braced.is_at(tokens, TokenKind::RCurlyBracket) && m.pos <= looked.pos
        <= tokens.len() {
        function_body_model(tokens, looked)
    } else {
        looked
    };
    body.expect(tokens, TokenKind::RCurlyBracket)
}

/// Parameters up to `)` or the end of the input, in a `FnParamListDef` node.
pub open spec fn function_param_list_model(tokens: Seq<Token>, m: Model) -> Model {
    function_params_model(tokens, m.start()).complete(
        m.log.len() as int,
        SyntaxKind::FnParamListDef,
    )
}

/// Parameters, one after the other, up to `)` or the end of the input. What
/// is no parameter is an error. The rule goes on while tokens are consumed.
pub open spec fn function_params_model(tokens: Seq<Token>, m: Model) -> Model
    decreases tokens.len() - m.pos,
{
    let looked = m.at(TokenKind::RRoundBracket);
    if m.is_at(tokens, TokenKind::RRoundBracket) || m.lookahead(tokens) is None {
        looked
    } else {
        let after = if m.is_at(tokens, TokenKind::Ident) {
            function_param_model(tokens, looked.at(TokenKind::Ident))
        } else {
            looked.at(TokenKind::Ident).error(tokens)
        };
        if m.pos < after.pos <= tokens.len() {
            function_params_model(tokens, after)
        } else {
            after
        }
    }
}

/// A declaration, in a `FnBodyDef` node.
pub open spec fn function_body_model(tokens: Seq<Token>, m: Model) -> Model
    decreases tokens.len() - m.pos, 18int,
{
    decl_model(tokens, m.start()).complete(m.log.len() as int, SyntaxKind::FnBodyDef)
}

/// What a function returns: a list of types in parentheses, or one type, in
/// a `FnReturnDef` node. Anything else is an error.
pub open spec fn function_return_model(tokens: Seq<Token>, m: Model) -> Model {
    let opened = m.start();
    let list = opened.at(TokenKind::LRoundBracket);
    let single = list.at(TokenKind::Ident);
    let inner = if opened.is_at(tokens, TokenKind::LRoundBracket) {
        function_return_type_list_model(tokens, list.bump(tokens)).expect(
            tokens,
            TokenKind::RRoundBracket,
        )
    } else if opened.is_at(tokens, TokenKind::Ident) {
        function_return_type_model(tokens, single)
    } else {
        single.error(tokens)
    };
    inner.complete(m.log.len() as int, SyntaxKind::FnReturnDef)
}

/// Types up to `)` or the end of the input, in a `FnReturnTypeListDef` node.
pub open spec fn function_return_type_list_model(tokens: Seq<Token>, m: Model) -> Model {
    function_return_types_model(tokens, m.start()).complete(
        m.log.len() as int,
        SyntaxKind::FnReturnTypeListDef,
    )
}

/// Types, each with a `,` after it or none, up to `)` or the end of the
/// input. What is no type is an error. The rule goes on while tokens are
/// consumed.
pub open spec fn function_return_types_model(tokens: Seq<Token>, m: Model) -> Model
    decreases tokens.len() - m.pos,
{
    let looked = m.at(TokenKind::RRoundBracket);
    if m.is_at(tokens, TokenKind::RRoundBracket) || m.lookahead(tokens) is None {
        looked
    } else {
        let item = if m.is_at(tokens, TokenKind::Ident) {
            function_return_type_model(tokens, looked.at(TokenKind::Ident))
        } else {
            looked.at(TokenKind::Ident).error(tokens)
        };
        let after = if item.is_at(tokens, TokenKind::Comma) {
            item.at(TokenKind::Comma).bump(tokens)
        } else {
            item.at(TokenKind::Comma)
        };
        if m.pos < after.pos <= tokens.len() {
            function_return_types_model(tokens, after)
        } else {
            after
        }
    }
}

/// A type, in a `FnReturnTypeDef` node.
pub open spec fn function_return_type_model(tokens: Seq<Token>, m: Model) -> Model {
    types_model(tokens, m.start()).complete(m.log.len() as int, SyntaxKind::FnReturnTypeDef)
}

/// A parameter: a name, `:`, which is expected, a type and a `,` or none, in
/// a `FnParamDef` node.
pub open spec fn function_param_model(tokens: Seq<Token>, m: Model) -> Model {
    let typed = types_model(tokens, m.start().bump(tokens).expect(tokens, TokenKind::Colon));
    let looked = typed.at(TokenKind::Comma);
    let ended = if typed.is_at(tokens, TokenKind::Comma) {
        looked.bump(tokens)
    } else {
        looked
    };
    ended.complete(m.log.len() as int, SyntaxKind::FnParamDef)
}

/// `(params) -> returns { body }`, after the name and `::`.
pub(crate) fn function_def(p: &mut Parser)
    requires
        old(p).wf(),
    ensures
        final(p).advances(old(p), 13),
        final(p).model() == function_def_model(old(p).tokens(), old(p).model()),
    decreases old(p).tokens().len() - old(p).pos(), 19int,
{
    p.expect(TokenKind::LRoundBracket);
    if !p.at(TokenKind::RRoundBracket) {
        function_param_list_def(p);
    }
    p.expect(TokenKind::RRoundBracket);
    // return is optional
    if p.at(TokenKind::Arrow) {
        p.bump();
        function_return_def(p);
    }
    p.expect(TokenKind::LCurlyBracket);
    if !p.at(TokenKind::RCurlyBracket) {
        function_body_def(p);
    }
    p.expect(TokenKind::RCurlyBracket);
}

fn function_param_list_def(p: &mut Parser)
    requires
        old(p).wf(),
    ensures
        final(p).advances(old(p), 2),
        final(p).model() == function_param_list_model(old(p).tokens(), old(p).model()),
{
    let ghost tokens = p.tokens();
    let m = p.start();
    let ghost entered = *p;
    loop
        invariant_except_break
            function_params_model(tokens, p.model()) == function_params_model(
                tokens,
                entered.model(),
            ),
        invariant
            p.advances(&entered, 0),
            tokens == p.tokens(),
        ensures
            p.advances(&entered, 0),
            p.model() == function_params_model(tokens, entered.model()),
        decreases p.tokens().len() - p.pos(),
    {
        if p.at(TokenKind::RRoundBracket) || p.at_end() {
            break ;
        }
        if p.at(TokenKind::Ident) {
            function_param_def(p);
        } else {
            p.error();
        }
    }
    let _ = m.complete(p, SyntaxKind::FnParamListDef);
    proof {
        assert(p.open() =~= old(p).open());
    }
}

fn function_body_def(p: &mut Parser)
    requires
        old(p).wf(),
    ensures
        final(p).advances(old(p), 4),
        final(p).model() == function_body_model(old(p).tokens(), old(p).model()),
    decreases old(p).tokens().len() - old(p).pos(), 18int,
{
    let m = p.start();
    decl::decl(p);
    let _ = m.complete(p, SyntaxKind::FnBodyDef);
    proof {
        assert(p.open() =~= old(p).open());
    }
}

fn function_return_def(p: &mut Parser)
    requires
        old(p).wf(),
    ensures
        final(p).advances(old(p), 3),
        final(p).model() == function_return_model(old(p).tokens(), old(p).model()),
{
    let m = p.start();
    if p.at(TokenKind::LRoundBracket) {
        p.bump();
        function_return_type_list_def(p);
        p.expect(TokenKind::RRoundBracket)
    } else if p.at(TokenKind::Ident) {
        function_return_type_def(p);
    } else {
        p.error();
    }
    let _ = m.complete(p, SyntaxKind::FnReturnDef);
    proof {
        assert(p.open() =~= old(p).open());
    }
}

fn function_return_type_list_def(p: &mut Parser)
    requires
        old(p).wf(),
    ensures
        final(p).advances(old(p), 2),
        final(p).model() == function_return_type_list_model(old(p).tokens(), old(p).model()),
{
    let ghost tokens = p.tokens();
    let m = p.start();
    let ghost entered = *p;
    loop
        invariant_except_break
            function_return_types_model(tokens, p.model()) == function_return_types_model(
                tokens,
                entered.model(),
            ),
        invariant
            p.advances(&entered, 0),
            tokens == p.tokens(),
        ensures
            p.advances(&entered, 0),
            p.model() == function_return_types_model(tokens, entered.model()),
        decreases p.tokens().len() - p.pos(),
    {
        if p.at(TokenKind::RRoundBracket) || p.at_end() {
            break ;
        }
        if p.at(TokenKind::Ident) {
            function_return_type_def(p);
        } else {
            p.error();
        }
        if p.at(TokenKind::Comma) {
            p.bump();
        }
    }
    let _ = m.complete(p, SyntaxKind::FnReturnTypeListDef);
    proof {
        assert(p.open() =~= old(p).open());
    }
}

fn function_return_type_def(p: &mut Parser)
    requires
        old(p).wf(),
        old(p).lookahead() == Some(TokenKind::Ident),
    ensures
        final(p).consumed(old(p), 0),
        final(p).model() == function_return_type_model(old(p).tokens(), old(p).model()),
{
    let m = p.start();
    types::types(p);
    let _ = m.complete(p, SyntaxKind::FnReturnTypeDef);
    proof {
        assert(p.open() =~= old(p).open());
    }
}

fn function_param_def(p: &mut Parser)
    requires
        old(p).wf(),
        old(p).lookahead() == Some(TokenKind::Ident),
    ensures
        final(p).consumed(old(p), 0),
        final(p).model() == function_param_model(old(p).tokens(), old(p).model()),
{
    let m = p.start();
    p.bump();
    p.expect(TokenKind::Colon);
    types::types(p);
    // `,` is optional after parameter
    if p.at(TokenKind::Comma) {
        p.bump()
    }
    let _ = m.complete(p, SyntaxKind::FnParamDef);
    proof {
        assert(p.open() =~= old(p).open());
    }
}

} // verus!
