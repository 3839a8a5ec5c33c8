//! Struct and trait definitions.

use crate::grammar::decl;
use crate::grammar::decl::decl_model;
use crate::grammar::types;
use crate::grammar::types::types_model;
use crate::model::Model;
use crate::parser::Parser;
use crate::source::lemma_skip_trivia;
use crate::syntax::SyntaxKind;
use crate::token::{Token, TokenKind};
use vstd::prelude::*;

verus! {

/// `struct` and the list of fields; an error where no `{` follows.
pub open spec fn struct_def_model(tokens: Seq<Token>, m: Model) -> Model {
    let taken = m.bump(tokens);
    if taken.is_at(tokens, TokenKind::LCurlyBracket) {
        struct_field_list_model(tokens, taken.at(TokenKind::LCurlyBracket))
    } else {
        taken.at(TokenKind::LCurlyBracket).error(tokens)
    }
}

/// `{`, fields up to `}` or the end of the input, and `}`, which is
/// expected, in a `StructFieldListDef` node.
pub open spec fn struct_field_list_model(tokens: Seq<Token>, m: Model) -> Model {
    struct_fields_model(tokens, m.start().bump(tokens)).expect(
        tokens,
        TokenKind::RCurlyBracket,
    ).complete(m.log.len() as int, SyntaxKind::StructFieldListDef)
}

/// Fields, one after the other, up to `}` or the end of the input. What is
/// no field is an error. The rule goes on while tokens are consumed.
pub open spec fn struct_fields_model(tokens: Seq<Token>, m: Model) -> Model
    decreases tokens.len() - m.pos,
{
    let looked = m.at(TokenKind::RCurlyBracket);
    if m.is_at(tokens, TokenKind::RCurlyBracket) || m.lookahead(tokens) is None {
        looked
    } else {
        let after = if m.is_at(tokens, TokenKind::Ident) {
            struct_field_model(tokens, looked.at(TokenKind::Ident))
        } else {
            looked.at(TokenKind::Ident).error(tokens)
        };
        if m.pos < after.pos <= tokens.len() {
            struct_fields_model(tokens, after)
        } else {
            after
        }
    }
}

/// A field: a name, `:`, which is expected, a type and a `,` or none, in a
/// `StructFieldDef` node.
pub open spec fn struct_field_model(tokens: Seq<Token>, m: Model) -> Model {
    let typed = types_model(tokens, m.start().bump(tokens).expect(tokens, TokenKind::Colon));
    let looked = typed.at(TokenKind::Comma);
    let ended = if typed.is_at(tokens, TokenKind::Comma) {
        looked.bump(tokens)
    } else {
        looked
    };
    ended.complete(m.log.len() as int, SyntaxKind::StructFieldDef)
}

/// `trait` and its lists; an error where no `{` follows.
pub open spec fn trait_def_model(tokens: Seq<Token>, m: Model) -> Model
    decreases tokens.len() - m.pos, 19int,
{
    if m.lookahead(tokens) is None {
        m
    } else {
        proof {
            lemma_skip_trivia(tokens, m.pos + 1);
        }
        let taken = m.bump(tokens);
        if taken.is_at(tokens, TokenKind::LCurlyBracket) {
            trait_lists_model(tokens, taken.at(TokenKind::LCurlyBracket))
        } else {
            taken.at(TokenKind::LCurlyBracket).error(tokens)
        }
    }
}

/// `{`, the functions of the trait, and `}`, which is expected, in a
/// `TraitListsDef` node. Associated types have no grammar: where `Type`
/// stands, an empty list of them is made and the keyword is an error.
pub open spec fn trait_lists_model(tokens: Seq<Token>, m: Model) -> Model
    decreases tokens.len() - m.pos, 18int,
{
    if m.lookahead(tokens) is None {
        m
    } else {
        proof {
            lemma_skip_trivia(tokens, m.pos + 1);
        }
        let opened = m.start().bump(tokens);
        let closing = opened.at(TokenKind::RCurlyBracket);
        let types = closing.at(TokenKind::TypeKw);
        let functions = types.at(TokenKind::Ident);
        let inner = if opened.is_at(tokens, TokenKind::RCurlyBracket) {
            closing
        } else if opened.is_at(tokens, TokenKind::TypeKw) {
            trait_type_lists_model(types).error(tokens)
        } else if opened.is_at(tokens, TokenKind::Ident) {
            trait_fn_list_model(tokens, functions)
        } else {
            functions.error(tokens)
        };
        inner.expect(tokens, TokenKind::RCurlyBracket).complete(
            m.log.len() as int,
            SyntaxKind::TraitListsDef,
        )
    }
}

/// An empty `TraitTypeListDef` node.
pub open spec fn trait_type_lists_model(m: Model) -> Model {
    m.start().complete(m.log.len() as int, SyntaxKind::TraitTypeListDef)
}

/// A declaration, in a `TraitFnListDef` node.
pub open spec fn trait_fn_list_model(tokens: Seq<Token>, m: Model) -> Model
    decreases tokens.len() - m.pos, 17int,
{
    decl_model(tokens, m.start()).complete(m.log.len() as int, SyntaxKind::TraitFnListDef)
}

/// `struct { .. }`, after the name and `::`.
pub(crate) fn struct_def(p: &mut Parser)
    requires
        old(p).wf(),
        old(p).lookahead() == Some(TokenKind::StructKw),
    ensures
        final(p).consumed(old(p), 0),
        final(p).model() == struct_def_model(old(p).tokens(), old(p).model()),
{
    p.bump();
    if p.at(TokenKind::LCurlyBracket) {
        struct_field_list_def(p);
    } else {
        p.error();
    }
}

fn struct_field_list_def(p: &mut Parser)
    requires
        old(p).wf(),
        old(p).lookahead() == Some(TokenKind::LCurlyBracket),
    ensures
        final(p).consumed(old(p), 0),
        final(p).model() == struct_field_list_model(old(p).tokens(), old(p).model()),
{
    let ghost tokens = p.tokens();
    let m = p.start();
    p.bump();
    let ghost entered = *p;
    loop
        invariant_except_break
            struct_fields_model(tokens, p.model()) == struct_fields_model(tokens, entered.model()),
        invariant
            p.advances(&entered, 0),
            tokens == p.tokens(),
        ensures
            p.advances(&entered, 0),
            p.model() == struct_fields_model(tokens, entered.model()),
        decreases p.tokens().len() - p.pos(),
    {
        if p.at(TokenKind::RCurlyBracket) || p.at_end() {
            break ;
        }
        if p.at(TokenKind::Ident) {
            struct_field_def(p);
        } else {
            p.error();
        }
    }
    p.expect(TokenKind::RCurlyBracket);
    let _ = m.complete(p, SyntaxKind::StructFieldListDef);
    proof {
        assert(p.open() =~= old(p).open());
    }
}

fn struct_field_def(p: &mut Parser)
    requires
        old(p).wf(),
        old(p).lookahead() == Some(TokenKind::Ident),
    ensures
        final(p).consumed(old(p), 0),
        final(p).model() == struct_field_model(old(p).tokens(), old(p).model()),
{
    let m = p.start();
    p.bump();
    p.expect(TokenKind::Colon);
    types::types(p);
    // `,` is optional after fields
    if p.at(TokenKind::Comma) {
        p.bump()
    }
    let _ = m.complete(p, SyntaxKind::StructFieldDef);
    proof {
        assert(p.open() =~= old(p).open());
    }
}

/// `trait { .. }`, after the name and `::`.
pub(crate) fn trait_def(p: &mut Parser)
    requires
        old(p).wf(),
        old(p).lookahead() == Some(TokenKind::TraitKw),
    ensures
        final(p).consumed(old(p), 0),
        final(p).model() == trait_def_model(old(p).tokens(), old(p).model()),
    decreases old(p).tokens().len() - old(p).pos(), 19int,
{
    p.bump();
    if p.at(TokenKind::LCurlyBracket) {
        trait_lists_def(p);
    } else {
        p.error();
    }
}

fn trait_lists_def(p: &mut Parser)
    requires
        old(p).wf(),
        old(p).lookahead() == Some(TokenKind::LCurlyBracket),
    ensures
        final(p).consumed(old(p), 0),
        final(p).model() == trait_lists_model(old(p).tokens(), old(p).model()),
    decreases old(p).tokens().len() - old(p).pos(), 18int,
{
    let m = p.start();
    p.bump();
    if !p.at(TokenKind::RCurlyBracket) {
        if p.at(TokenKind::TypeKw) {
            trait_type_lists_def(p);
            // Associated types have no grammar yet: the keyword is reported
            // and skipped.
            p.error();
        } else if p.at(TokenKind::Ident) {
            trait_fn_list_def(p);
        } else {
            p.error();
        }
    }
    p.expect(TokenKind::RCurlyBracket);
    let _ = m.complete(p, SyntaxKind::TraitListsDef);
    proof {
        assert(p.open() =~= old(p).open());
    }
}

fn trait_type_lists_def(p: &mut Parser)
    requires
        old(p).wf(),
    ensures
        final(p).advances(old(p), 2),
        final(p).pos() == old(p).pos(),
        final(p).model() == trait_type_lists_model(old(p).model()),
{
    let m = p.start();
    let _ = m.complete(p, SyntaxKind::TraitTypeListDef);
    proof {
        assert(p.open() =~= old(p).open());
    }
}

fn trait_fn_list_def(p: &mut Parser)
    requires
        old(p).wf(),
        old(p).lookahead() == Some(TokenKind::Ident),
    ensures
        final(p).consumed(old(p), 0),
        final(p).model() == trait_fn_list_model(old(p).tokens(), old(p).model()),
    decreases old(p).tokens().len() - old(p).pos(), 17int,
{
    let m = p.start();
    decl::decl(p);
    let _ = m.complete(p, SyntaxKind::TraitFnListDef);
    proof {
        assert(p.open() =~= old(p).open());
    }
}

} // verus!
