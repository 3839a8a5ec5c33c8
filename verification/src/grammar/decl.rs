//! Declarations: the forms that can stand at the top level.

use crate::grammar::expr::expr_model;
use crate::grammar::func::function_def_model;
use crate::grammar::structs::{struct_def_model, trait_def_model};
use crate::grammar::{expr, func, structs};
use crate::marker::Marker;
use crate::model::Model;
use crate::parser::Parser;
use crate::source::{kind_at, lemma_skip_trivia, nth_structural};
use crate::syntax::SyntaxKind;
use crate::token::{Token, TokenKind};
use vstd::prelude::*;

verus! {

/// A declaration, or an expression where no declaration starts. `extern`
/// and `use` have no grammar: the keyword is an error.
pub open spec fn decl_model(tokens: Seq<Token>, m: Model) -> Model
    decreases tokens.len() - m.pos, 10int,
{
    let foreign = m.at(TokenKind::ExternKw);
    let import = foreign.at(TokenKind::UseKw);
    let named = import.at(TokenKind::Ident);
    if m.is_at(tokens, TokenKind::ExternKw) {
        foreign.error(tokens)
    } else if m.is_at(tokens, TokenKind::UseKw) {
        import.error(tokens)
    } else if m.is_at(tokens, TokenKind::Ident) {
        ident_decl_model(tokens, named)
    } else {
        expr_model(tokens, named, 0).0
    }
}

/// What starts with an identifier. The token after the identifier decides:
/// before `=` the identifier is a variable reference, and an assignment
/// follows, in an `AssignDef` node; before `::` and `:=` it is the name of
/// what is defined; before anything else, and at the end of the input, an
/// expression starts with it.
pub open spec fn ident_decl_model(tokens: Seq<Token>, m: Model) -> Model
    decreases tokens.len() - m.pos, 9int,
{
    let marker = m.log.len() as int;
    let opened = m.start();
    if m.lookahead(tokens) is None {
        m
    } else {
        proof {
            lemma_skip_trivia(tokens, m.pos + 1);
        }
        match kind_at(tokens, nth_structural(tokens, m.pos, 1)) {
            Some(TokenKind::Equals) => assign_def_model(
                tokens,
                opened.start().bump(tokens).complete(marker + 1, SyntaxKind::VariableRef),
            ).complete(marker, SyntaxKind::AssignDef),
            Some(TokenKind::ConstKw) => const_def_model(tokens, opened.bump(tokens), marker),
            Some(TokenKind::VariableKw) => variable_def_model(tokens, opened.bump(tokens)).complete(
                marker,
                SyntaxKind::VariableDef,
            ),
            _ => expr_model(tokens, opened, 0).0.abandon(marker),
        }
    }
}

/// What follows a name and stands at `::`: a struct, a trait, a function or
/// a constant, in a node that starts at `marker`, before the name.
pub open spec fn const_def_model(tokens: Seq<Token>, m: Model, marker: int) -> Model
    decreases tokens.len() - m.pos, 20int,
{
    if m.lookahead(tokens) is None {
        m
    } else {
        proof {
            lemma_skip_trivia(tokens, m.pos + 1);
        }
        let taken = m.bump(tokens);
        let structure = taken.at(TokenKind::StructKw);
        let interface = structure.at(TokenKind::TraitKw);
        if taken.is_at(tokens, TokenKind::StructKw) {
            struct_def_model(tokens, structure).complete(marker, SyntaxKind::StructDef)
        } else if taken.is_at(tokens, TokenKind::TraitKw) {
            trait_def_model(tokens, interface).complete(marker, SyntaxKind::TraitDef)
        } else if starts_function_model(tokens, taken.pos) {
            function_def_model(tokens, interface).complete(marker, SyntaxKind::FnDef)
        } else {
            expr_model(tokens, interface, 0).0.complete(marker, SyntaxKind::ConstDef)
        }
    }
}

/// Whether a function starts at `pos`: a `(` whose first `)` is followed by
/// `->` or `{`.
pub open spec fn starts_function_model(tokens: Seq<Token>, pos: int) -> bool {
    kind_at(tokens, pos) == Some(TokenKind::LRoundBracket) && closes_as_function(tokens, pos, 0)
}

/// Whether the first `)` among the structural tokens from the `counter`-th
/// after `pos` on is followed by `->` or `{`.
pub open spec fn closes_as_function(tokens: Seq<Token>, pos: int, counter: nat) -> bool
    decreases tokens.len() - counter,
{
    if counter >= tokens.len() {
        false
    } else {
        match kind_at(tokens, nth_structural(tokens, pos, counter)) {
            Some(TokenKind::RRoundBracket) => {
                let after = kind_at(tokens, nth_structural(tokens, pos, counter + 1));
                after == Some(TokenKind::Arrow) || after == Some(TokenKind::LCurlyBracket)
            },
            Some(_) => closes_as_function(tokens, pos, counter + 1),
            None => false,
        }
    }
}

/// `:=` and an expression.
pub open spec fn variable_def_model(tokens: Seq<Token>, m: Model) -> Model {
    expr_model(tokens, m.bump(tokens), 0).0
}

/// `=` and an expression.
pub open spec fn assign_def_model(tokens: Seq<Token>, m: Model) -> Model {
    expr_model(tokens, m.bump(tokens), 0).0
}

/// Parses one declaration, or an expression where no declaration starts.
/// Consumes at least one token unless the input has ended.
pub(crate) fn decl(p: &mut Parser)
    requires
        old(p).wf(),
    ensures
        final(p).advances(old(p), 1),
        old(p).lookahead() is Some ==> final(p).consumed(old(p), 8),
        final(p).model() == decl_model(old(p).tokens(), old(p).model()),
    decreases old(p).tokens().len() - old(p).pos(), 10int,
{
    if p.at(TokenKind::ExternKw) {
        abi(p);
    } else if p.at(TokenKind::UseKw) {
        import(p);
    } else if p.at(TokenKind::Ident) {
        ident_decl(p);
    } else {
        let _ = expr::expr(p);
    }
}

/// A declaration or expression that starts with an identifier. The token
/// after the identifier decides: `=` makes an assignment, `::` and `:=` make
/// definitions, and anything else leaves an expression.
fn ident_decl(p: &mut Parser)
    requires
        old(p).wf(),
        old(p).lookahead() == Some(TokenKind::Ident),
    ensures
        final(p).consumed(old(p), 8),
        final(p).model() == ident_decl_model(old(p).tokens(), old(p).model()),
    decreases old(p).tokens().len() - old(p).pos(), 9int,
{
    let m = p.start();

    let peek = p.peek_nth(1);
    proof {
        p.lemma_nth();
    }
    match peek {
        Some(TokenKind::Equals) => {
            let m_ref = p.start();
            p.bump();
            let _ = m_ref.complete(p, SyntaxKind::VariableRef);
            assign_def(p);
            let _ = m.complete(p, SyntaxKind::AssignDef);
            proof {
                assert(p.open() =~= old(p).open());
            }
        },
        Some(TokenKind::ConstKw) => {
            p.bump();
            const_def(p, m);
            proof {
                assert(p.open() =~= old(p).open());
            }
        },
        Some(TokenKind::VariableKw) => {
            p.bump();
            variable_def(p);
            let _ = m.complete(p, SyntaxKind::VariableDef);
            proof {
                assert(p.open() =~= old(p).open());
            }
        },
        _ => {
            let _ = expr::expr(p);
            m.abandon(p);
            proof {
                assert(p.open() =~= old(p).open());
            }
        },
    }
}

/// What follows `name ::`: a struct, a trait, a function or a constant. A
/// function is told from a parenthesized constant by the token after the
/// first `)`: `->` or `{` make a function.
fn const_def(p: &mut Parser, m: Marker)
    requires
        old(p).wf(),
        old(p).lookahead() == Some(TokenKind::ConstKw),
        old(p).open().contains(m.pos() as int),
    ensures
        final(p).continues(old(p)),
        final(p).pos() > old(p).pos(),
        final(p).open() == old(p).open().remove(m.pos() as int),
        final(p).log().len() <= old(p).log().len() + 32 * (final(p).pos() - old(p).pos()) - 8,
        final(p).model() == const_def_model(old(p).tokens(), old(p).model(), m.pos() as int),
    decreases old(p).tokens().len() - old(p).pos(), 20int,
{
    p.bump();

    if p.at(TokenKind::StructKw) {
        structs::struct_def(p);
        let _ = m.complete(p, SyntaxKind::StructDef);
    } else if p.at(TokenKind::TraitKw) {
        structs::trait_def(p);
        let _ = m.complete(p, SyntaxKind::TraitDef);
    } else if starts_function(p) {
        func::function_def(p);
        let _ = m.complete(p, SyntaxKind::FnDef);
    } else {
        let _ = expr::expr(p);
        let _ = m.complete(p, SyntaxKind::ConstDef);
    }
}

/// Whether a function definition starts here: a `(` whose first `)` is
/// followed by `->` or `{`. Looks ahead only.
fn starts_function(p: &mut Parser) -> (r: bool)
    requires
        old(p).wf(),
    ensures
        final(p).advances(old(p), 0),
        final(p).pos() == old(p).pos(),
        final(p).log() == old(p).log(),
        final(p).expected() == old(p).expected(),
        final(p).model() == old(p).model(),
        r == starts_function_model(old(p).tokens(), old(p).pos()),
{
    match p.current() {
        Some(TokenKind::LRoundBracket) => {},
        _ => {
            return false;
        },
    }
    let limit = p.token_count();
    let ghost tokens = p.tokens();
    let ghost pos = p.pos();
    let mut counter: usize = 0;
    while counter < limit
        invariant
            p.advances(old(p), 0),
            p.pos() == old(p).pos(),
            p.log() == old(p).log(),
            p.expected() == old(p).expected(),
            p.model() == old(p).model(),
            old(p).lookahead() == Some(TokenKind::LRoundBracket),
            limit == p.tokens().len(),
            tokens == p.tokens(),
            pos == p.pos(),
            closes_as_function(tokens, pos, counter as nat) == closes_as_function(tokens, pos, 0),
        decreases limit - counter,
    {
        match p.peek_nth(counter) {
            Some(TokenKind::RRoundBracket) => {
                let after = p.peek_nth(counter + 1);
                return matches!(after, Some(TokenKind::Arrow) | Some(TokenKind::LCurlyBracket));
            },
            Some(_) => {
                counter += 1;
            },
            None => {
                return false;
            },
        }
    }
    false
}

fn variable_def(p: &mut Parser)
    requires
        old(p).wf(),
        old(p).lookahead() == Some(TokenKind::VariableKw),
    ensures
        final(p).consumed(old(p), 0),
        final(p).model() == variable_def_model(old(p).tokens(), old(p).model()),
    decreases old(p).tokens().len() - old(p).pos(), 4int,
{
    p.bump();
    let _ = expr::expr(p);
}

fn assign_def(p: &mut Parser)
    requires
        old(p).wf(),
        old(p).lookahead() == Some(TokenKind::Equals),
    ensures
        final(p).consumed(old(p), 0),
        final(p).model() == assign_def_model(old(p).tokens(), old(p).model()),
    decreases old(p).tokens().len() - old(p).pos(), 4int,
{
    p.bump();
    let _ = expr::expr(p);
}

/// Foreign interfaces have no grammar yet: the keyword is reported and
/// skipped.
fn abi(p: &mut Parser)
    requires
        old(p).wf(),
        old(p).lookahead() == Some(TokenKind::ExternKw),
    ensures
        final(p).consumed(old(p), 16),
        final(p).model() == old(p).model().error(old(p).tokens()),
{
    p.error();
}

/// Imports have no grammar yet: the keyword is reported and skipped.
fn import(p: &mut Parser)
    requires
        old(p).wf(),
        old(p).lookahead() == Some(TokenKind::UseKw),
    ensures
        final(p).consumed(old(p), 16),
        final(p).model() == old(p).model().error(old(p).tokens()),
{
    p.error();
}

} // verus!
