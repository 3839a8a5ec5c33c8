//! The grammar: rules built from the parser's primitives. Each rule comes
//! with its model: the function that says what the rule does to the state of
//! the parser.

pub mod decl;
pub mod expr;
pub mod func;
pub mod structs;
pub mod types;

use crate::event::{count_tokens, is_finished_log};
use crate::grammar::decl::decl_model;
use crate::marker::CompletedMarker;
use crate::model::Model;
use crate::parser::Parser;
use crate::source::count_structural;
use crate::syntax::SyntaxKind;
use crate::token::Token;
use vstd::prelude::*;

verus! {

/// A whole input: declarations up to the end, in a `Root` node.
pub open spec fn root_model(tokens: Seq<Token>, m: Model) -> Model {
    decls_model(tokens, m.start()).complete(m.log.len() as int, SyntaxKind::Root)
}

/// Declarations, one after the other, up to the end of the input. The rule
/// goes on while tokens are consumed.
pub open spec fn decls_model(tokens: Seq<Token>, m: Model) -> Model
    decreases tokens.len() - m.pos,
{
    if m.lookahead(tokens) is None {
        m
    } else {
        let after = decl_model(tokens, m);
        if m.pos < after.pos <= tokens.len() {
            decls_model(tokens, after)
        } else {
            after
        }
    }
}

/// What the grammar makes of the tokens: the state of the parser after the
/// whole input has been parsed from the start.
pub open spec fn grammar_model(tokens: Seq<Token>) -> Model {
    root_model(tokens, Model::initial(tokens))
}

/// Parses a whole input: declarations up to the end, inside a `Root` node.
/// Leaves no marker open.
pub(crate) fn root(p: &mut Parser) -> (done: CompletedMarker)
    requires
        old(p).wf(),
        old(p).log().len() == 0,
        old(p).open() == Set::<int>::empty(),
    ensures
        final(p).continues(old(p)),
        final(p).pos() == final(p).tokens().len(),
        final(p).open() == Set::<int>::empty(),
        final(p).log().len() <= 32 * final(p).tokens().len() + 2,
        done.pos() == 0,
        is_finished_log(final(p).log()),
        count_tokens(final(p).log()) == count_structural(final(p).tokens()),
        final(p).model() == root_model(old(p).tokens(), old(p).model()),
{
    let ghost tokens = p.tokens();
    let marker = p.start();
    let ghost entered = *p;

    loop
        invariant_except_break
            decls_model(tokens, p.model()) == decls_model(tokens, entered.model()),
        invariant
            p.advances(&entered, 0),
            tokens == p.tokens(),
        ensures
            p.advances(&entered, 0),
            p.pos() == p.tokens().len(),
            p.model() == decls_model(tokens, entered.model()),
        decreases p.tokens().len() - p.pos(),
    {
        if p.at_end() {
            break ;
        }
        decl::decl(p);
    }

    let done = marker.complete(p, SyntaxKind::Root);
    proof {
        assert(p.open() =~= old(p).open());
        old(p).lemma_wf();
        p.lemma_wf();
        assert(p.tokens().take(p.pos()) =~= p.tokens());
    }
    done
}

} // verus!
