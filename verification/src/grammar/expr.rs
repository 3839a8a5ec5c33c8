//! Expressions, parsed by precedence climbing.

use crate::marker::CompletedMarker;
use crate::model::Model;
use crate::parser::Parser;
use crate::source::lemma_skip_trivia;
use crate::syntax::SyntaxKind;
use crate::token::{Token, TokenKind};
use vstd::prelude::*;

verus! {

/// The binary operators.
#[derive(Clone, Copy, Debug, PartialEq, Eq, Structural)]
pub enum BinaryOp {
    Add,
    Sub,
    Mul,
    Div,
}

impl BinaryOp {
    /// The left and right binding power: additive operators bind with
    /// `(1, 2)`, multiplicative ones with `(3, 4)`.
    pub open spec fn spec_binding_power(&self) -> (u8, u8) {
        match self {
            BinaryOp::Add | BinaryOp::Sub => (1, 2),
            BinaryOp::Mul | BinaryOp::Div => (3, 4),
        }
    }

    /// The left and right binding power of the operator.
    #[verifier::when_used_as_spec(spec_binding_power)]
    pub fn binding_power(&self) -> (power: (u8, u8))
        ensures
            power == self.spec_binding_power(),
            power.0 < power.1,
    {
        match self {
            BinaryOp::Add | BinaryOp::Sub => (1, 2),
            BinaryOp::Mul | BinaryOp::Div => (3, 4),
        }
    }

    /// The operator that a token kind stands for, if any.
    pub open spec fn of_kind(kind: Option<TokenKind>) -> Option<BinaryOp> {
        match kind {
            Some(TokenKind::Plus) => Some(BinaryOp::Add),
            Some(TokenKind::Minus) => Some(BinaryOp::Sub),
            Some(TokenKind::Star) => Some(BinaryOp::Mul),
            Some(TokenKind::Slash) => Some(BinaryOp::Div),
            _ => None,
        }
    }
}

/// The unary operators.
#[derive(Clone, Copy, Debug, PartialEq, Eq, Structural)]
pub enum UnaryOp {
    Neg,
}

impl UnaryOp {
    /// The right binding power: negation binds with 5, tighter than every
    /// binary operator.
    pub open spec fn spec_binding_power(&self) -> ((), u8) {
        ((), 5)
    }

    /// The right binding power of the operator; it has no left side.
    #[verifier::when_used_as_spec(spec_binding_power)]
    pub fn binding_power(&self) -> (power: ((), u8))
        ensures
            power == self.spec_binding_power(),
    {
        match self {
            UnaryOp::Neg => ((), 5),
        }
    }
}

/// Negation binds tighter than any binary operator, on either side.
pub proof fn lemma_negation_binds_tightest(op: BinaryOp)
    ensures
        op.spec_binding_power().0 < UnaryOp::Neg.spec_binding_power().1,
        op.spec_binding_power().1 < UnaryOp::Neg.spec_binding_power().1,
{
}

/// Whether an expression can start with a token of this kind.
pub open spec fn starts_expr(kind: Option<TokenKind>) -> bool {
    kind == Some(TokenKind::Number) || kind == Some(TokenKind::Ident) || kind == Some(
        TokenKind::Minus,
    ) || kind == Some(TokenKind::LRoundBracket)
}

/// The log position of a node, `None` for no node.
pub open spec fn node_pos(done: Option<CompletedMarker>) -> Option<int> {
    match done {
        Some(d) => Some(d.pos() as int),
        None => None,
    }
}

/// A literal: the number, in a `Literal` node.
pub open spec fn literal_model(tokens: Seq<Token>, m: Model) -> Model {
    m.start().bump(tokens).complete(m.log.len() as int, SyntaxKind::Literal)
}

/// A variable reference: the identifier, in a `VariableRef` node.
pub open spec fn variable_ref_model(tokens: Seq<Token>, m: Model) -> Model {
    m.start().bump(tokens).complete(m.log.len() as int, SyntaxKind::VariableRef)
}

/// The state after the kinds of the operators have been looked for, up to the
/// one that stands here.
pub open spec fn operator_model(tokens: Seq<Token>, m: Model) -> Model {
    if m.is_at(tokens, TokenKind::Plus) {
        m.at(TokenKind::Plus)
    } else if m.is_at(tokens, TokenKind::Minus) {
        m.at(TokenKind::Plus).at(TokenKind::Minus)
    } else if m.is_at(tokens, TokenKind::Star) {
        m.at(TokenKind::Plus).at(TokenKind::Minus).at(TokenKind::Star)
    } else {
        m.at(TokenKind::Plus).at(TokenKind::Minus).at(TokenKind::Star).at(TokenKind::Slash)
    }
}

/// An expression whose operators bind at least as tightly on the left as
/// `min`: an operand, and then the operators and right-hand sides that
/// follow it. The second value is the log position of the node of the
/// expression, `None` where no operand stands.
pub open spec fn expr_model(tokens: Seq<Token>, m: Model, min: u8) -> (Model, Option<int>)
    decreases tokens.len() - m.pos, 3int,
{
    let (after, operand) = lhs_model(tokens, m);
    match operand {
        Some(node) => if m.pos < after.pos <= tokens.len() {
            infix_model(tokens, after, node, min)
        } else {
            (after, operand)
        },
        None => (after, None),
    }
}

/// The operators that follow the node at `lhs`, each with its right-hand
/// side. An operator that binds more loosely on the left than `min` is left
/// alone. An operator that is taken wraps the node so far, itself and its
/// right-hand side, parsed with the right binding power of the operator as
/// the least, in an `InfixExpr` node, and that node is the node so far for
/// the next operator. Without a right-hand side no further operator is taken.
pub open spec fn infix_model(tokens: Seq<Token>, m: Model, lhs: int, min: u8) -> (
    Model,
    Option<int>,
)
    decreases tokens.len() - m.pos, 2int,
{
    let looked = operator_model(tokens, m);
    match BinaryOp::of_kind(m.lookahead(tokens)) {
        None => (looked, Some(lhs)),
        Some(op) => if op.spec_binding_power().0 < min {
            (looked, Some(lhs))
        } else {
            proof {
                lemma_skip_trivia(tokens, m.pos + 1);
            }
            let taken = looked.bump(tokens);
            let wrap = taken.log.len() as int;
            let (after, rhs) = expr_model(tokens, taken.precede(lhs), op.spec_binding_power().1);
            let wrapped = after.complete(wrap, SyntaxKind::InfixExpr);
            if rhs is Some && m.pos < wrapped.pos <= tokens.len() {
                infix_model(tokens, wrapped, wrap, min)
            } else {
                (wrapped, Some(wrap))
            }
        },
    }
}

/// An operand: a literal, a variable reference, a negation or an expression
/// in parentheses. Where none of these starts, an error is raised and there
/// is no node.
pub open spec fn lhs_model(tokens: Seq<Token>, m: Model) -> (Model, Option<int>)
    decreases tokens.len() - m.pos, 1int,
{
    let node = Some(m.log.len() as int);
    let number = m.at(TokenKind::Number);
    let ident = number.at(TokenKind::Ident);
    let minus = ident.at(TokenKind::Minus);
    let bracket = minus.at(TokenKind::LRoundBracket);
    if m.is_at(tokens, TokenKind::Number) {
        (literal_model(tokens, number), node)
    } else if m.is_at(tokens, TokenKind::Ident) {
        (variable_ref_model(tokens, ident), node)
    } else if m.is_at(tokens, TokenKind::Minus) {
        (prefix_model(tokens, minus), node)
    } else if m.is_at(tokens, TokenKind::LRoundBracket) {
        (round_bracket_model(tokens, bracket), node)
    } else {
        (bracket.error(tokens), None)
    }
}

/// A negation: `-` and an expression that binds at least as tightly as
/// negation does, in a `PrefixExpr` node.
pub open spec fn prefix_model(tokens: Seq<Token>, m: Model) -> Model
    decreases tokens.len() - m.pos, 0int,
{
    if m.lookahead(tokens) is None {
        m
    } else {
        proof {
            lemma_skip_trivia(tokens, m.pos + 1);
        }
        expr_model(tokens, m.start().bump(tokens), UnaryOp::Neg.spec_binding_power().1).0.complete(
            m.log.len() as int,
            SyntaxKind::PrefixExpr,
        )
    }
}

/// An expression in parentheses: `(`, an expression, and `)`, which is
/// expected, in a `RoundBracketExpr` node.
pub open spec fn round_bracket_model(tokens: Seq<Token>, m: Model) -> Model
    decreases tokens.len() - m.pos, 0int,
{
    if m.lookahead(tokens) is None {
        m
    } else {
        proof {
            lemma_skip_trivia(tokens, m.pos + 1);
        }
        expr_model(tokens, m.start().bump(tokens), 0).0.expect(
            tokens,
            TokenKind::RRoundBracket,
        ).complete(m.log.len() as int, SyntaxKind::RoundBracketExpr)
    }
}

/// What a rule that yields a node promises of it: it starts within the log.
pub open spec fn is_node_of(done: CompletedMarker, p: &Parser) -> bool {
    done.pos() < p.log().len() && p.log()[done.pos() as int] is StartNode
}

/// Parses an expression. `None` if no expression starts here: then an error
/// was raised.
pub fn expr(p: &mut Parser) -> (done: Option<CompletedMarker>)
    requires
        old(p).wf(),
    ensures
        final(p).advances(old(p), 1),
        old(p).lookahead() is Some ==> final(p).consumed(old(p), 16),
        done is Some <==> starts_expr(old(p).lookahead()),
        done matches Some(d) ==> is_node_of(d, final(p)),
        (final(p).model(), node_pos(done)) == expr_model(old(p).tokens(), old(p).model(), 0),
    decreases old(p).tokens().len() - old(p).pos(), 3int,
{
    expr_binding_power(p, 0)
}

/// Parses an expression whose binary operators all bind at least as tightly
/// on the left as `min_binding_power`; a looser operator is left for the
/// caller. Each operator taken wraps the expression so far and its right-hand
/// side in an `InfixExpr` node.
pub fn expr_binding_power(p: &mut Parser, min_binding_power: u8) -> (done: Option<
    CompletedMarker,
>)
    requires
        old(p).wf(),
    ensures
        final(p).advances(old(p), 1),
        old(p).lookahead() is Some ==> final(p).consumed(old(p), 16),
        done is Some <==> starts_expr(old(p).lookahead()),
        done matches Some(d) ==> is_node_of(d, final(p)),
        (final(p).model(), node_pos(done)) == expr_model(
            old(p).tokens(),
            old(p).model(),
            min_binding_power,
        ),
    decreases old(p).tokens().len() - old(p).pos(), 2int,
{
    let ghost tokens = p.tokens();
    let mut lhs = match lhs(p) {
        Some(lhs) => lhs,
        None => {
            return None;
        },
    };
    proof {
        p.lemma_wf();
    }
    loop
        invariant_except_break
            infix_model(tokens, p.model(), lhs.pos() as int, min_binding_power) == expr_model(
                tokens,
                old(p).model(),
                min_binding_power,
            ),
        invariant
            p.consumed(old(p), 16),
            is_node_of(lhs, p),
            tokens == p.tokens(),
        ensures
            p.consumed(old(p), 16),
            is_node_of(lhs, p),
            (p.model(), Some(lhs.pos() as int)) == expr_model(
                tokens,
                old(p).model(),
                min_binding_power,
            ),
        decreases p.tokens().len() - p.pos(),
    {

        let op = if p.at(TokenKind::Plus) {
            BinaryOp::Add
        } else if p.at(TokenKind::Minus) {
            BinaryOp::Sub
        } else if p.at(TokenKind::Star) {
            BinaryOp::Mul
        } else if p.at(TokenKind::Slash) {
            BinaryOp::Div
        } else {
            break ;
        };

        let (left_binding_power, right_binding_power) = op.binding_power();

        if left_binding_power < min_binding_power {
            break ;
        }
        p.bump();

        let marker = lhs.precede(p);
        let parsed_rhs = expr_binding_power(p, right_binding_power).is_some();
        lhs = marker.complete(p, SyntaxKind::InfixExpr);
        proof {
            assert(p.open() =~= old(p).open());
            p.lemma_wf();
        }

        if !parsed_rhs {
            break ;
        }
    }

    Some(lhs)
}

/// The operand of an expression: a literal, a variable reference, a negation
/// or a parenthesized expression. Anything else raises an error.
fn lhs(p: &mut Parser) -> (done: Option<CompletedMarker>)
    requires
        old(p).wf(),
    ensures
        final(p).advances(old(p), 1),
        old(p).lookahead() is Some ==> final(p).consumed(old(p), 16),
        done is Some <==> starts_expr(old(p).lookahead()),
        done matches Some(d) ==> is_node_of(d, final(p)),
        (final(p).model(), node_pos(done)) == lhs_model(old(p).tokens(), old(p).model()),
    decreases old(p).tokens().len() - old(p).pos(), 1int,
{
    let marker = if p.at(TokenKind::Number) {
        literal(p)
    } else if p.at(TokenKind::Ident) {
        variable_ref(p)
    } else if p.at(TokenKind::Minus) {
        prefix_expr(p)
    } else if p.at(TokenKind::LRoundBracket) {
        round_bracket_expr(p)
    } else {
        p.error();
        return None;
    };

    Some(marker)
}

fn literal(p: &mut Parser) -> (done: CompletedMarker)
    requires
        old(p).wf(),
        old(p).lookahead() == Some(TokenKind::Number),
    ensures
        final(p).consumed(old(p), 16),
        is_node_of(done, final(p)),
        final(p).model() == literal_model(old(p).tokens(), old(p).model()),
        done.pos() == old(p).log().len(),
{
    let marker = p.start();
    p.bump();
    let done = marker.complete(p, SyntaxKind::Literal);
    proof {
        assert(p.open() =~= old(p).open());
    }
    done
}

fn variable_ref(p: &mut Parser) -> (done: CompletedMarker)
    requires
        old(p).wf(),
        old(p).lookahead() == Some(TokenKind::Ident),
    ensures
        final(p).consumed(old(p), 16),
        is_node_of(done, final(p)),
        final(p).model() == variable_ref_model(old(p).tokens(), old(p).model()),
        done.pos() == old(p).log().len(),
{
    let marker = p.start();
    p.bump();
    let done = marker.complete(p, SyntaxKind::VariableRef);
    proof {
        assert(p.open() =~= old(p).open());
    }
    done
}

fn prefix_expr(p: &mut Parser) -> (done: CompletedMarker)
    requires
        old(p).wf(),
        old(p).lookahead() == Some(TokenKind::Minus),
    ensures
        final(p).consumed(old(p), 16),
        is_node_of(done, final(p)),
        final(p).model() == prefix_model(old(p).tokens(), old(p).model()),
        done.pos() == old(p).log().len(),
    decreases old(p).tokens().len() - old(p).pos(), 0int,
{
    let marker = p.start();

    let op = UnaryOp::Neg;
    let ((), right_binding_power) = op.binding_power();

    p.bump();

    let _ = expr_binding_power(p, right_binding_power);
    let done = marker.complete(p, SyntaxKind::PrefixExpr);
    proof {
        assert(p.open() =~= old(p).open());
    }
    done
}

fn round_bracket_expr(p: &mut Parser) -> (done: CompletedMarker)
    requires
        old(p).wf(),
        old(p).lookahead() == Some(TokenKind::LRoundBracket),
    ensures
        final(p).consumed(old(p), 16),
        is_node_of(done, final(p)),
        final(p).model() == round_bracket_model(old(p).tokens(), old(p).model()),
        done.pos() == old(p).log().len(),
    decreases old(p).tokens().len() - old(p).pos(), 0int,
{
    let marker = p.start();
    p.bump();
    let _ = expr_binding_power(p, 0);
    p.expect(TokenKind::RRoundBracket);
    let done = marker.complete(p, SyntaxKind::RoundBracketExpr);
    proof {
        assert(p.open() =~= old(p).open());
    }
    done
}

} // verus!
