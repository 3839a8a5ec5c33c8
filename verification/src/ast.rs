//! Typed views of the nodes of the tree.

use crate::node::{
    first_leaf, kind_of, node_places, nodes_among, places_of, text_at, SyntaxElement,
    SyntaxNode, SyntaxToken,
};
use crate::ranges::{children, close_of};
use crate::syntax::SyntaxKind;
use crate::text::{parse_u64, spec_parse_u64};
use crate::tree::TreeStep;
use vstd::prelude::*;

verus! {

/// What is looked for among the children of a node.
#[derive(Clone, Copy, Debug, PartialEq, Eq, Structural)]
pub enum Want {
    /// A statement: a definition of a variable or of a constant, or an
    /// expression.
    Stmt,
    /// An expression.
    Expr,
    /// A binary operator: `+`, `-`, `*` or `/`.
    Operator,
    /// `-`.
    Minus,
    /// An identifier.
    Ident,
}

/// Whether a kind is what is looked for.
pub open spec fn spec_meets(want: Want, kind: Option<SyntaxKind>) -> bool {
    match want {
        Want::Expr => kind == Some(SyntaxKind::InfixExpr) || kind == Some(SyntaxKind::PrefixExpr)
            || kind == Some(SyntaxKind::Literal) || kind == Some(SyntaxKind::RoundBracketExpr)
            || kind == Some(SyntaxKind::VariableRef),
        Want::Stmt => kind == Some(SyntaxKind::VariableDef) || kind == Some(SyntaxKind::ConstDef)
            || kind == Some(SyntaxKind::InfixExpr) || kind == Some(SyntaxKind::PrefixExpr) || kind
            == Some(SyntaxKind::Literal) || kind == Some(SyntaxKind::RoundBracketExpr) || kind
            == Some(SyntaxKind::VariableRef),
        Want::Operator => kind == Some(SyntaxKind::Plus) || kind == Some(SyntaxKind::Minus) || kind
            == Some(SyntaxKind::Star) || kind == Some(SyntaxKind::Slash),
        Want::Minus => kind == Some(SyntaxKind::Minus),
        Want::Ident => kind == Some(SyntaxKind::Ident),
    }
}

/// Whether a kind is what is looked for.
fn meets(want: Want, kind: SyntaxKind) -> (r: bool)
    ensures
        r == spec_meets(want, Some(kind)),
{
    match want {
        Want::Expr => matches!(
            kind,
            SyntaxKind::InfixExpr | SyntaxKind::PrefixExpr | SyntaxKind::Literal
                | SyntaxKind::RoundBracketExpr | SyntaxKind::VariableRef
        ),
        Want::Stmt => matches!(
            kind,
            SyntaxKind::VariableDef | SyntaxKind::ConstDef | SyntaxKind::InfixExpr
                | SyntaxKind::PrefixExpr | SyntaxKind::Literal | SyntaxKind::RoundBracketExpr
                | SyntaxKind::VariableRef
        ),
        Want::Operator => matches!(
            kind,
            SyntaxKind::Plus | SyntaxKind::Minus | SyntaxKind::Star | SyntaxKind::Slash
        ),
        Want::Minus => matches!(kind, SyntaxKind::Minus),
        Want::Ident => matches!(kind, SyntaxKind::Ident),
    }
}

/// The places among `places` whose kind is what is looked for, in order.
pub open spec fn places_where(steps: Seq<TreeStep>, places: Seq<int>, want: Want) -> Seq<int>
    decreases places.len(),
{
    if places.len() == 0 {
        Seq::empty()
    } else if spec_meets(want, kind_of(steps, places.last())) {
        places_where(steps, places.drop_last(), want).push(places.last())
    } else {
        places_where(steps, places.drop_last(), want)
    }
}

/// The places of the tokens among `places` whose kind is what is looked for,
/// in order.
pub open spec fn tokens_where(steps: Seq<TreeStep>, places: Seq<int>, want: Want) -> Seq<int>
    decreases places.len(),
{
    if places.len() == 0 {
        Seq::empty()
    } else if steps[places.last()] is Leaf && spec_meets(want, kind_of(steps, places.last())) {
        tokens_where(steps, places.drop_last(), want).push(places.last())
    } else {
        tokens_where(steps, places.drop_last(), want)
    }
}

/// The places of the child nodes of a node.
pub open spec fn child_nodes(node: SyntaxNode) -> Seq<int> {
    nodes_among(node.tree().steps(), children(node.tree().steps(), node.pos()))
}

/// The places of the child nodes of a node that are expressions.
pub open spec fn child_exprs(node: SyntaxNode) -> Seq<int> {
    places_where(node.tree().steps(), child_nodes(node), Want::Expr)
}

/// The places of the children of a node that are tokens of a kind that is
/// looked for.
pub open spec fn child_tokens(node: SyntaxNode, want: Want) -> Seq<int> {
    tokens_where(node.tree().steps(), children(node.tree().steps(), node.pos()), want)
}

/// Whether the node is the node of the tree of `of` at `at`.
pub open spec fn node_stands_at(node: SyntaxNode, of: SyntaxNode, at: int) -> bool {
    node.tree() == of.tree() && node.pos() == at
}

/// Whether the token is the token of the tree of `of` at `at`.
pub open spec fn token_stands_at(token: SyntaxToken, of: SyntaxNode, at: int) -> bool {
    token.tree() == of.tree() && token.pos() == at
}

/// What is looked for among the first `k` places stands, in the same order,
/// at the start of what is looked for among all of them.
proof fn lemma_places_where_grows(steps: Seq<TreeStep>, places: Seq<int>, want: Want, k: int)
    requires
        0 <= k <= places.len(),
    ensures
        places_where(steps, places.take(k), want).len() <= places_where(steps, places, want).len(),
        forall|j: int|
            0 <= j < places_where(steps, places.take(k), want).len() ==> places_where(
                steps,
                places,
                want,
            )[j] == #[trigger] places_where(steps, places.take(k), want)[j],
    decreases places.len() - k,
{
    if k < places.len() {
        lemma_places_where_grows(steps, places, want, k + 1);
        assert(places.take(k + 1).drop_last() =~= places.take(k));
        let longer = places_where(steps, places.take(k + 1), want);
        let shorter = places_where(steps, places.take(k), want);
        assert forall|j: int| 0 <= j < shorter.len() implies places_where(steps, places, want)[j]
            == #[trigger] shorter[j] by {
            assert(longer[j] == shorter[j]);
        }
    } else {
        assert(places.take(k) =~= places);
    }
}

/// What is looked for among the first `k` places stands, in the same order,
/// at the start of what is looked for among all of them.
proof fn lemma_tokens_where_grows(steps: Seq<TreeStep>, places: Seq<int>, want: Want, k: int)
    requires
        0 <= k <= places.len(),
    ensures
        tokens_where(steps, places.take(k), want).len() <= tokens_where(steps, places, want).len(),
        forall|j: int|
            0 <= j < tokens_where(steps, places.take(k), want).len() ==> tokens_where(
                steps,
                places,
                want,
            )[j] == #[trigger] tokens_where(steps, places.take(k), want)[j],
    decreases places.len() - k,
{
    if k < places.len() {
        lemma_tokens_where_grows(steps, places, want, k + 1);
        assert(places.take(k + 1).drop_last() =~= places.take(k));
        let longer = tokens_where(steps, places.take(k + 1), want);
        let shorter = tokens_where(steps, places.take(k), want);
        assert forall|j: int| 0 <= j < shorter.len() implies tokens_where(steps, places, want)[j]
            == #[trigger] shorter[j] by {
            assert(longer[j] == shorter[j]);
        }
    } else {
        assert(places.take(k) =~= places);
    }
}

/// The `n`-th child node of a node that is an expression, counting from
/// zero.
fn nth_expr<'t>(node: &SyntaxNode<'t>, n: usize) -> (expr: Option<Expr<'t>>)
    ensures
        match expr {
            Some(e) => n < child_exprs(*node).len() && node_stands_at(
                e.node(),
                *node,
                child_exprs(*node)[n as int],
            ) && e.agrees(),
            None => n >= child_exprs(*node).len(),
        },
{
    let nodes = node.children();
    let ghost steps = node.tree().steps();
    let ghost places = child_nodes(*node);
    let len = nodes.len();
    let mut found: usize = 0;
    let mut i: usize = 0;
    proof {
        assert(places.take(0) =~= Seq::<int>::empty());
    }
    while i < len
        invariant
            len == nodes@.len(),
            i <= len,
            steps == node.tree().steps(),
            places == child_nodes(*node),
            node_places(nodes@) == places,
            forall|k: int| 0 <= k < nodes@.len() ==> (#[trigger] nodes@[k]).tree() == node.tree(),
            found == places_where(steps, places.take(i as int), Want::Expr).len(),
            found <= n,
            found <= i,
        decreases len - i,
    {
        proof {
            assert(places.take(i + 1).drop_last() =~= places.take(i as int));
            assert(places[i as int] == nodes@[i as int].pos());
            assert(nodes@[i as int].tree() == node.tree());
        }
        let child = nodes[i];
        if meets(Want::Expr, child.kind()) {
            if found == n {
                proof {
                    lemma_places_where_grows(steps, places, Want::Expr, i + 1);
                    let upto = places_where(steps, places.take(i + 1), Want::Expr);
                    assert(upto[n as int] == places[i as int]);
                }
                return Expr::cast(child);
            }
            found += 1;
        }
        i += 1;
    }
    proof {
        assert(places.take(len as int) =~= places);
    }
    None
}

/// The first child of a node that is a token of a kind that is looked for.
fn first_token_where<'t>(node: &SyntaxNode<'t>, want: Want) -> (token: Option<SyntaxToken<'t>>)
    ensures
        match token {
            Some(t) => child_tokens(*node, want).len() > 0 && token_stands_at(
                t,
                *node,
                child_tokens(*node, want)[0],
            ),
            None => child_tokens(*node, want).len() == 0,
        },
{
    let elements = node.children_with_tokens();
    let ghost steps = node.tree().steps();
    let ghost places = children(steps, node.pos());
    let len = elements.len();
    let mut i: usize = 0;
    proof {
        assert(places.take(0) =~= Seq::<int>::empty());
    }
    while i < len
        invariant
            len == elements@.len(),
            i <= len,
            steps == node.tree().steps(),
            places == children(steps, node.pos()),
            places_of(elements@) == places,
            forall|k: int|
                0 <= k < elements@.len() ==> (#[trigger] elements@[k]).tree() == node.tree() && (
                elements@[k] is Node <==> steps[elements@[k].pos()] is Open),
            tokens_where(steps, places.take(i as int), want).len() == 0,
        decreases len - i,
    {
        proof {
            assert(places.take(i + 1).drop_last() =~= places.take(i as int));
            assert(places[i as int] == elements@[i as int].pos());
            assert(elements@[i as int].tree() == node.tree());
        }
        match elements[i] {
            SyntaxElement::Token(token) => {
                if meets(want, token.kind()) {
                    proof {
                        lemma_tokens_where_grows(steps, places, want, i + 1);
                        let upto = tokens_where(steps, places.take(i + 1), want);
                        assert(upto[0] == places[i as int]);
                    }
                    return Some(token);
                }
            },
            SyntaxElement::Node(_) => {},
        }
        i += 1;
    }
    proof {
        assert(places.take(len as int) =~= places);
    }
    None
}

/// The whole input.
#[derive(Debug)]
pub struct Root<'t>(SyntaxNode<'t>);

impl<'t> Root<'t> {
    /// The node that is viewed.
    pub closed spec fn node(&self) -> SyntaxNode<'t> {
        self.0
    }

    /// The node as the whole input, if it is a `Root` node.
    pub fn cast(node: SyntaxNode<'t>) -> (root: Option<Self>)
        ensures
            match root {
                Some(r) => r.node() == node && kind_of(node.tree().steps(), node.pos()) == Some(
                    SyntaxKind::Root,
                ),
                None => kind_of(node.tree().steps(), node.pos()) != Some(SyntaxKind::Root),
            },
    {
        if node.kind() == SyntaxKind::Root {
            Some(Self(node))
        } else {
            None
        }
    }

    /// The statements of the input: its child nodes that are statements, in
    /// order.
    pub fn stmts(&self) -> (stmts: Vec<Stmt<'t>>)
        ensures
            stmt_places(stmts@) == places_where(
                self.node().tree().steps(),
                child_nodes(self.node()),
                Want::Stmt,
            ),
            forall|k: int|
                0 <= k < stmts@.len() ==> (#[trigger] stmts@[k]).node().tree()
                    == self.node().tree() && stmts@[k].agrees(),
    {
        let nodes = self.0.children();
        let ghost steps = self.node().tree().steps();
        let ghost places = child_nodes(self.node());
        let len = nodes.len();
        let mut stmts: Vec<Stmt<'t>> = Vec::new();
        let mut i: usize = 0;
        proof {
            assert(places.take(0) =~= Seq::<int>::empty());
            assert(stmt_places(stmts@) =~= Seq::<int>::empty());
        }
        while i < len
            invariant
                len == nodes@.len(),
                i <= len,
                steps == self.node().tree().steps(),
                places == child_nodes(self.node()),
                node_places(nodes@) == places,
                forall|k: int|
                    0 <= k < nodes@.len() ==> (#[trigger] nodes@[k]).tree() == self.node().tree(),
                stmt_places(stmts@) == places_where(steps, places.take(i as int), Want::Stmt),
                forall|k: int|
                    0 <= k < stmts@.len() ==> (#[trigger] stmts@[k]).node().tree()
                        == self.node().tree() && stmts@[k].agrees(),
            decreases len - i,
        {
            let ghost before = stmts@;
            proof {
                assert(places.take(i + 1).drop_last() =~= places.take(i as int));
                assert(places[i as int] == nodes@[i as int].pos());
                assert(nodes@[i as int].tree() == self.node().tree());
            }
            match Stmt::cast(nodes[i]) {
                Some(stmt) => {
                    stmts.push(stmt);
                    proof {
                        assert(stmt_places(stmts@) =~= stmt_places(before).push(stmt.node().pos()));
                    }
                },
                None => {},
            }
            i += 1;
        }
        proof {
            assert(places.take(len as int) =~= places);
        }
        stmts
    }
}

/// The places of the nodes of the statements, in order.
pub open spec fn stmt_places(stmts: Seq<Stmt>) -> Seq<int> {
    stmts.map_values(|s: Stmt| s.node().pos())
}

/// A statement.
#[derive(Debug)]
pub enum Stmt<'t> {
    VariableDef(VariableDef<'t>),
    ConstDef(ConstDef<'t>),
    Expr(Expr<'t>),
}

impl<'t> Stmt<'t> {
    /// The node that is viewed.
    pub closed spec fn node(&self) -> SyntaxNode<'t> {
        match self {
            Stmt::VariableDef(d) => d.0,
            Stmt::ConstDef(d) => d.0,
            Stmt::Expr(e) => e.node(),
        }
    }

    /// The kind of node that the variant views.
    pub open spec fn spec_kind(&self) -> SyntaxKind {
        match self {
            Stmt::VariableDef(_) => SyntaxKind::VariableDef,
            Stmt::ConstDef(_) => SyntaxKind::ConstDef,
            Stmt::Expr(e) => e.spec_kind(),
        }
    }

    /// Whether the variant is that of the kind of the node that is viewed.
    pub open spec fn agrees(&self) -> bool {
        kind_of(self.node().tree().steps(), self.node().pos()) == Some(self.spec_kind())
    }

    /// The node as a statement, if it is one: the variant is that of the
    /// kind of the node.
    pub fn cast(node: SyntaxNode<'t>) -> (stmt: Option<Self>)
        ensures
            match stmt {
                Some(s) => s.node() == node && s.agrees(),
                None => !spec_meets(Want::Stmt, kind_of(node.tree().steps(), node.pos())),
            },
    {
        match node.kind() {
            SyntaxKind::VariableDef => Some(Stmt::VariableDef(VariableDef(node))),
            SyntaxKind::ConstDef => Some(Stmt::ConstDef(ConstDef(node))),
            _ => match Expr::cast(node) {
                Some(expr) => Some(Stmt::Expr(expr)),
                None => None,
            },
        }
    }
}

/// An expression.
#[derive(Debug)]
pub enum Expr<'t> {
    BinaryExpr(BinaryExpr<'t>),
    UnaryExpr(UnaryExpr<'t>),
    Literal(Literal<'t>),
    RoundBracketExpr(RoundBracketExpr<'t>),
    VariableRef(VariableRef<'t>),
}

impl<'t> Expr<'t> {
    /// The node that is viewed.
    pub closed spec fn node(&self) -> SyntaxNode<'t> {
        match self {
            Expr::BinaryExpr(e) => e.0,
            Expr::UnaryExpr(e) => e.0,
            Expr::Literal(e) => e.0,
            Expr::RoundBracketExpr(e) => e.0,
            Expr::VariableRef(e) => e.0,
        }
    }

    /// The kind of node that the variant views.
    pub open spec fn spec_kind(&self) -> SyntaxKind {
        match self {
            Expr::BinaryExpr(_) => SyntaxKind::InfixExpr,
            Expr::UnaryExpr(_) => SyntaxKind::PrefixExpr,
            Expr::Literal(_) => SyntaxKind::Literal,
            Expr::RoundBracketExpr(_) => SyntaxKind::RoundBracketExpr,
            Expr::VariableRef(_) => SyntaxKind::VariableRef,
        }
    }

    /// Whether the variant is that of the kind of the node that is viewed.
    pub open spec fn agrees(&self) -> bool {
        kind_of(self.node().tree().steps(), self.node().pos()) == Some(self.spec_kind())
    }

    /// The node as an expression, if it is one: the variant is that of the
    /// kind of the node.
    pub fn cast(node: SyntaxNode<'t>) -> (expr: Option<Self>)
        ensures
            match expr {
                Some(e) => e.node() == node && e.agrees(),
                None => !spec_meets(Want::Expr, kind_of(node.tree().steps(), node.pos())),
            },
    {
        let result = match node.kind() {
            SyntaxKind::InfixExpr => Expr::BinaryExpr(BinaryExpr(node)),
            SyntaxKind::PrefixExpr => Expr::UnaryExpr(UnaryExpr(node)),
            SyntaxKind::Literal => Expr::Literal(Literal(node)),
            SyntaxKind::RoundBracketExpr => Expr::RoundBracketExpr(RoundBracketExpr(node)),
            SyntaxKind::VariableRef => Expr::VariableRef(VariableRef(node)),
            _ => {
                return None;
            },
        };

        Some(result)
    }
}

/// Two expressions with an operator between them.
#[derive(Debug)]
pub struct BinaryExpr<'t>(SyntaxNode<'t>);

impl<'t> BinaryExpr<'t> {
    /// The node that is viewed.
    pub closed spec fn node(&self) -> SyntaxNode<'t> {
        self.0
    }

    /// The left operand: the first child node that is an expression.
    pub fn lhs(&self) -> (expr: Option<Expr<'t>>)
        ensures
            match expr {
                Some(e) => 0 < child_exprs(self.node()).len() && node_stands_at(
                    e.node(),
                    self.node(),
                    child_exprs(self.node())[0],
                ) && e.agrees(),
                None => child_exprs(self.node()).len() == 0,
            },
    {
        nth_expr(&self.0, 0)
    }

    /// The right operand: the second child node that is an expression.
    pub fn rhs(&self) -> (expr: Option<Expr<'t>>)
        ensures
            match expr {
                Some(e) => 1 < child_exprs(self.node()).len() && node_stands_at(
                    e.node(),
                    self.node(),
                    child_exprs(self.node())[1],
                ) && e.agrees(),
                None => child_exprs(self.node()).len() <= 1,
            },
    {
        nth_expr(&self.0, 1)
    }

    /// The operator: the first child that is a token `+`, `-`, `*` or `/`.
    pub fn op(&self) -> (token: Option<SyntaxToken<'t>>)
        ensures
            match token {
                Some(t) => child_tokens(self.node(), Want::Operator).len() > 0 && token_stands_at(
                    t,
                    self.node(),
                    child_tokens(self.node(), Want::Operator)[0],
                ),
                None => child_tokens(self.node(), Want::Operator).len() == 0,
            },
    {
        first_token_where(&self.0, Want::Operator)
    }
}

/// An operator before an expression.
#[derive(Debug)]
pub struct UnaryExpr<'t>(SyntaxNode<'t>);

impl<'t> UnaryExpr<'t> {
    /// The node that is viewed.
    pub closed spec fn node(&self) -> SyntaxNode<'t> {
        self.0
    }

    /// The operand: the first child node that is an expression.
    pub fn expr(&self) -> (expr: Option<Expr<'t>>)
        ensures
            match expr {
                Some(e) => 0 < child_exprs(self.node()).len() && node_stands_at(
                    e.node(),
                    self.node(),
                    child_exprs(self.node())[0],
                ) && e.agrees(),
                None => child_exprs(self.node()).len() == 0,
            },
    {
        nth_expr(&self.0, 0)
    }

    /// The operator: the first child that is a token `-`.
    pub fn op(&self) -> (token: Option<SyntaxToken<'t>>)
        ensures
            match token {
                Some(t) => child_tokens(self.node(), Want::Minus).len() > 0 && token_stands_at(
                    t,
                    self.node(),
                    child_tokens(self.node(), Want::Minus)[0],
                ),
                None => child_tokens(self.node(), Want::Minus).len() == 0,
            },
    {
        first_token_where(&self.0, Want::Minus)
    }
}

/// A number.
#[derive(Debug)]
pub struct Literal<'t>(SyntaxNode<'t>);

impl<'t> Literal<'t> {
    /// The node that is viewed.
    pub closed spec fn node(&self) -> SyntaxNode<'t> {
        self.0
    }

    /// The node as a number, if it is a `Literal` node.
    pub fn cast(node: SyntaxNode<'t>) -> (literal: Option<Self>)
        ensures
            match literal {
                Some(l) => l.node() == node && kind_of(node.tree().steps(), node.pos()) == Some(
                    SyntaxKind::Literal,
                ),
                None => kind_of(node.tree().steps(), node.pos()) != Some(SyntaxKind::Literal),
            },
    {
        if node.kind() == SyntaxKind::Literal {
            Some(Self(node))
        } else {
            None
        }
    }

    /// The value of the number: that of the first token of the node, read as
    /// a whole number in decimal digits; `None` where it is none, or too
    /// large.
    pub fn parse(&self) -> (value: Option<u64>)
        ensures
            value == match first_leaf(
                self.node().tree().steps(),
                self.node().pos() + 1,
                close_of(self.node().tree().steps(), self.node().pos()),
            ) {
                Some(at) => spec_parse_u64(text_at(self.node().tree().steps(), at)),
                None => None,
            },
    {
        match self.0.first_token() {
            Some(token) => parse_u64(token.text()),
            None => None,
        }
    }
}

/// An expression in parentheses.
#[derive(Debug)]
pub struct RoundBracketExpr<'t>(SyntaxNode<'t>);

impl<'t> RoundBracketExpr<'t> {
    /// The node that is viewed.
    pub closed spec fn node(&self) -> SyntaxNode<'t> {
        self.0
    }

    /// The expression inside: the first child node that is an expression.
    pub fn expr(&self) -> (expr: Option<Expr<'t>>)
        ensures
            match expr {
                Some(e) => 0 < child_exprs(self.node()).len() && node_stands_at(
                    e.node(),
                    self.node(),
                    child_exprs(self.node())[0],
                ) && e.agrees(),
                None => child_exprs(self.node()).len() == 0,
            },
    {
        nth_expr(&self.0, 0)
    }
}

/// The definition of a variable.
#[derive(Debug)]
pub struct VariableDef<'t>(SyntaxNode<'t>);

impl<'t> VariableDef<'t> {
    /// The node that is viewed.
    pub closed spec fn node(&self) -> SyntaxNode<'t> {
        self.0
    }

    /// The name: the first child that is an identifier.
    pub fn name(&self) -> (token: Option<SyntaxToken<'t>>)
        ensures
            match token {
                Some(t) => child_tokens(self.node(), Want::Ident).len() > 0 && token_stands_at(
                    t,
                    self.node(),
                    child_tokens(self.node(), Want::Ident)[0],
                ),
                None => child_tokens(self.node(), Want::Ident).len() == 0,
            },
    {
        first_token_where(&self.0, Want::Ident)
    }

    /// The value: the first child node that is an expression.
    pub fn value(&self) -> (expr: Option<Expr<'t>>)
        ensures
            match expr {
                Some(e) => 0 < child_exprs(self.node()).len() && node_stands_at(
                    e.node(),
                    self.node(),
                    child_exprs(self.node())[0],
                ) && e.agrees(),
                None => child_exprs(self.node()).len() == 0,
            },
    {
        nth_expr(&self.0, 0)
    }
}

/// The definition of a constant.
#[derive(Debug)]
pub struct ConstDef<'t>(SyntaxNode<'t>);

impl<'t> ConstDef<'t> {
    /// The node that is viewed.
    pub closed spec fn node(&self) -> SyntaxNode<'t> {
        self.0
    }

    /// The name: the first child that is an identifier.
    pub fn name(&self) -> (token: Option<SyntaxToken<'t>>)
        ensures
            match token {
                Some(t) => child_tokens(self.node(), Want::Ident).len() > 0 && token_stands_at(
                    t,
                    self.node(),
                    child_tokens(self.node(), Want::Ident)[0],
                ),
                None => child_tokens(self.node(), Want::Ident).len() == 0,
            },
    {
        first_token_where(&self.0, Want::Ident)
    }

    /// The value: the first child node that is an expression.
    pub fn value(&self) -> (expr: Option<Expr<'t>>)
        ensures
            match expr {
                Some(e) => 0 < child_exprs(self.node()).len() && node_stands_at(
                    e.node(),
                    self.node(),
                    child_exprs(self.node())[0],
                ) && e.agrees(),
                None => child_exprs(self.node()).len() == 0,
            },
    {
        nth_expr(&self.0, 0)
    }
}

/// The use of a variable.
#[derive(Debug)]
pub struct VariableRef<'t>(SyntaxNode<'t>);

impl<'t> VariableRef<'t> {
    /// The node that is viewed.
    pub closed spec fn node(&self) -> SyntaxNode<'t> {
        self.0
    }

    /// The name: the first token of the node.
    pub fn name(&self) -> (token: Option<SyntaxToken<'t>>)
        ensures
            match token {
                Some(t) => t.tree() == self.node().tree() && Some(t.pos()) == first_leaf(
                    self.node().tree().steps(),
                    self.node().pos() + 1,
                    close_of(self.node().tree().steps(), self.node().pos()),
                ),
                None => first_leaf(
                    self.node().tree().steps(),
                    self.node().pos() + 1,
                    close_of(self.node().tree().steps(), self.node().pos()),
                ) is None,
            },
    {
        self.0.first_token()
    }
}

} // verus!
