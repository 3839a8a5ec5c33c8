//! The syntax tree, which rowan holds, and its model as a sequence of steps.

use crate::syntax::SYNTAX_KIND_COUNT;
use crate::text::{byte_len, lemma_byte_len_concat};
use rowan::{GreenNode, GreenNodeBuilder, NodeOrToken, WalkEvent};
use vstd::prelude::*;

verus! {

/// One step of building a tree, or of walking it in preorder: a node opens,
/// a token stands, the innermost open node closes.
pub enum TreeStep {
    Open(u16),
    Leaf(u16, Seq<char>),
    Close,
}

/// One item of a walk through a finished tree: a node or a token is entered
/// or left.
#[derive(Debug, PartialEq)]
pub enum TreeItem {
    Node { kind: u16 },
    Token { kind: u16, text: String },
    EndNode,
    EndToken,
}

/// `GreenNode` of rowan: a finished tree, known by the walk through it.
#[verifier::external_type_specification]
#[verifier::external_body]
pub struct ExGreenNode(GreenNode);

/// `GreenNodeBuilder` of rowan: a tree in the making, known by the steps it
/// has been given.
#[verifier::external_type_specification]
#[verifier::external_body]
pub struct ExGreenNodeBuilder<'cache>(GreenNodeBuilder<'cache>);

/// The steps a builder has been given so far, in order.
pub uninterp spec fn built(builder: GreenNodeBuilder<'static>) -> Seq<TreeStep>;

/// The preorder walk of a tree: each node on entering and on leaving, each
/// token on entering and on leaving.
pub uninterp spec fn tree_items(node: GreenNode) -> Seq<TreeItem>;

/// What a step adds to the number of open nodes.
pub open spec fn step_delta(step: TreeStep) -> int {
    match step {
        TreeStep::Open(_) => 1,
        TreeStep::Leaf(_, _) => 0,
        TreeStep::Close => -1,
    }
}

/// The number of nodes that the steps have opened and not closed.
pub open spec fn tree_depth(steps: Seq<TreeStep>) -> int
    decreases steps.len(),
{
    if steps.len() == 0 {
        0
    } else {
        tree_depth(steps.drop_last()) + step_delta(steps.last())
    }
}

/// The text of the tokens among the steps, concatenated in order.
pub open spec fn leaf_text(steps: Seq<TreeStep>) -> Seq<char>
    decreases steps.len(),
{
    if steps.len() == 0 {
        Seq::empty()
    } else {
        leaf_text(steps.drop_last()) + match steps.last() {
            TreeStep::Leaf(_, text) => text,
            _ => Seq::empty(),
        }
    }
}

/// The tokens among the steps, in order.
pub open spec fn leaves(steps: Seq<TreeStep>) -> Seq<TreeStep>
    decreases steps.len(),
{
    if steps.len() == 0 {
        Seq::empty()
    } else if steps.last() is Leaf {
        leaves(steps.drop_last()).push(steps.last())
    } else {
        leaves(steps.drop_last())
    }
}

/// Whether the kind of a step is the raw tag of a syntax kind.
pub open spec fn valid_step(step: TreeStep) -> bool {
    match step {
        TreeStep::Open(kind) => kind < SYNTAX_KIND_COUNT,
        TreeStep::Leaf(kind, _) => kind < SYNTAX_KIND_COUNT,
        TreeStep::Close => true,
    }
}

/// Whether every kind among the steps is the raw tag of a syntax kind.
pub open spec fn kinds_valid(steps: Seq<TreeStep>) -> bool {
    forall|i: int| 0 <= i < steps.len() ==> valid_step(#[trigger] steps[i])
}

/// The steps describe exactly one tree: they open with a node that stays
/// open until the last step closes it.
pub open spec fn is_single_tree(steps: Seq<TreeStep>) -> bool {
    &&& steps.len() >= 2
    &&& steps[0] is Open
    &&& tree_depth(steps) == 0
    &&& forall|k: int| 0 < k < steps.len() ==> tree_depth(#[trigger] steps.take(k)) >= 1
}

/// The steps that a walk stands for: the items without the leaving of
/// tokens.
pub open spec fn steps_of(items: Seq<TreeItem>) -> Seq<TreeStep>
    decreases items.len(),
{
    if items.len() == 0 {
        Seq::empty()
    } else {
        let rest = steps_of(items.drop_last());
        match items.last() {
            TreeItem::Node { kind } => rest.push(TreeStep::Open(kind)),
            TreeItem::Token { kind, text } => rest.push(TreeStep::Leaf(kind, text@)),
            TreeItem::EndNode => rest.push(TreeStep::Close),
            TreeItem::EndToken => rest,
        }
    }
}

/// `GreenNodeBuilder::new` of rowan: a builder that has been given no step.
#[verifier::external_body]
pub(crate) fn builder_new() -> (builder: GreenNodeBuilder<'static>)
    ensures
        built(builder) == Seq::<TreeStep>::empty(),
{
    GreenNodeBuilder::new()
}

/// `GreenNodeBuilder::start_node` of rowan: opens a node of the given raw
/// kind inside the innermost open node.
#[verifier::external_body]
pub(crate) fn builder_start_node(builder: &mut GreenNodeBuilder<'static>, kind: u16)
    ensures
        built(*final(builder)) == built(*old(builder)).push(TreeStep::Open(kind)),
{
    builder.start_node(rowan::SyntaxKind(kind))
}

/// `GreenNodeBuilder::token` of rowan: adds a token of the given raw kind and
/// text as the next child of the innermost open node.
#[verifier::external_body]
pub(crate) fn builder_token(builder: &mut GreenNodeBuilder<'static>, kind: u16, text: &str)
    ensures
        built(*final(builder)) == built(*old(builder)).push(TreeStep::Leaf(kind, text@)),
{
    builder.token(rowan::SyntaxKind(kind), text)
}

/// `GreenNodeBuilder::finish_node` of rowan: closes the innermost open node.
/// It panics where no node is open, and where the text below the node is
/// longer than a `u32` can tell: both are left out.
#[verifier::external_body]
pub(crate) fn builder_finish_node(builder: &mut GreenNodeBuilder<'static>)
    requires
        tree_depth(built(*old(builder))) >= 1,
        byte_len(leaf_text(built(*old(builder)))) <= u32::MAX,
    ensures
        built(*final(builder)) == built(*old(builder)).push(TreeStep::Close),
{
    builder.finish_node()
}

/// `GreenNodeBuilder::finish` of rowan: the tree that was built. It panics
/// unless exactly one node was built at the top: the steps must make a single
/// tree. A preorder walk of the result passes the steps the builder was
/// given, in the order it was given them.
#[verifier::external_body]
pub(crate) fn builder_finish(builder: GreenNodeBuilder<'static>) -> (node: GreenNode)
    requires
        is_single_tree(built(builder)),
    ensures
        steps_of(tree_items(node)) == built(builder),
{
    builder.finish()
}

/// `SyntaxNode::preorder_with_tokens` of rowan, on the root of the tree: one
/// item for each event of the walk, with the kind and, for a token, the text
/// that rowan reports.
#[verifier::external_body]
pub(crate) fn walk(node: &GreenNode) -> (items: Vec<TreeItem>)
    ensures
        items@ == tree_items(*node),
{
    rowan::cursor::SyntaxNode::new_root(node.clone())
        .preorder_with_tokens()
        .map(|event| match event {
            WalkEvent::Enter(NodeOrToken::Node(n)) => TreeItem::Node { kind: n.kind().0 },
            WalkEvent::Enter(NodeOrToken::Token(t)) => {
                TreeItem::Token { kind: t.kind().0, text: t.text().into() }
            },
            WalkEvent::Leave(NodeOrToken::Node(_)) => TreeItem::EndNode,
            WalkEvent::Leave(NodeOrToken::Token(_)) => TreeItem::EndToken,
        })
        .collect()
}

/// Appending a step adds its delta to the depth and its text to the text.
pub proof fn lemma_step_push(steps: Seq<TreeStep>, step: TreeStep)
    ensures
        tree_depth(steps.push(step)) == tree_depth(steps) + step_delta(step),
        leaf_text(steps.push(step)) == leaf_text(steps) + match step {
            TreeStep::Leaf(_, text) => text,
            _ => Seq::empty(),
        },
        leaves(steps.push(step)) == if step is Leaf {
            leaves(steps).push(step)
        } else {
            leaves(steps)
        },
{
    assert(steps.push(step).drop_last() =~= steps);
}

/// The text of two stretches of steps, one after the other, is the text of
/// the first followed by the text of the second; so is its length in bytes.
/// A node covers the bytes of the stretch between its opening and its
/// closing, so this says that a node's range is the ranges of the stretches
/// it is cut into, laid end to end without gap or overlap.
pub proof fn lemma_leaf_text_concat(a: Seq<TreeStep>, b: Seq<TreeStep>)
    ensures
        leaf_text(a + b) == leaf_text(a) + leaf_text(b),
        byte_len(leaf_text(a + b)) == byte_len(leaf_text(a)) + byte_len(leaf_text(b)),
        tree_depth(a + b) == tree_depth(a) + tree_depth(b),
    decreases b.len(),
{
    if b.len() == 0 {
        assert(a + b =~= a);
        assert(leaf_text(a) + Seq::<char>::empty() =~= leaf_text(a));
    } else {
        assert((a + b).drop_last() =~= a + b.drop_last());
        lemma_leaf_text_concat(a, b.drop_last());
        let tail = match b.last() {
            TreeStep::Leaf(_, text) => text,
            _ => Seq::empty(),
        };
        assert(leaf_text(a + b) =~= leaf_text(a) + leaf_text(b.drop_last()) + tail);
        assert(leaf_text(a) + leaf_text(b) =~= leaf_text(a) + leaf_text(b.drop_last()) + tail);
    }
    lemma_byte_len_concat(leaf_text(a), leaf_text(b));
}

} // verus!
