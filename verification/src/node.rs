//! The tree as nodes and tokens that can be asked for their kind, their
//! range, their text and their children.

use crate::ranges::{
    children, close_from, close_of, end_of, is_layout, layout, lemma_close_from,
    lemma_close_split, lemma_offset_monotone, lemma_root_range, lemma_same_steps, same_steps,
    start_of, strip, Layout,
};
use crate::span::Span;
use crate::syntax::{Drip, SyntaxKind};
use crate::text::byte_len;
use crate::tree::{is_single_tree, kinds_valid, leaf_text, steps_of, TreeItem, TreeStep};
use vstd::prelude::*;

verus! {

/// A tree, laid out for questions: its steps, with the range of each node
/// and token and the place where each node is closed.
#[derive(Debug)]
pub struct SyntaxTree {
    items: Vec<TreeItem>,
    places: Layout,
}

/// The place of the first token among the steps from `from` up to `end`;
/// `None` if there is none.
pub open spec fn first_leaf(steps: Seq<TreeStep>, from: int, end: int) -> Option<int>
    decreases end - from,
{
    if from < 0 || from >= end || from >= steps.len() {
        None
    } else if steps[from] is Leaf {
        Some(from)
    } else {
        first_leaf(steps, from + 1, end)
    }
}

/// The places among `places` where a node opens, in order.
pub open spec fn nodes_among(steps: Seq<TreeStep>, places: Seq<int>) -> Seq<int>
    decreases places.len(),
{
    if places.len() == 0 {
        Seq::empty()
    } else if steps[places.last()] is Open {
        nodes_among(steps, places.drop_last()).push(places.last())
    } else {
        nodes_among(steps, places.drop_last())
    }
}

impl SyntaxTree {
    #[verifier::type_invariant]
    spec fn laid_out(self) -> bool {
        let steps = steps_of(self.items@);
        &&& same_steps(self.items@, steps)
        &&& is_single_tree(steps)
        &&& kinds_valid(steps)
        &&& byte_len(leaf_text(steps)) <= u32::MAX
        &&& is_layout(self.places, steps)
    }

    /// The tree, as the steps of a walk through it in preorder.
    pub closed spec fn steps(&self) -> Seq<TreeStep> {
        steps_of(self.items@)
    }

    /// The tree that a walk goes through.
    pub(crate) fn build(items: Vec<TreeItem>) -> (tree: Self)
        requires
            is_single_tree(steps_of(items@)),
            kinds_valid(steps_of(items@)),
            byte_len(leaf_text(steps_of(items@))) <= u32::MAX,
        ensures
            tree.steps() == steps_of(items@),
    {
        let ghost steps = steps_of(items@);
        let items = strip(items);
        proof {
            lemma_same_steps(items@, steps);
        }
        let places = layout(&items, Ghost(steps));
        Self { items, places }
    }

    /// The root of the tree.
    pub fn root(&self) -> (root: SyntaxNode<'_>)
        ensures
            root.tree() == self,
            root.pos() == 0,
    {
        proof {
            use_type_invariant(self);
        }
        SyntaxNode { tree: self, at: 0 }
    }
}

/// A node of a tree.
#[derive(Clone, Copy, Debug)]
pub struct SyntaxNode<'t> {
    tree: &'t SyntaxTree,
    at: usize,
}

/// A token of a tree.
#[derive(Clone, Copy, Debug)]
pub struct SyntaxToken<'t> {
    tree: &'t SyntaxTree,
    at: usize,
}

/// A node or a token.
#[derive(Clone, Copy, Debug)]
pub enum SyntaxElement<'t> {
    Node(SyntaxNode<'t>),
    Token(SyntaxToken<'t>),
}

/// The kind of the node or token at a place; `None` at a closing step.
pub open spec fn kind_of(steps: Seq<TreeStep>, at: int) -> Option<SyntaxKind> {
    match steps[at] {
        TreeStep::Open(raw) => SyntaxKind::spec_from_raw(raw),
        TreeStep::Leaf(raw, _) => SyntaxKind::spec_from_raw(raw),
        TreeStep::Close => None,
    }
}

/// The text of the token at a place.
pub open spec fn text_at(steps: Seq<TreeStep>, at: int) -> Seq<char> {
    match steps[at] {
        TreeStep::Leaf(_, text) => text,
        _ => Seq::empty(),
    }
}

/// The places of the elements, in order.
pub open spec fn places_of(elements: Seq<SyntaxElement>) -> Seq<int> {
    elements.map_values(|e: SyntaxElement| e.pos())
}

/// The places of the nodes, in order.
pub open spec fn node_places(nodes: Seq<SyntaxNode>) -> Seq<int> {
    nodes.map_values(|n: SyntaxNode| n.pos())
}

impl<'t> SyntaxElement<'t> {
    /// The tree of the element.
    pub open spec fn tree(&self) -> &SyntaxTree {
        match self {
            SyntaxElement::Node(n) => n.tree(),
            SyntaxElement::Token(t) => t.tree(),
        }
    }

    /// The place of the element among the steps of its tree.
    pub open spec fn pos(&self) -> int {
        match self {
            SyntaxElement::Node(n) => n.pos(),
            SyntaxElement::Token(t) => t.pos(),
        }
    }

    /// The element as a token, if it is one.
    pub fn into_token(self) -> (token: Option<SyntaxToken<'t>>)
        ensures
            token == match self {
                SyntaxElement::Token(t) => Some(t),
                SyntaxElement::Node(_) => None,
            },
    {
        match self {
            SyntaxElement::Token(t) => Some(t),
            SyntaxElement::Node(_) => None,
        }
    }

    /// The element as a node, if it is one.
    pub fn into_node(self) -> (node: Option<SyntaxNode<'t>>)
        ensures
            node == match self {
                SyntaxElement::Node(n) => Some(n),
                SyntaxElement::Token(_) => None,
            },
    {
        match self {
            SyntaxElement::Node(n) => Some(n),
            SyntaxElement::Token(_) => None,
        }
    }
}

impl<'t> SyntaxToken<'t> {
    #[verifier::type_invariant]
    spec fn stands_on_a_token(self) -> bool {
        self.at < self.tree.items@.len() && self.tree.items@[self.at as int] is Token
    }

    /// The tree of the token.
    pub closed spec fn tree(&self) -> &SyntaxTree {
        self.tree
    }

    /// The place of the token among the steps of its tree.
    pub closed spec fn pos(&self) -> int {
        self.at as int
    }

    /// The kind of the token.
    pub fn kind(&self) -> (kind: SyntaxKind)
        ensures
            self.tree().steps()[self.pos()] is Leaf,
            kind_of(self.tree().steps(), self.pos()) == Some(kind),
    {
        let tree = self.tree;
        proof {
            use_type_invariant(self);
            use_type_invariant(tree);
        }
        match &tree.items[self.at] {
            TreeItem::Token { kind, .. } => Drip::kind_from_raw(*kind),
            _ => SyntaxKind::Error,
        }
    }

    /// The text of the token.
    pub fn text(&self) -> (text: &'t str)
        ensures
            self.tree().steps()[self.pos()] is Leaf,
            text@ == text_at(self.tree().steps(), self.pos()),
    {
        let tree = self.tree;
        proof {
            use_type_invariant(self);
            use_type_invariant(tree);
        }
        match &tree.items[self.at] {
            TreeItem::Token { text, .. } => text.as_str(),
            _ => "",
        }
    }

    /// The bytes of the text that the token covers.
    pub fn text_range(&self) -> (range: Span)
        ensures
            range.start == start_of(self.tree().steps(), self.pos()),
            range.end == end_of(self.tree().steps(), self.pos()),
    {
        let tree = self.tree;
        proof {
            use_type_invariant(self);
            use_type_invariant(tree);
            let steps = tree.steps();
            assert(tree.places.starts@[self.at as int] == start_of(steps, self.at as int));
            lemma_offset_monotone(steps, self.at as int, self.at + 1);
        }
        Span::new(tree.places.starts[self.at], tree.places.ends[self.at])
    }
}

impl<'t> SyntaxNode<'t> {
    #[verifier::type_invariant]
    spec fn stands_on_a_node(self) -> bool {
        self.at < self.tree.items@.len() && self.tree.items@[self.at as int] is Node
    }

    /// The tree of the node.
    pub closed spec fn tree(&self) -> &SyntaxTree {
        self.tree
    }

    /// The place of the node among the steps of its tree: the place of the
    /// step that opens it.
    pub closed spec fn pos(&self) -> int {
        self.at as int
    }

    /// The kind of the node.
    pub fn kind(&self) -> (kind: SyntaxKind)
        ensures
            self.tree().steps()[self.pos()] is Open,
            kind_of(self.tree().steps(), self.pos()) == Some(kind),
    {
        let tree = self.tree;
        proof {
            use_type_invariant(self);
            use_type_invariant(tree);
        }
        match &tree.items[self.at] {
            TreeItem::Node { kind } => Drip::kind_from_raw(*kind),
            _ => SyntaxKind::Error,
        }
    }

    /// The bytes of the text that the node covers.
    pub fn text_range(&self) -> (range: Span)
        ensures
            range.start == start_of(self.tree().steps(), self.pos()),
            range.end == end_of(self.tree().steps(), self.pos()),
    {
        let tree = self.tree;
        proof {
            use_type_invariant(self);
            use_type_invariant(tree);
            let steps = tree.steps();
            assert(tree.places.starts@[self.at as int] == start_of(steps, self.at as int));
            lemma_close_from(steps, self.at + 1, 0);
            lemma_offset_monotone(steps, self.at as int, close_of(steps, self.at as int));
        }
        Span::new(tree.places.starts[self.at], tree.places.ends[self.at])
    }

    /// The children of the node, nodes and tokens, in the order of the text.
    pub fn children_with_tokens(&self) -> (elements: Vec<SyntaxElement<'t>>)
        ensures
            places_of(elements@) == children(self.tree().steps(), self.pos()),
            forall|k: int|
                0 <= k < elements@.len() ==> (#[trigger] elements@[k]).tree() == self.tree() && (
                elements@[k] is Node <==> self.tree().steps()[elements@[k].pos()] is Open),
    {
        let tree = self.tree;
        proof {
            use_type_invariant(self);
            use_type_invariant(tree);
        }
        let ghost steps = tree.steps();
        let n = tree.items.len();
        let close = tree.places.closes[self.at];
        proof {
            assert(tree.places.starts@[self.at as int] == start_of(steps, self.at as int));
            lemma_close_from(steps, self.at + 1, 0);
        }
        let mut elements: Vec<SyntaxElement<'t>> = Vec::new();
        let mut c: usize = self.at + 1;
        proof {
            assert(places_of(elements@) =~= Seq::<int>::empty());
            assert(Seq::<int>::empty() + crate::ranges::siblings(steps, c as int, close as int)
                =~= crate::ranges::siblings(steps, c as int, close as int));
        }
        while c < close
            invariant
                steps == tree.steps(),
                n == steps.len(),
                n == tree.items@.len(),
                same_steps(tree.items@, steps),
                is_layout(tree.places, steps),
                tree == self.tree(),
                self.at < c <= close <= n,
                c < close ==> close_from(steps, c as int, 0) == close,
                places_of(elements@) + crate::ranges::siblings(steps, c as int, close as int)
                    == children(steps, self.at as int),
                forall|k: int|
                    0 <= k < elements@.len() ==> (#[trigger] elements@[k]).tree() == self.tree()
                        && (elements@[k] is Node <==> steps[elements@[k].pos()] is Open),
            decreases close - c,
        {
            let ghost before = elements@;
            proof {
                assert(!(tree.items@[c as int] is EndToken));
                assert(tree.places.starts@[c as int] == start_of(steps, c as int));
            }
            let next: usize = match &tree.items[c] {
                TreeItem::Node { .. } => {
                    proof {
                        assert(steps[c as int] is Open);
                        assert(tree.places.closes@[c as int] == close_of(steps, c as int));
                        lemma_close_from(steps, c + 1, 0);
                        lemma_close_split(steps, c + 1, 0);
                        let inner = close_of(steps, c as int);
                        if inner < n {
                            lemma_close_from(steps, inner + 1, 0);
                        }
                    }
                    elements.push(SyntaxElement::Node(SyntaxNode { tree, at: c }));
                    if tree.places.closes[c] < close {
                        tree.places.closes[c] + 1
                    } else {
                        close
                    }
                },
                TreeItem::Token { .. } => {
                    proof {
                        assert(steps[c as int] is Leaf);
                    }
                    elements.push(SyntaxElement::Token(SyntaxToken { tree, at: c }));
                    c + 1
                },
                _ => {
                    proof {
                        assert(steps[c as int] is Close);
                    }
                    c + 1
                },
            };
            proof {
                let rest = crate::ranges::siblings(steps, next as int, close as int);
                assert(crate::ranges::siblings(steps, c as int, close as int) =~= seq![c as int]
                    + rest);
                assert(places_of(elements@) =~= places_of(before).push(c as int));
                assert(places_of(before).push(c as int) + rest =~= places_of(before) + (seq![
                    c as int,
                ] + rest));
            }
            c = next;
        }
        proof {
            assert(places_of(elements@) + Seq::<int>::empty() =~= places_of(elements@));
        }
        elements
    }

    /// The children of the node that are nodes, in the order of the text.
    pub fn children(&self) -> (nodes: Vec<SyntaxNode<'t>>)
        ensures
            node_places(nodes@) == nodes_among(
                self.tree().steps(),
                children(self.tree().steps(), self.pos()),
            ),
            forall|k: int| 0 <= k < nodes@.len() ==> (#[trigger] nodes@[k]).tree() == self.tree(),
    {
        let elements = self.children_with_tokens();
        let ghost steps = self.tree().steps();
        let ghost places = children(steps, self.pos());
        let n = elements.len();
        let mut nodes: Vec<SyntaxNode<'t>> = Vec::new();
        let mut i: usize = 0;
        proof {
            assert(places.take(0) =~= Seq::<int>::empty());
            assert(node_places(nodes@) =~= Seq::<int>::empty());
        }
        while i < n
            invariant
                n == elements@.len(),
                i <= n,
                places_of(elements@) == places,
                steps == self.tree().steps(),
                forall|k: int|
                    0 <= k < elements@.len() ==> (#[trigger] elements@[k]).tree() == self.tree()
                        && (elements@[k] is Node <==> steps[elements@[k].pos()] is Open),
                node_places(nodes@) == nodes_among(steps, places.take(i as int)),
                forall|k: int| 0 <= k < nodes@.len() ==> (#[trigger] nodes@[k]).tree() == self.tree(),
            decreases n - i,
        {
            let ghost before = nodes@;
            proof {
                assert(places.take(i + 1).drop_last() =~= places.take(i as int));
                assert(places[i as int] == elements@[i as int].pos());
                assert(elements@[i as int].tree() == self.tree());
            }
            match elements[i] {
                SyntaxElement::Node(node) => {
                    nodes.push(node);
                    proof {
                        assert(node_places(nodes@) =~= node_places(before).push(node.pos()));
                    }
                },
                SyntaxElement::Token(_) => {},
            }
            i += 1;
        }
        proof {
            assert(places.take(n as int) =~= places);
        }
        nodes
    }

    /// The first token of the text that the node covers; `None` for a node
    /// that covers no token.
    pub fn first_token(&self) -> (token: Option<SyntaxToken<'t>>)
        ensures
            match token {
                Some(t) => t.tree() == self.tree() && Some(t.pos()) == first_leaf(
                    self.tree().steps(),
                    self.pos() + 1,
                    close_of(self.tree().steps(), self.pos()),
                ),
                None => first_leaf(
                    self.tree().steps(),
                    self.pos() + 1,
                    close_of(self.tree().steps(), self.pos()),
                ) is None,
            },
    {
        let tree = self.tree;
        proof {
            use_type_invariant(self);
            use_type_invariant(tree);
        }
        let ghost steps = tree.steps();
        let n = tree.items.len();
        let close = tree.places.closes[self.at];
        proof {
            assert(tree.places.starts@[self.at as int] == start_of(steps, self.at as int));
            lemma_close_from(steps, self.at + 1, 0);
        }
        let mut c: usize = self.at + 1;
        while c < close
            invariant
                steps == tree.steps(),
                n == steps.len(),
                n == tree.items@.len(),
                same_steps(tree.items@, steps),
                tree == self.tree(),
                self.at < c <= close <= n,
                close == close_of(steps, self.at as int),
                first_leaf(steps, c as int, close as int) == first_leaf(
                    steps,
                    self.at + 1,
                    close as int,
                ),
            decreases close - c,
        {
            proof {
                assert(!(tree.items@[c as int] is EndToken));
            }
            match &tree.items[c] {
                TreeItem::Token { .. } => {
                    proof {
                        assert(steps[c as int] is Leaf);
                    }
                    return Some(SyntaxToken { tree, at: c });
                },
                _ => {
                    proof {
                        assert(!(steps[c as int] is Leaf));
                    }
                },
            }
            c += 1;
        }
        None
    }
}

} // verus!
