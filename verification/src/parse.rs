//! The result of parsing.

use crate::error::ParseError;
use crate::event::ascending;
use crate::grammar::grammar_model;
use crate::model::diags_of;
use crate::node::SyntaxTree;
use crate::lexer::{is_lexed, lemma_lexed_ascend, tokenize, try_tokenize};
use crate::parser::Parser;
use crate::sink::{leaves_of, lemma_replay_plain, tree_of, Sink};
use crate::source::Source;
use crate::text::byte_len;
use crate::token::Token;
use crate::ranges::{end_of, lemma_root_range, start_of};
use crate::render::{debug_text, render};
use crate::tree::{
    is_single_tree, kinds_valid, leaf_text, leaves, steps_of, tree_items, walk, TreeItem,
    TreeStep,
};
use rowan::GreenNode;
use vstd::prelude::*;

verus! {

/// A syntax tree with the diagnostics raised while it was built.
pub struct Parse {
    green_node: GreenNode,
    errors: Vec<ParseError>,
}

impl Parse {
    #[verifier::type_invariant]
    spec fn holds_one_tree(self) -> bool {
        &&& is_single_tree(steps_of(tree_items(self.green_node)))
        &&& kinds_valid(steps_of(tree_items(self.green_node)))
        &&& byte_len(leaf_text(steps_of(tree_items(self.green_node)))) <= u32::MAX
    }

    /// The tree, as the steps of a walk through it in preorder.
    pub open spec fn steps(&self) -> Seq<TreeStep> {
        steps_of(self.items())
    }

    /// The diagnostics, in the order in which they were raised.
    pub closed spec fn diagnostics(&self) -> Seq<ParseError> {
        self.errors@
    }

    pub(crate) fn new(green_node: GreenNode, errors: Vec<ParseError>) -> (parse: Self)
        requires
            is_single_tree(steps_of(tree_items(green_node))),
            kinds_valid(steps_of(tree_items(green_node))),
            byte_len(leaf_text(steps_of(tree_items(green_node)))) <= u32::MAX,
        ensures
            parse.items() == tree_items(green_node),
            parse.diagnostics() == errors@,
    {
        Self { green_node, errors }
    }

    /// The walk through the tree in preorder, with the ranges of its nodes
    /// and tokens.
    pub closed spec fn items(&self) -> Seq<TreeItem> {
        tree_items(self.green_node)
    }

    /// The tree and the diagnostics as text: one line for each node and
    /// token, indented by depth, with kind and byte range, and the text of a
    /// token in quotes; then one line for each diagnostic.
    pub fn debug_tree(&self) -> (text: String)
        ensures
            text@ == debug_text(self.steps(), self.diagnostics()),
    {
        proof {
            use_type_invariant(self);
        }
        let items = walk(&self.green_node);
        render(items, &self.errors)
    }

    /// The tree, laid out for questions about its nodes and tokens.
    pub fn syntax(&self) -> (tree: SyntaxTree)
        ensures
            tree.steps() == self.steps(),
    {
        proof {
            use_type_invariant(self);
        }
        SyntaxTree::build(walk(&self.green_node))
    }

    /// The tree that rowan holds.
    pub fn green_node(&self) -> (node: &GreenNode)
        ensures
            tree_items(*node) == self.items(),
    {
        &self.green_node
    }

    /// The diagnostics, in the order in which they were raised.
    pub fn errors(&self) -> (errors: &Vec<ParseError>)
        ensures
            errors@ == self.diagnostics(),
    {
        &self.errors
    }
}

/// Whether a tree with diagnostics is the parse of the text: the tree is the
/// replay, over the tokens of the text, of the log that the grammar writes
/// for them, and the diagnostics are those that the grammar raises.
pub open spec fn is_parse_of(
    text: Seq<char>,
    steps: Seq<TreeStep>,
    diagnostics: Seq<ParseError>,
) -> bool {
    exists|tokens: Seq<Token>|
        {
            &&& #[trigger] is_lexed(text, tokens)
            &&& steps == tree_of(grammar_model(tokens).log, tokens)
            &&& diags_of(diagnostics) == grammar_model(tokens).errors
            &&& leaves(steps) == leaves_of(tokens)
        }
}

/// Parses the tokens of a text.
fn parse_tokens(tokens: &Vec<Token>, Ghost(text): Ghost<Seq<char>>) -> (parse: Parse)
    requires
        is_lexed(text, tokens@),
        byte_len(text) <= u32::MAX,
    ensures
        leaf_text(parse.steps()) == text,
        is_single_tree(parse.steps()),
        is_parse_of(text, parse.steps(), parse.diagnostics()),
        ascending(parse.diagnostics()),
        start_of(parse.steps(), 0) == 0,
        end_of(parse.steps(), 0) == byte_len(text),
{
    proof {
        lemma_lexed_ascend(text, tokens@);
    }
    let source = Source::new(tokens.as_slice());
    let parser = Parser::new(source);
    let events = parser.parse();
    let ghost log = events@;
    let sink = Sink::new(tokens.as_slice(), events);
    let parse = sink.finish();
    proof {
        lemma_replay_plain(log, tokens@, 0, 0, log.len());
        lemma_root_range(parse.steps());
        assert(is_lexed(text, tokens@));
    }
    parse
}

/// Parses a text. Never fails: what the grammar cannot place is kept in the
/// tree under `Error` nodes and reported in the diagnostics. The tree is
/// lossless: the texts of its tokens, in order, are the text that was parsed,
/// and its root ranges over the whole text. The diagnostics stand in the
/// order of the places they point at. Ranges are byte offsets in a `u32`, so
/// the text must not be longer than a `u32` can tell.
pub fn parse(input: &str) -> (parse: Parse)
    requires
        byte_len(input@) <= u32::MAX,
    ensures
        leaf_text(parse.steps()) == input@,
        is_single_tree(parse.steps()),
        is_parse_of(input@, parse.steps(), parse.diagnostics()),
        ascending(parse.diagnostics()),
        start_of(parse.steps(), 0) == 0,
        end_of(parse.steps(), 0) == byte_len(input@),
{
    let tokens = tokenize(input);
    parse_tokens(&tokens, Ghost(input@))
}

/// Parses a text of any length: `None` for a text that is longer than a
/// `u32` can tell, and else what `parse` gives.
pub fn try_parse(input: &str) -> (parse: Option<Parse>)
    ensures
        match parse {
            Some(p) => {
                &&& byte_len(input@) <= u32::MAX
                &&& leaf_text(p.steps()) == input@
                &&& is_single_tree(p.steps())
                &&& is_parse_of(input@, p.steps(), p.diagnostics())
                &&& ascending(p.diagnostics())
                &&& start_of(p.steps(), 0) == 0
                &&& end_of(p.steps(), 0) == byte_len(input@)
            },
            None => byte_len(input@) > u32::MAX,
        },
{
    match try_tokenize(input) {
        Some(tokens) => Some(parse_tokens(&tokens, Ghost(input@))),
        None => None,
    }
}

} // verus!
