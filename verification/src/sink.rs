//! The sink: replays the event log over the tokens into the tree.

use crate::error::ParseError;
use crate::event::{
    count_finishes, count_starts, count_tokens, depth, diagnostics, is_finished_log,
    lemma_depth_is_difference, Event,
};
use crate::model::plain_log;
use crate::parse::Parse;
use crate::source::{
    count_structural, lemma_count_structural_monotone, lemma_count_structural_step,
    lemma_skip_trivia, skip_trivia,
};
use crate::syntax::{lemma_raw_round_trip, SyntaxKind};
use crate::text::byte_len;
use crate::token::{lemma_text_of_prefix, lemma_text_of_step, text_of, Token};
use crate::tree::{
    builder_finish, builder_finish_node, builder_new, builder_start_node, builder_token, built,
    is_single_tree, kinds_valid, leaf_text, leaves, lemma_step_push, tree_depth, valid_step,
    TreeStep,
};
use rowan::GreenNodeBuilder;
use vstd::prelude::*;

verus! {

/// The step that puts a token into the tree.
pub open spec fn leaf_of(token: Token) -> TreeStep {
    TreeStep::Leaf(SyntaxKind::of_token(token.kind).spec_to_raw(), token.text@)
}

/// The steps that put the tokens into the tree, one for each token.
pub open spec fn leaves_of(tokens: Seq<Token>) -> Seq<TreeStep> {
    tokens.map_values(|token: Token| leaf_of(token))
}

/// The steps for the trivia that stands at `from` and directly after.
pub open spec fn trivia_run(tokens: Seq<Token>, from: int) -> Seq<TreeStep>
    decreases tokens.len() - from,
{
    if 0 <= from < tokens.len() && tokens[from].kind.spec_is_trivia() {
        seq![leaf_of(tokens[from])] + trivia_run(tokens, from + 1)
    } else {
        Seq::empty()
    }
}

/// Where the forward offset of the event at `at` leads: to the start of a
/// node further on, or nowhere.
pub open spec fn chain_next(log: Seq<Event>, at: int, offset: Option<usize>) -> Option<int> {
    match offset {
        Some(d) => if d >= 1 && 0 <= at && at + d < log.len() && log[at + d] is StartNode {
            Some(at + d)
        } else {
            None
        },
        None => None,
    }
}

/// The kinds of the nodes that the chain of forward offsets from `at` leads
/// through, nearest first.
pub open spec fn chain_kinds(log: Seq<Event>, at: int, offset: Option<usize>) -> Seq<SyntaxKind>
    decreases log.len() - at,
{
    match chain_next(log, at, offset) {
        Some(next) => seq![log[next]->kind] + chain_kinds(
            log.update(next, Event::Placeholder),
            next,
            log[next]->offset,
        ),
        None => Seq::empty(),
    }
}

/// The log once the chain from `at` has been followed: every start the chain
/// led through has become a placeholder.
pub open spec fn chain_cleared(log: Seq<Event>, at: int, offset: Option<usize>) -> Seq<Event>
    decreases log.len() - at,
{
    match chain_next(log, at, offset) {
        Some(next) => chain_cleared(log.update(next, Event::Placeholder), next, log[next]->offset),
        None => log,
    }
}

/// The steps that open nodes of the given kinds, the last kind outermost.
pub open spec fn opens(kinds: Seq<SyntaxKind>) -> Seq<TreeStep> {
    Seq::new(kinds.len(), |i: int| TreeStep::Open(kinds[kinds.len() - 1 - i].spec_to_raw()))
}

/// The steps that replaying `left` events of the log from `at` on gives, with
/// the tokens from `cursor` on. A start opens the nodes of its forward chain,
/// outermost first, and then its own; a token event takes the next token; a
/// finish closes a node; after each event the trivia that follows is taken.
/// Events that were replayed, or reached through a chain, become
/// placeholders.
pub open spec fn replay(
    log: Seq<Event>,
    tokens: Seq<Token>,
    at: int,
    cursor: int,
    left: nat,
) -> Seq<TreeStep>
    decreases left,
{
    if left == 0 || at < 0 || at >= log.len() {
        Seq::empty()
    } else {
        let taken = log.update(at, Event::Placeholder);
        let rest = (left - 1) as nat;
        match log[at] {
            Event::StartNode { kind, offset } => opens(seq![kind] + chain_kinds(taken, at, offset))
                + trivia_run(tokens, cursor) + replay(
                chain_cleared(taken, at, offset),
                tokens,
                at + 1,
                skip_trivia(tokens, cursor),
                rest,
            ),
            Event::AddToken => if 0 <= cursor < tokens.len() {
                seq![leaf_of(tokens[cursor])] + trivia_run(tokens, cursor + 1) + replay(
                    taken,
                    tokens,
                    at + 1,
                    skip_trivia(tokens, cursor + 1),
                    rest,
                )
            } else {
                replay(taken, tokens, at + 1, cursor, rest)
            },
            Event::FinishNode => seq![TreeStep::Close] + trivia_run(tokens, cursor) + replay(
                taken,
                tokens,
                at + 1,
                skip_trivia(tokens, cursor),
                rest,
            ),
            _ => trivia_run(tokens, cursor) + replay(
                taken,
                tokens,
                at + 1,
                skip_trivia(tokens, cursor),
                rest,
            ),
        }
    }
}

/// The tree that a finished log describes over the tokens.
pub open spec fn tree_of(log: Seq<Event>, tokens: Seq<Token>) -> Seq<TreeStep> {
    replay(log, tokens, 0, 0, log.len())
}

/// A chain is the same in a log with and without its diagnostics.
proof fn lemma_chain_plain(log: Seq<Event>, at: int, offset: Option<usize>)
    requires
        0 <= at < log.len(),
    ensures
        chain_kinds(plain_log(log), at, offset) == chain_kinds(log, at, offset),
        chain_cleared(plain_log(log), at, offset) == plain_log(chain_cleared(log, at, offset)),
    decreases log.len() - at,
{
    match chain_next(log, at, offset) {
        Some(next) => {
            let taken = log.update(next, Event::Placeholder);
            lemma_chain_plain(taken, next, log[next]->offset);
            assert(plain_log(log).update(next, Event::Placeholder) =~= plain_log(taken));
        },
        None => {},
    }
}

/// The diagnostics of a log add nothing to the tree: the replay of a log
/// without them gives the same steps.
pub proof fn lemma_replay_plain(
    log: Seq<Event>,
    tokens: Seq<Token>,
    at: int,
    cursor: int,
    left: nat,
)
    ensures
        replay(plain_log(log), tokens, at, cursor, left) == replay(log, tokens, at, cursor, left),
    decreases left,
{
    if left == 0 || at < 0 || at >= log.len() {
    } else {
        let taken = log.update(at, Event::Placeholder);
        let rest = (left - 1) as nat;
        assert(plain_log(log).update(at, Event::Placeholder) =~= plain_log(taken));
        match log[at] {
            Event::StartNode { kind, offset } => {
                lemma_chain_plain(taken, at, offset);
                lemma_replay_plain(
                    chain_cleared(taken, at, offset),
                    tokens,
                    at + 1,
                    skip_trivia(tokens, cursor),
                    rest,
                );
            },
            Event::AddToken => {
                if 0 <= cursor < tokens.len() {
                    lemma_replay_plain(
                        taken,
                        tokens,
                        at + 1,
                        skip_trivia(tokens, cursor + 1),
                        rest,
                    );
                } else {
                    lemma_replay_plain(taken, tokens, at + 1, cursor, rest);
                }
            },
            _ => {
                lemma_replay_plain(taken, tokens, at + 1, skip_trivia(tokens, cursor), rest);
            },
        }
    }
}

/// Steps of valid kinds that open with a node and keep it open up to the
/// last step.
pub open spec fn stays_open(steps: Seq<TreeStep>) -> bool {
    &&& kinds_valid(steps)
    &&& steps.len() > 0 ==> steps[0] is Open && forall|k: int|
        0 < k < steps.len() ==> tree_depth(#[trigger] steps.take(k)) >= 1
}

proof fn lemma_stays_open_push(steps: Seq<TreeStep>, step: TreeStep)
    requires
        stays_open(steps),
        valid_step(step),
        steps.len() == 0 ==> step is Open,
        steps.len() > 0 ==> tree_depth(steps) >= 1,
    ensures
        stays_open(steps.push(step)),
{
    let new = steps.push(step);
    assert forall|k: int| 0 < k < new.len() implies tree_depth(#[trigger] new.take(k)) >= 1 by {
        if k < steps.len() {
            assert(new.take(k) =~= steps.take(k));
        } else {
            assert(new.take(k) =~= steps);
        }
    }
}

proof fn lemma_counts_take_step(log: Seq<Event>, k: int)
    requires
        0 <= k < log.len(),
    ensures
        count_starts(log.take(k + 1)) == count_starts(log.take(k)) + if log[k] is StartNode {
            1nat
        } else {
            0nat
        },
        count_finishes(log.take(k + 1)) == count_finishes(log.take(k)) + if log[k] is FinishNode {
            1nat
        } else {
            0nat
        },
        count_tokens(log.take(k + 1)) == count_tokens(log.take(k)) + if log[k] is AddToken {
            1nat
        } else {
            0nat
        },
        diagnostics(log.take(k + 1)) == match log[k] {
            Event::Error(e) => diagnostics(log.take(k)).push(e),
            _ => diagnostics(log.take(k)),
        },
{
    assert(log.take(k + 1).drop_last() =~= log.take(k));
}

/// Turning one event into a placeholder takes one off the number of starts
/// if the event was a start, and leaves the number alone otherwise.
proof fn lemma_count_starts_clear(log: Seq<Event>, a: int, k: int)
    requires
        0 <= a < log.len(),
        0 <= k <= log.len(),
    ensures
        count_starts(log.update(a, Event::Placeholder).take(k)) + if a < k && log[a] is StartNode {
            1nat
        } else {
            0nat
        } == count_starts(log.take(k)),
    decreases k,
{
    let new = log.update(a, Event::Placeholder);
    if k > 0 {
        lemma_count_starts_clear(log, a, k - 1);
        lemma_counts_take_step(log, k - 1);
        lemma_counts_take_step(new, k - 1);
    } else {
        assert(new.take(0) =~= log.take(0));
    }
}

/// A log whose first `done` events are no starts, and whose later starts are
/// starts of `orig` too, has no more starts than `orig` has from `done` on.
proof fn lemma_count_starts_bound(cur: Seq<Event>, orig: Seq<Event>, done: int, k: int)
    requires
        cur.len() == orig.len(),
        0 <= done <= orig.len(),
        0 <= k <= orig.len(),
        forall|j: int| 0 <= j < done ==> !(#[trigger] cur[j] is StartNode),
        forall|j: int| done <= j < cur.len() && #[trigger] cur[j] is StartNode ==> orig[j] is StartNode,
    ensures
        count_starts(cur.take(k)) <= if k <= done {
            0
        } else {
            count_starts(orig.take(k)) - count_starts(orig.take(done))
        },
    decreases k,
{
    if k > 0 {
        lemma_count_starts_bound(cur, orig, done, k - 1);
        lemma_counts_take_step(cur, k - 1);
        lemma_counts_take_step(orig, k - 1);
    } else {
        assert(cur.take(0) =~= Seq::<Event>::empty());
    }
}

/// Following a chain keeps the length of the log, changes nothing up to
/// `at`, turns starts into placeholders and nothing else, and clears as many
/// starts as it yields kinds.
proof fn lemma_chain(log: Seq<Event>, at: int, offset: Option<usize>)
    requires
        0 <= at < log.len(),
    ensures
        chain_cleared(log, at, offset).len() == log.len(),
        forall|j: int|
            0 <= j < log.len() ==> #[trigger] chain_cleared(log, at, offset)[j] == log[j] || (log[j] is StartNode
                && chain_cleared(log, at, offset)[j] is Placeholder),
        forall|j: int| 0 <= j <= at ==> #[trigger] chain_cleared(log, at, offset)[j] == log[j],
        count_starts(chain_cleared(log, at, offset)) + chain_kinds(log, at, offset).len()
            == count_starts(log),
    decreases log.len() - at,
{
    match chain_next(log, at, offset) {
        Some(next) => {
            let taken = log.update(next, Event::Placeholder);
            lemma_chain(taken, next, log[next]->offset);
            lemma_count_starts_clear(log, next, log.len() as int);
            assert(taken.take(log.len() as int) =~= taken);
            assert(log.take(log.len() as int) =~= log);
        },
        None => {},
    }
}

/// The number of token events of a prefix is at most that of the whole log.
proof fn lemma_count_tokens_prefix(log: Seq<Event>, k: int)
    requires
        0 <= k <= log.len(),
    ensures
        count_tokens(log.take(k)) <= count_tokens(log),
    decreases log.len() - k,
{
    if k < log.len() {
        lemma_count_tokens_prefix(log, k + 1);
        lemma_counts_take_step(log, k);
    } else {
        assert(log.take(k) =~= log);
    }
}

/// The counts of the whole log are the counts of its longest prefix.
proof fn lemma_counts_are_whole(log: Seq<Event>)
    ensures
        count_finishes(log.take(0)) == 0,
        count_tokens(log.take(0)) == 0,
        diagnostics(log.take(0)) == Seq::<ParseError>::empty(),
{
    assert(log.take(0) =~= Seq::<Event>::empty());
}

/// A finished log ends with the finish of the root.
proof fn lemma_last_is_finish(log: Seq<Event>)
    requires
        is_finished_log(log),
    ensures
        log[log.len() - 1] is FinishNode,
{
    let n = log.len() as int;
    assert(log.take(n - 1) =~= log.drop_last());
    assert(depth(log.take(n - 1)) >= 1);
}

/// While a log is replayed, the tree is at least as deep as the replayed
/// part of the log says: starts reached through a chain only opened nodes
/// earlier than their place in the log.
proof fn lemma_depth_bound(cur: Seq<Event>, orig: Seq<Event>, done: int, steps: Seq<TreeStep>)
    requires
        cur.len() == orig.len(),
        0 <= done <= orig.len(),
        forall|j: int| 0 <= j < done ==> !(#[trigger] cur[j] is StartNode),
        forall|j: int|
            done <= j < cur.len() ==> #[trigger] cur[j] == orig[j] || (orig[j] is StartNode
                && cur[j] is Placeholder),
        tree_depth(steps) + count_starts(cur) + count_finishes(orig.take(done)) == count_starts(
            orig,
        ),
    ensures
        tree_depth(steps) >= depth(orig.take(done)),
{
    let n = orig.len() as int;
    lemma_count_starts_bound(cur, orig, done, n);
    assert(cur.take(n) =~= cur);
    assert(orig.take(n) =~= orig);
    lemma_depth_is_difference(orig.take(done));
}

/// Collects the kinds of the node started at `head` and of the nodes that its
/// chain of forward offsets leads through, and clears the starts on the way.
fn take_chain(events: &mut Vec<Event>, head: usize, kind: SyntaxKind, offset: Option<usize>) -> (kinds:
    Vec<SyntaxKind>)
    requires
        head < old(events)@.len(),
    ensures
        kinds@ == seq![kind] + chain_kinds(old(events)@, head as int, offset),
        final(events)@ == chain_cleared(old(events)@, head as int, offset),
{
    let mut kinds: Vec<SyntaxKind> = Vec::new();
    kinds.push(kind);
    let n = events.len();
    let mut at: usize = head;
    let mut offset: Option<usize> = offset;
    let ghost first = offset;
    loop
        invariant
            events@.len() == n,
            at < n,
            kinds@ + chain_kinds(events@, at as int, offset) == seq![kind] + chain_kinds(
                old(events)@,
                head as int,
                first,
            ),
            chain_cleared(events@, at as int, offset) == chain_cleared(
                old(events)@,
                head as int,
                first,
            ),
        ensures
            chain_next(events@, at as int, offset) is None,
        decreases n - at,
    {
        let next: usize = match offset {
            Some(d) => {
                if d >= 1 && d < n - at {
                    at + d
                } else {
                    break ;
                }
            },
            None => {
                break ;
            },
        };
        let (next_kind, next_offset) = match &events[next] {
            Event::StartNode { kind, offset } => (*kind, *offset),
            _ => {
                break ;
            },
        };
        proof {
            assert(kinds@.push(next_kind) + chain_kinds(
                events@.update(next as int, Event::Placeholder),
                next as int,
                next_offset,
            ) =~= kinds@ + chain_kinds(events@, at as int, offset));
        }
        events[next] = Event::Placeholder;
        kinds.push(next_kind);
        at = next;
        offset = next_offset;
    }
    proof {
        assert(kinds@ + Seq::<SyntaxKind>::empty() =~= kinds@);
    }
    kinds
}

/// Opens a node for each kind, the last kind first.
fn open_nodes(builder: &mut GreenNodeBuilder<'static>, kinds: &Vec<SyntaxKind>)
    requires
        kinds@.len() >= 1,
        stays_open(built(*old(builder))),
        built(*old(builder)).len() > 0 ==> tree_depth(built(*old(builder))) >= 1,
    ensures
        built(*final(builder)) == built(*old(builder)) + opens(kinds@),
        stays_open(built(*final(builder))),
        built(*final(builder)).len() > 0,
        tree_depth(built(*final(builder))) == tree_depth(built(*old(builder))) + kinds@.len(),
        leaf_text(built(*final(builder))) == leaf_text(built(*old(builder))),
        leaves(built(*final(builder))) == leaves(built(*old(builder))),
{
    let mut left: usize = kinds.len();
    let ghost before = built(*builder);
    proof {
        assert(before + opens(kinds@).take(0) =~= before);
        assert(leaf_text(before) + Seq::<char>::empty() =~= leaf_text(before));
    }
    while left > 0
        invariant
            left <= kinds@.len(),
            kinds@.len() >= 1,
            built(*builder) == before + opens(kinds@).take(kinds@.len() - left),
            stays_open(built(*builder)),
            built(*builder).len() > 0 ==> tree_depth(built(*builder)) >= 1,
            left < kinds@.len() ==> built(*builder).len() > 0,
            tree_depth(built(*builder)) == tree_depth(before) + kinds@.len() - left,
            leaf_text(built(*builder)) == leaf_text(before),
            leaves(built(*builder)) == leaves(before),
        decreases left,
    {
        left -= 1;
        let raw = kinds[left].to_raw();
        proof {
            let done = kinds@.len() - left - 1;
            let step = TreeStep::Open(raw);
            lemma_step_push(built(*builder), step);
            lemma_stays_open_push(built(*builder), step);
            assert(opens(kinds@).take(done + 1) =~= opens(kinds@).take(done).push(step));
            assert(before + opens(kinds@).take(done + 1) =~= (before + opens(kinds@).take(done)).push(
                step,
            ));
            assert(leaf_text(before) + Seq::<char>::empty() =~= leaf_text(before));
        }
        builder_start_node(builder, raw);
    }
    proof {
        assert(opens(kinds@).take(kinds@.len() as int) =~= opens(kinds@));
    }
}

/// The sink: the builder of the tree, the tokens with the position up to
/// which they have gone into the tree, and the log with the diagnostics taken
/// from it so far.
pub struct Sink<'l> {
    builder: GreenNodeBuilder<'static>,
    tokens: &'l [Token],
    cursor: usize,
    events: Vec<Event>,
    errors: Vec<ParseError>,
}

impl<'l> Sink<'l> {
    /// The steps given to the builder so far.
    pub closed spec fn steps(&self) -> Seq<TreeStep> {
        built(self.builder)
    }

    /// The tokens.
    pub closed spec fn tokens(&self) -> Seq<Token> {
        self.tokens@
    }

    /// The number of tokens that have gone into the tree.
    pub closed spec fn cursor(&self) -> int {
        self.cursor as int
    }

    /// The log, in its present state.
    pub closed spec fn log(&self) -> Seq<Event> {
        self.events@
    }

    /// The diagnostics taken from the log so far.
    pub closed spec fn errors(&self) -> Seq<ParseError> {
        self.errors@
    }

    /// A sink that has replayed nothing yet.
    pub fn new(tokens: &'l [Token], events: Vec<Event>) -> (sink: Self)
        ensures
            sink.steps() == Seq::<TreeStep>::empty(),
            sink.tokens() == tokens@,
            sink.cursor() == 0,
            sink.log() == events@,
            sink.errors() == Seq::<ParseError>::empty(),
    {
        Self { builder: builder_new(), tokens, cursor: 0, events, errors: Vec::new() }
    }

    /// What holds while the log `orig` is replayed, when its first `done`
    /// events have been: the starts among them are gone from the log, and
    /// later events are untouched unless a chain reached them; the tree is as
    /// deep as the starts taken less the finishes replayed; the tokens that
    /// went into the tree are those that the replayed token events and the
    /// trivia after them called for, and their text is the text of the tree;
    /// the steps so far, with the steps still to come, make the tree of the
    /// log.
    spec fn replaying(&self, orig: Seq<Event>, done: int) -> bool {
        let n = orig.len() as int;
        let toks = self.tokens@;
        let cur = self.events@;
        let steps = built(self.builder);
        let cursor = self.cursor as int;
        &&& is_finished_log(orig)
        &&& count_tokens(orig) == count_structural(toks)
        &&& byte_len(text_of(toks)) <= u32::MAX
        &&& 0 <= done <= n
        &&& cur.len() == n
        &&& forall|j: int| 0 <= j < done ==> !(#[trigger] cur[j] is StartNode)
        &&& forall|j: int|
            done <= j < n ==> #[trigger] cur[j] == orig[j] || (orig[j] is StartNode
                && cur[j] is Placeholder)
        &&& tree_depth(steps) + count_starts(cur) + count_finishes(orig.take(done)) == count_starts(
            orig,
        )
        &&& count_tokens(orig.take(done)) == count_structural(toks.take(cursor))
        &&& cursor <= toks.len()
        &&& done > 0 ==> skip_trivia(toks, cursor) == cursor
        &&& leaf_text(steps) == text_of(toks.take(cursor))
        &&& leaves(steps) == leaves_of(toks.take(cursor))
        &&& stays_open(steps)
        &&& done > 0 <==> steps.len() > 0
        &&& self.errors@ == diagnostics(orig.take(done))
        &&& steps + replay(cur, toks, done, cursor, (n - done) as nat) == tree_of(orig, toks)
    }

    /// Replays the whole log into the tree. Every token goes into the tree
    /// once, in order, so the text of the tree is the text of the tokens.
    pub fn finish(self) -> (parse: Parse)
        requires
            self.steps().len() == 0,
            self.cursor() == 0,
            self.errors().len() == 0,
            is_finished_log(self.log()),
            count_tokens(self.log()) == count_structural(self.tokens()),
            byte_len(text_of(self.tokens())) <= u32::MAX,
        ensures
            parse.steps() == tree_of(self.log(), self.tokens()),
            is_single_tree(parse.steps()),
            kinds_valid(parse.steps()),
            leaves(parse.steps()) == leaves_of(self.tokens()),
            leaf_text(parse.steps()) == text_of(self.tokens()),
            parse.diagnostics() == diagnostics(self.log()),
    {
        let mut sink = self;
        let ghost orig = sink.events@;
        let ghost toks = sink.tokens@;
        let n = sink.events.len();
        let mut idx: usize = 0;
        proof {
            assert(toks.take(0) =~= Seq::<Token>::empty());
            assert(orig.take(0) =~= Seq::<Event>::empty());
            assert(built(sink.builder) =~= Seq::<TreeStep>::empty());
            assert(leaves_of(toks.take(0)) =~= Seq::<TreeStep>::empty());
            assert(built(sink.builder) + replay(orig, toks, 0, 0, orig.len()) =~= replay(
                orig,
                toks,
                0,
                0,
                orig.len(),
            ));
            lemma_count_starts_bound(orig, orig, 0, orig.len() as int);
            assert(orig.take(orig.len() as int) =~= orig);
            assert(sink.errors@ =~= Seq::<ParseError>::empty());
            lemma_depth_is_difference(orig);
            lemma_counts_are_whole(orig);
        }
        while idx < n
            invariant
                n == orig.len(),
                idx <= n,
                toks == sink.tokens@,
                sink.replaying(orig, idx as int),
            decreases n - idx,
        {
            sink.replay_one(idx, Ghost(orig));
            idx += 1;
        }
        proof {
            let cur = sink.events@;
            let steps = built(sink.builder);
            lemma_count_starts_bound(cur, orig, n as int, n as int);
            assert(cur.take(n as int) =~= cur);
            assert(orig.take(n as int) =~= orig);
            lemma_depth_is_difference(orig);
            assert(steps + Seq::<TreeStep>::empty() =~= steps);
            assert(steps.take(1).drop_last() =~= Seq::<TreeStep>::empty());
            assert(tree_depth(Seq::<TreeStep>::empty()) == 0);
            assert(tree_depth(steps.take(1)) == 1);
            if steps.len() == 1 {
                assert(steps.take(1) =~= steps);
            }
            lemma_skip_trivia(toks, sink.cursor as int);
            if sink.cursor < toks.len() {
                lemma_count_structural_step(toks, sink.cursor as int);
                lemma_count_structural_monotone(toks, sink.cursor as int + 1, toks.len() as int);
            }
            assert(toks.take(toks.len() as int) =~= toks);
        }
        let green_node = builder_finish(sink.builder);
        Parse::new(green_node, sink.errors)
    }

    /// Replays the event at `idx`, and takes the trivia that follows.
    #[verifier::rlimit(80)]
    fn replay_one(&mut self, idx: usize, Ghost(orig): Ghost<Seq<Event>>)
        requires
            old(self).replaying(orig, idx as int),
            idx < orig.len(),
        ensures
            final(self).replaying(orig, idx + 1),
            final(self).tokens@ == old(self).tokens@,
    {
        let ghost n = orig.len() as int;
        let ghost toks = self.tokens@;
        let ghost cur = self.events@;
        let ghost before = built(self.builder);
        let ghost at = self.cursor as int;
        let ghost taken = cur.update(idx as int, Event::Placeholder);
        let mut event = Event::Placeholder;
        core::mem::swap(&mut self.events[idx], &mut event);
        proof {
            assert(self.events@ =~= taken);
            lemma_last_is_finish(orig);
            lemma_depth_bound(cur, orig, idx as int, before);
            assert(idx > 0 ==> depth(orig.take(idx as int)) >= 1);
            lemma_counts_take_step(orig, idx as int);
            lemma_count_starts_clear(cur, idx as int, n);
            assert(cur.take(n) =~= cur);
            assert(taken.take(n) =~= taken);
            lemma_text_of_prefix(toks, at);
            lemma_count_tokens_prefix(orig, idx as int + 1);
            lemma_skip_trivia(toks, at);
            if at < toks.len() {
                lemma_count_structural_step(toks, at);
                lemma_text_of_step(toks, at);
                assert(leaves_of(toks.take(at + 1)) =~= leaves_of(toks.take(at)).push(
                    leaf_of(toks[at]),
                ));
            } else {
                assert(toks.take(at) =~= toks);
            }
        }
        match event {
            Event::StartNode { kind, offset } => {
                proof {
                    lemma_chain(taken, idx as int, offset);
                }
                let kinds = take_chain(&mut self.events, idx, kind, offset);
                open_nodes(&mut self.builder, &kinds);
            },
            Event::AddToken => {
                proof {
                    assert(idx > 0);
                    assert(at < toks.len());
                    lemma_raw_round_trip(
                        SyntaxKind::of_token(toks[at].kind),
                        SyntaxKind::of_token(toks[at].kind),
                    );
                    lemma_step_push(before, leaf_of(toks[at]));
                    lemma_stays_open_push(before, leaf_of(toks[at]));
                }
                self.token();
            },
            Event::FinishNode => {
                proof {
                    assert(idx > 0);
                    lemma_step_push(before, TreeStep::Close);
                    lemma_stays_open_push(before, TreeStep::Close);
                    assert(leaf_text(before) + Seq::<char>::empty() =~= leaf_text(before));
                }
                builder_finish_node(&mut self.builder);
            },
            Event::Error(error) => {
                self.errors.push(error);
            },
            Event::Placeholder => {},
        }
        let ghost middle = built(self.builder);
        let ghost mid_cursor = self.cursor as int;
        let ghost after = self.events@;
        proof {
            assert(after.len() == n);
            assert forall|j: int| 0 <= j < idx + 1 implies !(#[trigger] after[j] is StartNode) by {
                assert(after[j] == taken[j]);
            }
            assert forall|j: int| idx + 1 <= j < n implies #[trigger] after[j] == orig[j] || (
            orig[j] is StartNode && after[j] is Placeholder) by {
                assert(taken[j] == cur[j]);
                assert(after[j] == taken[j] || (taken[j] is StartNode && after[j] is Placeholder));
            }
            assert(tree_depth(middle) + count_starts(after) + count_finishes(
                orig.take(idx as int + 1),
            ) == count_starts(orig));
            lemma_depth_bound(after, orig, idx as int + 1, middle);
            assert(idx + 1 < n ==> depth(orig.take(idx as int + 1)) >= 1);
            assert(middle.len() > 0);
            assert(leaf_text(middle) == text_of(toks.take(mid_cursor)));
            assert(leaves(middle) == leaves_of(toks.take(mid_cursor)));
            assert(stays_open(middle));
            lemma_skip_trivia(toks, mid_cursor);
            if idx + 1 == n {
                assert(mid_cursor == at);
            }
        }
        self.eat_trivia();
        proof {
            assert(before + replay(cur, toks, idx as int, at, (n - idx) as nat) =~= built(
                self.builder,
            ) + replay(
                self.events@,
                toks,
                idx as int + 1,
                self.cursor as int,
                (n - idx - 1) as nat,
            ));
        }
    }

    /// Puts the tokens that are trivia, from the present position on, into
    /// the tree, up to the next structural token.
    fn eat_trivia(&mut self)
        requires
            old(self).cursor() <= old(self).tokens().len(),
            stays_open(old(self).steps()),
            old(self).cursor() < old(self).tokens().len() && old(self).tokens()[old(
                self,
            ).cursor()].kind.spec_is_trivia() ==> old(self).steps().len() > 0 && tree_depth(
                old(self).steps(),
            ) >= 1,
            leaf_text(old(self).steps()) == text_of(old(self).tokens().take(old(self).cursor())),
            leaves(old(self).steps()) == leaves_of(old(self).tokens().take(old(self).cursor())),
        ensures
            final(self).tokens() == old(self).tokens(),
            final(self).log() == old(self).log(),
            final(self).errors() == old(self).errors(),
            final(self).cursor() == skip_trivia(old(self).tokens(), old(self).cursor()),
            final(self).steps() == old(self).steps() + trivia_run(
                old(self).tokens(),
                old(self).cursor(),
            ),
            stays_open(final(self).steps()),
            tree_depth(final(self).steps()) == tree_depth(old(self).steps()),
            leaf_text(final(self).steps()) == text_of(
                old(self).tokens().take(final(self).cursor()),
            ),
            leaves(final(self).steps()) == leaves_of(
                old(self).tokens().take(final(self).cursor()),
            ),
            final(self).steps().len() >= old(self).steps().len(),
    {
        let n = self.tokens.len();
        proof {
            assert(self.steps() + Seq::<TreeStep>::empty() =~= self.steps());
        }
        while self.cursor < n && self.tokens[self.cursor].kind.is_trivia()
            invariant
                n == self.tokens@.len(),
                self.tokens@ == old(self).tokens@,
                self.events@ == old(self).events@,
                self.errors@ == old(self).errors@,
                old(self).cursor <= self.cursor <= n,
                skip_trivia(self.tokens@, self.cursor as int) == skip_trivia(
                    old(self).tokens@,
                    old(self).cursor as int,
                ),
                built(self.builder) + trivia_run(self.tokens@, self.cursor as int) == built(
                    old(self).builder,
                ) + trivia_run(old(self).tokens@, old(self).cursor as int),
                stays_open(built(self.builder)),
                tree_depth(built(self.builder)) == tree_depth(built(old(self).builder)),
                self.cursor > old(self).cursor ==> built(self.builder).len() > 0 && tree_depth(
                    built(self.builder),
                ) >= 1,
                old(self).cursor < n && old(self).tokens@[old(
                    self,
                ).cursor as int].kind.spec_is_trivia() ==> built(old(self).builder).len() > 0
                    && tree_depth(built(old(self).builder)) >= 1,
                leaf_text(built(self.builder)) == text_of(self.tokens@.take(self.cursor as int)),
                leaves(built(self.builder)) == leaves_of(self.tokens@.take(self.cursor as int)),
                built(self.builder).len() >= built(old(self).builder).len(),
            decreases n - self.cursor,
        {
            proof {
                let step = leaf_of(self.tokens@[self.cursor as int]);
                let steps = built(self.builder);
                lemma_raw_round_trip(
                    SyntaxKind::of_token(self.tokens@[self.cursor as int].kind),
                    SyntaxKind::of_token(self.tokens@[self.cursor as int].kind),
                );
                lemma_step_push(steps, step);
                lemma_stays_open_push(steps, step);
                lemma_text_of_step(self.tokens@, self.cursor as int);
                assert(leaves_of(self.tokens@.take(self.cursor + 1)) =~= leaves_of(
                    self.tokens@.take(self.cursor as int),
                ).push(step));
                assert(steps.push(step) + trivia_run(self.tokens@, self.cursor + 1) =~= steps
                    + trivia_run(self.tokens@, self.cursor as int));
            }
            self.token();
        }
        proof {
            assert(built(self.builder) + Seq::<TreeStep>::empty() =~= built(self.builder));
        }
    }

    /// Puts the token at the present position into the tree.
    fn token(&mut self)
        requires
            old(self).cursor() < old(self).tokens().len(),
        ensures
            final(self).tokens() == old(self).tokens(),
            final(self).log() == old(self).log(),
            final(self).errors() == old(self).errors(),
            final(self).cursor() == old(self).cursor() + 1,
            final(self).steps() == old(self).steps().push(
                leaf_of(old(self).tokens()[old(self).cursor()]),
            ),
    {
        let token = &self.tokens[self.cursor];
        let kind = SyntaxKind::from(token.kind);
        builder_token(&mut self.builder, kind.to_raw(), token.text.as_str());
        self.cursor += 1;
    }
}

} // verus!
