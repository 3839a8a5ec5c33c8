//! The parser state and the primitives that grammar rules are built from.

use crate::error::ParseError;
use crate::event::{
    ascending, count_finishes, count_starts, count_tokens, depth, diagnostics, errors_ascend,
    is_finished_log, lemma_depth_push, lemma_depth_update, lemma_diagnostics_ascend,
    lemma_finished_log_counts_match, never_negative, offsets_forward, Event,
};
use crate::grammar;
use crate::grammar::root_model;
use crate::marker::Marker;
use crate::model::{
    diag_of, diags_of, error_range, in_recovery_set, lemma_diagnostics_push,
    lemma_diagnostics_update, plain_log, Model,
};
use crate::source::{
    count_structural, kind_at, lemma_count_structural_step, lemma_skip_trivia, nth_structural,
    skip_trivia, Source,
};
use crate::span::Span;
use crate::syntax::SyntaxKind;
use crate::token::{starts_ascend, Token, TokenKind};
use vstd::prelude::*;

verus! {

/// The parser: the cursor, the event log, and the kinds that `at` was asked
/// about since the last token was consumed.
pub struct Parser<'l> {
    source: Source<'l>,
    events: Vec<Event>,
    expected_token_kinds: Vec<TokenKind>,
    open: Ghost<Set<int>>,
}

impl<'l> Parser<'l> {
    /// The event log written so far.
    pub closed spec fn log(&self) -> Seq<Event> {
        self.events@
    }

    /// The token sequence being parsed.
    pub closed spec fn tokens(&self) -> Seq<Token> {
        self.source.tokens()
    }

    /// The position of the current structural token; the number of tokens at
    /// the end of the input.
    pub closed spec fn pos(&self) -> int {
        self.source.pos()
    }

    /// The kinds recorded by `at` since the last consumed token.
    pub closed spec fn expected(&self) -> Seq<TokenKind> {
        self.expected_token_kinds@
    }

    /// The log positions of the markers that are neither completed nor
    /// abandoned yet.
    pub closed spec fn open(&self) -> Set<int> {
        self.open@
    }

    /// The state as a model: the log without its diagnostics, the position,
    /// the expected kinds, and the diagnostics.
    pub open spec fn model(&self) -> Model {
        Model {
            log: plain_log(self.log()),
            pos: self.pos(),
            expected: self.expected(),
            errors: diags_of(diagnostics(self.log())),
        }
    }

    /// The kind of the current structural token, `None` at the end.
    pub open spec fn lookahead(&self) -> Option<TokenKind> {
        kind_at(self.tokens(), self.pos())
    }

    /// The kind of the `n`-th structural token from the current one, counting
    /// from zero; `None` if there are not that many.
    pub open spec fn nth(&self, n: nat) -> Option<TokenKind> {
        kind_at(self.tokens(), nth_structural(self.tokens(), self.pos(), n))
    }

    /// The position after the current token has been consumed.
    pub open spec fn pos_after_bump(&self) -> int {
        skip_trivia(self.tokens(), self.pos() + 1)
    }

    /// The invariant of the parser state. Every open marker stands on a
    /// placeholder of the log; forward offsets are positive; no prefix of the
    /// log finishes more nodes than it starts, and the whole log finishes all
    /// it starts; the log holds one `AddToken` for each structural token that
    /// the cursor has passed; and where the tokens stand in the order of
    /// their ranges, so do the diagnostics in the log.
    pub closed spec fn wf(&self) -> bool {
        &&& self.source.wf()
        &&& forall|a: int| #[trigger]
            self.open@.contains(a) ==> 0 <= a < self.events@.len() && self.events@[a] is Placeholder
        &&& offsets_forward(self.events@)
        &&& never_negative(self.events@)
        &&& depth(self.events@) == 0
        &&& count_tokens(self.events@) == count_structural(
            self.source.tokens().take(self.source.cursor()),
        )
        &&& starts_ascend(self.source.tokens()) ==> errors_ascend(
            self.events@,
            error_range(self.source.tokens(), self.source.pos()).start as int,
        )
    }

    /// What any sequence of primitives keeps: the state stays well formed over
    /// the same tokens and the cursor does not move back.
    pub open spec fn continues(&self, before: &Self) -> bool {
        &&& self.wf()
        &&& self.tokens() == before.tokens()
        &&& before.pos() <= self.pos() <= self.tokens().len()
    }

    /// `continues`, with the same markers open as before, and with a log that
    /// grew by at most 32 events for each token passed, plus `slack`.
    pub open spec fn advances(&self, before: &Self, slack: int) -> bool {
        &&& self.continues(before)
        &&& self.open() == before.open()
        &&& self.log().len() <= before.log().len() + 32 * (self.pos() - before.pos()) + slack
    }

    /// `advances` with no slack but `headroom` to spare, and with at least
    /// one token consumed.
    pub open spec fn consumed(&self, before: &Self, headroom: int) -> bool {
        &&& self.advances(before, -headroom)
        &&& self.pos() > before.pos()
    }

    /// In a well-formed state the position lies within the tokens, open
    /// markers stand on placeholders, and the log is balanced.
    pub proof fn lemma_wf(&self)
        requires
            self.wf(),
        ensures
            0 <= self.pos() <= self.tokens().len(),
            self.lookahead() is Some <==> self.pos() < self.tokens().len(),
            self.lookahead() matches Some(k) ==> !k.spec_is_trivia(),
            forall|a: int| #[trigger]
                self.open().contains(a) ==> 0 <= a < self.log().len() && self.log()[a] is Placeholder,
            offsets_forward(self.log()),
            never_negative(self.log()),
            depth(self.log()) == 0,
            count_tokens(self.log()) == count_structural(self.tokens().take(self.pos())),
            starts_ascend(self.tokens()) ==> errors_ascend(
                self.log(),
                error_range(self.tokens(), self.pos()).start as int,
            ),
    {
        self.source.lemma_within();
        lemma_skip_trivia(self.source.tokens(), self.source.cursor());
    }

    /// The token after the current one is the one that is current once the
    /// current one has been consumed.
    pub proof fn lemma_nth(&self)
        requires
            self.wf(),
        ensures
            self.nth(0) == self.lookahead(),
            self.lookahead() is Some ==> self.nth(1) == kind_at(
                self.tokens(),
                self.pos_after_bump(),
            ),
    {
        reveal_with_fuel(nth_structural, 2);
        self.source.lemma_within();
        lemma_skip_trivia(self.source.tokens(), self.source.cursor());
        if self.pos() < self.tokens().len() {
            lemma_skip_trivia(self.source.tokens(), self.pos() + 1);
        }
    }

    /// A parser at the start of the tokens, with an empty log.
    pub fn new(source: Source<'l>) -> (p: Self)
        requires
            source.wf(),
            source.cursor() == 0,
        ensures
            p.wf(),
            p.tokens() == source.tokens(),
            p.log() == Seq::<Event>::empty(),
            p.expected() == Seq::<TokenKind>::empty(),
            p.open() == Set::<int>::empty(),
            p.pos() == skip_trivia(source.tokens(), 0),
            p.model() == Model::initial(source.tokens()),
    {
        let p = Self {
            source,
            events: Vec::new(),
            expected_token_kinds: Vec::new(),
            open: Ghost(Set::empty()),
        };
        proof {
            assert(p.source.tokens().take(0) =~= Seq::<Token>::empty());
            assert(plain_log(p.events@) =~= Seq::<Event>::empty());
            assert(diags_of(diagnostics(p.events@)) =~= Seq::empty());
            assert forall|k: int| 0 <= k <= p.events@.len() implies depth(
                #[trigger] p.events@.take(k),
            ) >= 0 by {
                assert(p.events@.take(k) =~= Seq::<Event>::empty());
            }
        }
        p
    }

    /// Runs the grammar over the whole input and hands out the log: the log
    /// that the model of the grammar gives. The log is finished: every marker
    /// was resolved, so it starts as many nodes as it finishes, it has one
    /// token event for each structural token of the input, and its length is
    /// linear in the number of tokens.
    pub fn parse(self) -> (events: Vec<Event>)
        requires
            self.wf(),
            self.log().len() == 0,
            self.open() == Set::<int>::empty(),
        ensures
            is_finished_log(events@),
            count_starts(events@) == count_finishes(events@),
            count_tokens(events@) == count_structural(self.tokens()),
            events@.len() <= 32 * self.tokens().len() + 2,
            starts_ascend(self.tokens()) ==> ascending(diagnostics(events@)),
            plain_log(events@) == root_model(self.tokens(), self.model()).log,
            diags_of(diagnostics(events@)) == root_model(self.tokens(), self.model()).errors,
    {
        let mut p = self;
        let _ = grammar::root(&mut p);
        proof {
            lemma_finished_log_counts_match(p.events@);
            p.lemma_wf();
            if starts_ascend(p.tokens()) {
                lemma_diagnostics_ascend(
                    p.events@,
                    error_range(p.tokens(), p.pos()).start as int,
                );
            }
        }
        p.events
    }

    /// Opens a marker at the end of the log.
    pub fn start(&mut self) -> (m: Marker)
        requires
            old(self).wf(),
        ensures
            final(self).continues(old(self)),
            final(self).pos() == old(self).pos(),
            final(self).expected() == old(self).expected(),
            final(self).log() == old(self).log().push(Event::Placeholder),
            final(self).open() == old(self).open().insert(old(self).log().len() as int),
            final(self).log().len() == old(self).log().len() + 1,
            final(self).model() == old(self).model().start(),
            m.pos() == old(self).log().len(),
            !old(self).open().contains(m.pos() as int),
    {
        let pos = self.events.len();
        proof {
            self.lemma_wf();
            self.lemma_push_keeps_balance(Event::Placeholder);
            lemma_diagnostics_push(self.events@, Event::Placeholder);
            assert(plain_log(self.events@.push(Event::Placeholder)) =~= plain_log(
                self.events@,
            ).push(Event::Placeholder));
        }
        self.events.push(Event::Placeholder);
        self.open = Ghost(self.open@.insert(pos as int));
        Marker::new(pos)
    }

    /// Consumes the current token if it is of the given kind, and raises an
    /// error otherwise.
    pub fn expect(&mut self, kind: TokenKind)
        requires
            old(self).wf(),
        ensures
            final(self).advances(old(self), 1),
            old(self).lookahead() == Some(kind) ==> final(self).consumed(old(self), 16),
            old(self).lookahead() == Some(kind) ==> final(self).log() == old(self).log().push(
                Event::AddToken,
            ) && final(self).pos() == old(self).pos_after_bump(),
            final(self).model() == old(self).model().expect(old(self).tokens(), kind),
            final(self).expected() == Seq::<TokenKind>::empty(),
            final(self).log().take(old(self).log().len() as int) == old(self).log(),
            old(self).lookahead() != Some(kind) ==> (final(self).log()[old(
                self,
            ).log().len() as int] matches Event::Error(e) && diag_of(e) == old(self).model().at(
                kind,
            ).diagnostic(old(self).tokens())),
    {
        if self.at(kind) {
            self.bump();
            proof {
                assert(self.log().take(old(self).log().len() as int) =~= old(self).log());
            }
        } else {
            proof {
                self.lemma_wf();
            }
            self.error();
        }
    }

    /// Consumes the current token: moves the cursor past it, appends
    /// `AddToken`, and forgets the expected kinds.
    pub fn bump(&mut self)
        requires
            old(self).wf(),
            old(self).lookahead() is Some,
        ensures
            final(self).continues(old(self)),
            final(self).pos() == old(self).pos_after_bump(),
            final(self).pos() > old(self).pos(),
            final(self).log() == old(self).log().push(Event::AddToken),
            final(self).log().len() == old(self).log().len() + 1,
            final(self).expected() == Seq::<TokenKind>::empty(),
            final(self).open() == old(self).open(),
            final(self).model() == old(self).model().bump(old(self).tokens()),
    {
        proof {
            lemma_diagnostics_push(self.events@, Event::AddToken);
            assert(plain_log(self.events@.push(Event::AddToken)) =~= plain_log(self.events@).push(
                Event::AddToken,
            ));
            self.lemma_wf();
            self.source.lemma_within();
            lemma_skip_trivia(self.source.tokens(), self.source.cursor());
            lemma_count_structural_step(self.source.tokens(), self.source.pos());
            lemma_skip_trivia(self.source.tokens(), self.source.pos() + 1);
            self.lemma_push_keeps_balance(Event::AddToken);
        }
        self.expected_token_kinds.clear();
        let _ = self.source.next_token();
        self.events.push(Event::AddToken);
    }

    /// Records a diagnostic made of the expected kinds gathered so far and the
    /// current token, and forgets those kinds. Then, unless the input has
    /// ended or the current token is in the recovery set, consumes that one
    /// token inside a node of kind `Error`.
    pub fn error(&mut self)
        requires
            old(self).wf(),
        ensures
            final(self).advances(old(self), 1),
            (old(self).lookahead() matches Some(k) && !in_recovery_set(k)) ==> final(self).consumed(
                old(self),
                16,
            ),
            final(self).model() == old(self).model().error(old(self).tokens()),
            final(self).expected() == Seq::<TokenKind>::empty(),
            final(self).log().take(old(self).log().len() as int) == old(self).log(),
            final(self).log()[old(self).log().len() as int] matches Event::Error(e) && diag_of(e)
                == old(self).model().diagnostic(old(self).tokens()),
    {
        proof {
            self.lemma_wf();
            self.source.lemma_within();
            lemma_skip_trivia(self.source.tokens(), self.source.cursor());
        }
        let current_token = self.source.peek_token();
        let (found, range) = match current_token {
            Some(token) => (Some(token.kind), token.range),
            None => match self.source.last_token_range() {
                Some(range) => (None, range),
                None => (None, Span::new(0, 0)),
            },
        };
        let mut expected: Vec<TokenKind> = Vec::new();
        core::mem::swap(&mut self.expected_token_kinds, &mut expected);
        let error = ParseError { expected, found, range };
        proof {
            self.lemma_push_keeps_balance(Event::Error(error));
            lemma_diagnostics_push(self.events@, Event::Error(error));
            assert(plain_log(self.events@.push(Event::Error(error))) =~= plain_log(
                self.events@,
            ).push(Event::Placeholder));
            assert(diags_of(diagnostics(self.events@).push(error)) =~= diags_of(
                diagnostics(self.events@),
            ).push(old(self).model().diagnostic(old(self).tokens())));
        }
        self.events.push(Event::Error(error));
        proof {
            assert(self.log().take(old(self).log().len() as int) =~= old(self).log());
        }
        if !self.at_set(&[TokenKind::Ident]) && !self.at_end() {
            let marker = self.start();
            self.bump();
            let _ = marker.complete(self, SyntaxKind::Error);
            proof {
                assert(self.open() =~= old(self).open());
                assert(self.log().take(old(self).log().len() as int) =~= old(self).log());
            }
        }
    }

    /// Whether the current token is of the given kind. The kind is added to
    /// the expected kinds of the next diagnostic.
    pub fn at(&mut self, kind: TokenKind) -> (r: bool)
        requires
            old(self).wf(),
        ensures
            final(self).advances(old(self), 0),
            final(self).pos() == old(self).pos(),
            final(self).log() == old(self).log(),
            final(self).expected() == old(self).expected().push(kind),
            final(self).model() == old(self).model().at(kind),
            r == (old(self).lookahead() == Some(kind)),
    {
        self.expected_token_kinds.push(kind);
        match self.peek() {
            Some(k) => k == kind,
            None => false,
        }
    }

    /// The kind of the current token, `None` at the end of the input.
    pub fn current(&mut self) -> (kind: Option<TokenKind>)
        requires
            old(self).wf(),
        ensures
            final(self).advances(old(self), 0),
            final(self).pos() == old(self).pos(),
            final(self).log() == old(self).log(),
            final(self).expected() == old(self).expected(),
            final(self).model() == old(self).model(),
            kind == old(self).lookahead(),
    {
        self.peek()
    }

    /// Whether the current token is of one of the given kinds.
    pub fn at_set(&mut self, set: &[TokenKind]) -> (r: bool)
        requires
            old(self).wf(),
        ensures
            final(self).advances(old(self), 0),
            final(self).pos() == old(self).pos(),
            final(self).log() == old(self).log(),
            final(self).expected() == old(self).expected(),
            final(self).model() == old(self).model(),
            r == (old(self).lookahead() matches Some(k) && set@.contains(k)),
    {
        match self.peek() {
            None => false,
            Some(kind) => holds_kind(set, kind),
        }
    }

    /// Whether the input has ended: only trivia is left, or nothing.
    pub fn at_end(&mut self) -> (r: bool)
        requires
            old(self).wf(),
        ensures
            final(self).advances(old(self), 0),
            final(self).pos() == old(self).pos(),
            final(self).log() == old(self).log(),
            final(self).expected() == old(self).expected(),
            final(self).model() == old(self).model(),
            r == (old(self).lookahead() is None),
            r == (old(self).pos() == old(self).tokens().len()),
    {
        proof {
            self.lemma_wf();
        }
        self.peek().is_none()
    }

    /// The kind of the `n`-th structural token from the current one, counting
    /// from zero, without consuming anything.
    pub fn peek_nth(&mut self, n: usize) -> (kind: Option<TokenKind>)
        requires
            old(self).wf(),
        ensures
            final(self).advances(old(self), 0),
            final(self).pos() == old(self).pos(),
            final(self).log() == old(self).log(),
            final(self).expected() == old(self).expected(),
            final(self).model() == old(self).model(),
            kind == old(self).nth(n as nat),
    {
        proof {
            self.lemma_wf();
            self.source.lemma_within();
            lemma_skip_trivia(self.source.tokens(), self.source.cursor());
        }
        self.source.peek_nth(n)
    }

    /// Turns the placeholder of an open marker into the start of a node of
    /// the given kind and appends the matching finish.
    pub(crate) fn complete_at(&mut self, pos: usize, kind: SyntaxKind)
        requires
            old(self).wf(),
            old(self).open().contains(pos as int),
        ensures
            final(self).continues(old(self)),
            final(self).pos() == old(self).pos(),
            final(self).expected() == old(self).expected(),
            final(self).log() == old(self).log().update(
                pos as int,
                Event::StartNode { kind, offset: None },
            ).push(Event::FinishNode),
            final(self).open() == old(self).open().remove(pos as int),
            final(self).log().len() == old(self).log().len() + 1,
            pos < old(self).log().len(),
            final(self).log()[pos as int] is StartNode,
            forall|k: int|
                pos < k <= old(self).log().len() ==> depth(#[trigger] final(self).log().take(k))
                    >= 1,
            final(self).model() == old(self).model().complete(pos as int, kind),
    {
        let ghost log = self.events@;
        let ghost start = Event::StartNode { kind, offset: None };
        proof {
            self.lemma_wf();
            lemma_diagnostics_update(log, pos as int, start);
            lemma_diagnostics_push(log.update(pos as int, start), Event::FinishNode);
            assert(plain_log(log.update(pos as int, start).push(Event::FinishNode)) =~= plain_log(
                log,
            ).update(pos as int, start).push(Event::FinishNode));
            let mid = log.update(pos as int, start);
            let new = mid.push(Event::FinishNode);
            lemma_depth_push(mid, Event::FinishNode);
            assert(mid.take(mid.len() as int) =~= mid);
            assert(log.take(log.len() as int) =~= log);
            lemma_depth_update(log, pos as int, start, log.len() as int);
            assert forall|k: int| 0 <= k <= new.len() implies depth(#[trigger] new.take(k))
                >= 0 by {
                if k <= log.len() {
                    assert(new.take(k) =~= mid.take(k));
                    lemma_depth_update(log, pos as int, start, k);
                } else {
                    assert(new.take(k) =~= new);
                }
            }
            assert forall|k: int| pos < k <= log.len() implies depth(#[trigger] new.take(k))
                >= 1 by {
                assert(new.take(k) =~= mid.take(k));
                lemma_depth_update(log, pos as int, start, k);
            }
        }
        self.events[pos] = Event::StartNode { kind, offset: None };
        self.events.push(Event::FinishNode);
        self.open = Ghost(self.open@.remove(pos as int));
    }

    /// Gives up an open marker: its placeholder is removed if it is the last
    /// event of the log, and stays as a placeholder otherwise.
    pub(crate) fn abandon_at(&mut self, pos: usize)
        requires
            old(self).wf(),
            old(self).open().contains(pos as int),
        ensures
            final(self).continues(old(self)),
            final(self).pos() == old(self).pos(),
            final(self).expected() == old(self).expected(),
            final(self).log() == if pos == old(self).log().len() - 1 {
                old(self).log().drop_last()
            } else {
                old(self).log()
            },
            final(self).open() == old(self).open().remove(pos as int),
            final(self).log().len() <= old(self).log().len(),
            final(self).model() == old(self).model().abandon(pos as int),
    {
        let ghost log = self.events@;
        proof {
            self.lemma_wf();
        }
        if pos == self.events.len() - 1 {
            proof {
                let new = log.drop_last();
                assert(plain_log(new) =~= plain_log(log).drop_last());
                lemma_depth_push(new, log.last());
                assert(new.push(log.last()) =~= log);
                assert forall|k: int| 0 <= k <= new.len() implies depth(#[trigger] new.take(k))
                    >= 0 by {
                    assert(new.take(k) =~= log.take(k));
                }
            }
            let _ = self.events.pop();
        }
        self.open = Ghost(self.open@.remove(pos as int));
    }

    /// Opens a marker at the end of the log and makes the node that starts at
    /// `pos` point forward to it, so that the new marker's node will enclose
    /// that node.
    pub(crate) fn precede_at(&mut self, pos: usize) -> (m: Marker)
        requires
            old(self).wf(),
            pos < old(self).log().len(),
            old(self).log()[pos as int] is StartNode,
        ensures
            final(self).continues(old(self)),
            final(self).pos() == old(self).pos(),
            final(self).expected() == old(self).expected(),
            final(self).log() == old(self).log().update(
                pos as int,
                Event::StartNode {
                    kind: old(self).log()[pos as int]->kind,
                    offset: Some((old(self).log().len() - pos) as usize),
                },
            ).push(Event::Placeholder),
            final(self).open() == old(self).open().insert(old(self).log().len() as int),
            final(self).log().len() == old(self).log().len() + 1,
            final(self).model() == old(self).model().precede(pos as int),
            m.pos() == old(self).log().len(),
            !old(self).open().contains(m.pos() as int),
    {
        let ghost log = self.events@;
        let marker = self.start();
        let distance = marker.position() - pos;
        let ghost patched = Event::StartNode { kind: log[pos as int]->kind, offset: Some(distance) };
        proof {
            let mid = self.events@;
            let new = mid.update(pos as int, patched);
            assert(new =~= log.update(pos as int, patched).push(Event::Placeholder));
            lemma_diagnostics_update(mid, pos as int, patched);
            assert(plain_log(new) =~= plain_log(log).update(pos as int, patched).push(
                Event::Placeholder,
            ));
            assert(mid.take(mid.len() as int) =~= mid);
            assert(new.take(new.len() as int) =~= new);
            lemma_depth_update(mid, pos as int, patched, mid.len() as int);
            assert forall|k: int| 0 <= k <= new.len() implies depth(#[trigger] new.take(k))
                >= 0 by {
                lemma_depth_update(mid, pos as int, patched, k);
            }
        }
        match &mut self.events[pos] {
            Event::StartNode { offset, .. } => {
                *offset = Some(distance);
            },
            _ => {},
        }
        marker
    }

    /// The number of tokens of the input, trivia included.
    pub fn token_count(&self) -> (n: usize)
        ensures
            n == self.tokens().len(),
    {
        self.source.len()
    }

    /// The log written so far.
    pub fn events(&self) -> (events: &Vec<Event>)
        ensures
            events@ == self.log(),
    {
        &self.events
    }

    /// Gives up the parser for its log.
    pub fn into_events(self) -> (events: Vec<Event>)
        ensures
            events@ == self.log(),
    {
        self.events
    }

    /// The number of events in the log.
    pub fn event_count(&self) -> (n: usize)
        ensures
            n == self.log().len(),
    {
        self.events.len()
    }

    fn peek(&mut self) -> (kind: Option<TokenKind>)
        requires
            old(self).wf(),
        ensures
            final(self).advances(old(self), 0),
            final(self).pos() == old(self).pos(),
            final(self).log() == old(self).log(),
            final(self).expected() == old(self).expected(),
            final(self).source.cursor() == old(self).pos(),
            kind == old(self).lookahead(),
    {
        proof {
            self.source.lemma_within();
            lemma_skip_trivia(self.source.tokens(), self.source.cursor());
        }
        self.source.peek_kind()
    }

    proof fn lemma_push_keeps_balance(&self, e: Event)
        requires
            never_negative(self.events@),
            depth(self.events@) == 0,
            offsets_forward(self.events@),
            !(e is FinishNode),
            !(e is StartNode),
        ensures
            never_negative(self.events@.push(e)),
            depth(self.events@.push(e)) == 0,
            offsets_forward(self.events@.push(e)),
            count_tokens(self.events@.push(e)) == count_tokens(self.events@) + if e is AddToken {
                1nat
            } else {
                0nat
            },
    {
        let log = self.events@;
        let new = log.push(e);
        lemma_depth_push(log, e);
        assert forall|k: int| 0 <= k <= new.len() implies depth(#[trigger] new.take(k)) >= 0 by {
            if k <= log.len() {
                assert(new.take(k) =~= log.take(k));
            } else {
                assert(new.take(k) =~= new);
            }
        }
    }
}

/// Whether a kind occurs in a list of kinds.
fn holds_kind(set: &[TokenKind], kind: TokenKind) -> (r: bool)
    ensures
        r == set@.contains(kind),
{
    let mut i: usize = 0;
    while i < set.len()
        invariant
            i <= set@.len(),
            forall|j: int| 0 <= j < i ==> set@[j] != kind,
        decreases set@.len() - i,
    {
        if set[i] == kind {
            return true;
        }
        i += 1;
    }
    false
}

} // verus!
