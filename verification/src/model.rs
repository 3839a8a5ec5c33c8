//! What the primitives of the parser do, as functions on a model of its
//! state. A grammar rule is then a function on the model too, and says in
//! full what log the rule writes.

use crate::error::ParseError;
use crate::event::{diagnostics, Event};
use crate::source::{kind_at, skip_trivia};
use crate::span::Span;
use crate::syntax::SyntaxKind;
use crate::token::{Token, TokenKind};
use vstd::prelude::*;

verus! {

/// A diagnostic, as its values.
pub struct Diag {
    pub expected: Seq<TokenKind>,
    pub found: Option<TokenKind>,
    pub range: Span,
}

/// The values of a diagnostic.
pub open spec fn diag_of(error: ParseError) -> Diag {
    Diag { expected: error.expected@, found: error.found, range: error.range }
}

/// The values of diagnostics.
pub open spec fn diags_of(errors: Seq<ParseError>) -> Seq<Diag> {
    errors.map_values(|e: ParseError| diag_of(e))
}

/// An event without its diagnostic: an error event counts as a placeholder,
/// for neither adds anything to the tree.
pub open spec fn plain(event: Event) -> Event {
    match event {
        Event::Error(_) => Event::Placeholder,
        _ => event,
    }
}

/// A log without its diagnostics.
pub open spec fn plain_log(log: Seq<Event>) -> Seq<Event> {
    log.map_values(|e: Event| plain(e))
}

/// The state of the parser: the log without its diagnostics, the position of
/// the current token, the kinds that were looked for since the last token was
/// consumed, and the diagnostics.
pub struct Model {
    pub log: Seq<Event>,
    pub pos: int,
    pub expected: Seq<TokenKind>,
    pub errors: Seq<Diag>,
}

/// Where a diagnostic raised at a position points: at the token there, at the
/// last token if the input has ended, at `0..0` if there is no token at all.
pub open spec fn error_range(tokens: Seq<Token>, pos: int) -> Span {
    if 0 <= pos < tokens.len() {
        tokens[pos].range
    } else if tokens.len() > 0 {
        tokens.last().range
    } else {
        Span { start: 0, end: 0 }
    }
}

/// Token kinds at which error recovery stops without consuming anything: they
/// plausibly start a new construct.
pub open spec fn in_recovery_set(kind: TokenKind) -> bool {
    kind == TokenKind::Ident
}

impl Model {
    /// The state before anything is parsed.
    pub open spec fn initial(tokens: Seq<Token>) -> Model {
        Model {
            log: Seq::empty(),
            pos: skip_trivia(tokens, 0),
            expected: Seq::empty(),
            errors: Seq::empty(),
        }
    }

    /// The kind of the current token, `None` at the end.
    pub open spec fn lookahead(self, tokens: Seq<Token>) -> Option<TokenKind> {
        kind_at(tokens, self.pos)
    }

    /// Whether the current token is of the given kind.
    pub open spec fn is_at(self, tokens: Seq<Token>, kind: TokenKind) -> bool {
        self.lookahead(tokens) == Some(kind)
    }

    /// Opening a marker: a placeholder at the end of the log. The marker
    /// stands where the log ended before.
    pub open spec fn start(self) -> Model {
        Model { log: self.log.push(Event::Placeholder), ..self }
    }

    /// Consuming the current token.
    pub open spec fn bump(self, tokens: Seq<Token>) -> Model {
        Model {
            log: self.log.push(Event::AddToken),
            pos: skip_trivia(tokens, self.pos + 1),
            expected: Seq::empty(),
            ..self
        }
    }

    /// Looking for a kind: the kind is added to what was looked for.
    pub open spec fn at(self, kind: TokenKind) -> Model {
        Model { expected: self.expected.push(kind), ..self }
    }

    /// Completing the marker at `marker` as a node of the given kind.
    pub open spec fn complete(self, marker: int, kind: SyntaxKind) -> Model {
        Model {
            log: self.log.update(marker, Event::StartNode { kind, offset: None }).push(
                Event::FinishNode,
            ),
            ..self
        }
    }

    /// Abandoning the marker at `marker`.
    pub open spec fn abandon(self, marker: int) -> Model {
        Model {
            log: if marker == self.log.len() - 1 {
                self.log.drop_last()
            } else {
                self.log
            },
            ..self
        }
    }

    /// Opening a marker whose node will enclose the node that starts at
    /// `node`. The marker stands where the log ended before.
    pub open spec fn precede(self, node: int) -> Model {
        Model {
            log: self.log.update(
                node,
                Event::StartNode {
                    kind: self.log[node]->kind,
                    offset: Some((self.log.len() - node) as usize),
                },
            ).push(Event::Placeholder),
            ..self
        }
    }

    /// The diagnostic that an error raised now holds.
    pub open spec fn diagnostic(self, tokens: Seq<Token>) -> Diag {
        Diag {
            expected: self.expected,
            found: self.lookahead(tokens),
            range: error_range(tokens, self.pos),
        }
    }

    /// Whether an error raised now consumes the current token: there is one,
    /// and it is not in the recovery set.
    pub open spec fn recovers(self, tokens: Seq<Token>) -> bool {
        self.lookahead(tokens) matches Some(k) && !in_recovery_set(k)
    }

    /// Raising an error: the diagnostic is recorded, what was looked for is
    /// forgotten, and where recovery consumes it, the current token is put
    /// into a node of kind `Error`.
    pub open spec fn error(self, tokens: Seq<Token>) -> Model {
        let raised = Model {
            log: self.log.push(Event::Placeholder),
            expected: Seq::empty(),
            errors: self.errors.push(self.diagnostic(tokens)),
            ..self
        };
        if self.recovers(tokens) {
            raised.start().bump(tokens).complete(raised.log.len() as int, SyntaxKind::Error)
        } else {
            raised
        }
    }

    /// Expecting a kind: the token is consumed if it is of that kind, and an
    /// error is raised otherwise.
    pub open spec fn expect(self, tokens: Seq<Token>, kind: TokenKind) -> Model {
        if self.is_at(tokens, kind) {
            self.at(kind).bump(tokens)
        } else {
            self.at(kind).error(tokens)
        }
    }
}

/// Replacing an event that holds no diagnostic by another that holds none
/// leaves the diagnostics of the log as they are.
pub proof fn lemma_diagnostics_update(log: Seq<Event>, at: int, event: Event)
    requires
        0 <= at < log.len(),
        !(log[at] is Error),
        !(event is Error),
    ensures
        diagnostics(log.update(at, event)) == diagnostics(log),
    decreases log.len(),
{
    let new = log.update(at, event);
    if at == log.len() - 1 {
        assert(new.drop_last() =~= log.drop_last());
    } else {
        lemma_diagnostics_update(log.drop_last(), at, event);
        assert(new.drop_last() =~= log.drop_last().update(at, event));
    }
}

/// An event put at the end of the log adds its diagnostic, if it holds one.
pub proof fn lemma_diagnostics_push(log: Seq<Event>, event: Event)
    ensures
        diagnostics(log.push(event)) == match event {
            Event::Error(e) => diagnostics(log).push(e),
            _ => diagnostics(log),
        },
        diagnostics(Seq::<Event>::empty()) == Seq::<ParseError>::empty(),
{
    assert(log.push(event).drop_last() =~= log);
}

} // verus!
