//! The cursor over the token sequence.

use crate::span::Span;
use crate::token::{Token, TokenKind};
use vstd::prelude::*;

verus! {

/// The first position at or after `from` that holds no trivia; the length of
/// the sequence if only trivia follows.
pub open spec fn skip_trivia(tokens: Seq<Token>, from: int) -> int
    decreases tokens.len() - from,
{
    if 0 <= from < tokens.len() && tokens[from].kind.spec_is_trivia() {
        skip_trivia(tokens, from + 1)
    } else {
        from
    }
}

/// The number of tokens of the sequence that are not trivia.
pub open spec fn count_structural(tokens: Seq<Token>) -> nat
    decreases tokens.len(),
{
    if tokens.len() == 0 {
        0
    } else {
        count_structural(tokens.drop_last()) + if tokens.last().kind.spec_is_trivia() {
            0nat
        } else {
            1nat
        }
    }
}

/// The position of the `n`-th structural token at or after `from`, counting
/// from zero; the length of the sequence if there are not that many.
pub open spec fn nth_structural(tokens: Seq<Token>, from: int, n: nat) -> int
    decreases n,
{
    let at = skip_trivia(tokens, from);
    if at >= tokens.len() {
        tokens.len() as int
    } else if n == 0 {
        at
    } else {
        nth_structural(tokens, at + 1, (n - 1) as nat)
    }
}

/// The kind at a position, `None` at or past the end.
pub open spec fn kind_at(tokens: Seq<Token>, at: int) -> Option<TokenKind> {
    if 0 <= at < tokens.len() {
        Some(tokens[at].kind)
    } else {
        None
    }
}

/// Skipping trivia moves forward, stays within the sequence, stops on a
/// structural token or at the end, and passes over trivia only.
pub proof fn lemma_skip_trivia(tokens: Seq<Token>, from: int)
    requires
        0 <= from <= tokens.len(),
    ensures
        from <= skip_trivia(tokens, from) <= tokens.len(),
        skip_trivia(tokens, from) < tokens.len() ==> !tokens[skip_trivia(
            tokens,
            from,
        )].kind.spec_is_trivia(),
        skip_trivia(tokens, skip_trivia(tokens, from)) == skip_trivia(tokens, from),
        forall|i: int| from <= i < skip_trivia(tokens, from) ==> tokens[i].kind.spec_is_trivia(),
        count_structural(tokens.take(skip_trivia(tokens, from))) == count_structural(
            tokens.take(from),
        ),
    decreases tokens.len() - from,
{
    if from < tokens.len() && tokens[from].kind.spec_is_trivia() {
        lemma_skip_trivia(tokens, from + 1);
        lemma_count_structural_step(tokens, from);
    }
}

/// A prefix one longer counts one more if the added token is structural.
pub proof fn lemma_count_structural_step(tokens: Seq<Token>, k: int)
    requires
        0 <= k < tokens.len(),
    ensures
        count_structural(tokens.take(k + 1)) == count_structural(tokens.take(k)) + if tokens[k].kind.spec_is_trivia() {
            0nat
        } else {
            1nat
        },
{
    assert(tokens.take(k + 1).drop_last() =~= tokens.take(k));
}

/// A longer prefix holds at least as many structural tokens.
pub proof fn lemma_count_structural_monotone(tokens: Seq<Token>, a: int, b: int)
    requires
        0 <= a <= b <= tokens.len(),
    ensures
        count_structural(tokens.take(a)) <= count_structural(tokens.take(b)),
    decreases b - a,
{
    if a < b {
        lemma_count_structural_monotone(tokens, a, b - 1);
        lemma_count_structural_step(tokens, b - 1);
    }
}

/// The cursor: a token sequence and a position in it that only moves forward.
pub struct Source<'l> {
    tokens: &'l [Token],
    cursor: usize,
}

impl<'l> Source<'l> {
    /// The raw position lies within the sequence.
    pub closed spec fn wf(&self) -> bool {
        self.cursor <= self.tokens@.len()
    }

    /// The token sequence.
    pub closed spec fn tokens(&self) -> Seq<Token> {
        self.tokens@
    }

    /// The raw position: everything before it has been passed.
    pub closed spec fn cursor(&self) -> int {
        self.cursor as int
    }

    /// The position of the current structural token: the raw position moved
    /// past trivia. It is the length of the sequence at the end of the input.
    pub open spec fn pos(&self) -> int {
        skip_trivia(self.tokens(), self.cursor())
    }

    /// The kind of the current structural token, `None` at the end.
    pub open spec fn current(&self) -> Option<TokenKind> {
        kind_at(self.tokens(), self.pos())
    }

    /// The kind of the `n`-th structural token from the current one.
    pub open spec fn nth(&self, n: nat) -> Option<TokenKind> {
        kind_at(self.tokens(), nth_structural(self.tokens(), self.cursor(), n))
    }

    /// Both positions of a well-formed cursor lie within the sequence.
    pub proof fn lemma_within(&self)
        requires
            self.wf(),
        ensures
            0 <= self.cursor() <= self.pos() <= self.tokens().len(),
    {
        lemma_skip_trivia(self.tokens(), self.cursor());
    }

    /// A cursor at the start of the sequence.
    pub fn new(tokens: &'l [Token]) -> (source: Self)
        ensures
            source.wf(),
            source.tokens() == tokens@,
            source.cursor() == 0,
    {
        Self { tokens, cursor: 0 }
    }

    /// Skips trivia, then hands out the current token and moves past it.
    /// `None` at the end of the input.
    pub fn next_token(&mut self) -> (token: Option<&'l Token>)
        requires
            old(self).wf(),
        ensures
            final(self).wf(),
            final(self).tokens() == old(self).tokens(),
            match token {
                Some(t) => old(self).pos() < old(self).tokens().len() && *t == old(
                    self,
                ).tokens()[old(self).pos()] && final(self).cursor() == old(self).pos() + 1,
                None => old(self).pos() == old(self).tokens().len() && final(self).cursor() == old(
                    self,
                ).pos(),
            },
    {
        self.eat_trivia();
        if self.cursor < self.tokens.len() {
            let token = &self.tokens[self.cursor];
            self.cursor += 1;
            Some(token)
        } else {
            None
        }
    }

    /// Skips trivia, then gives the kind of the current token without moving
    /// past it.
    pub fn peek_kind(&mut self) -> (kind: Option<TokenKind>)
        requires
            old(self).wf(),
        ensures
            final(self).wf(),
            final(self).tokens() == old(self).tokens(),
            final(self).cursor() == old(self).pos(),
            final(self).pos() == old(self).pos(),
            kind == old(self).current(),
    {
        self.eat_trivia();
        self.peek_kind_raw()
    }

    /// Skips trivia, then gives the current token without moving past it.
    pub fn peek_token(&mut self) -> (token: Option<&'l Token>)
        requires
            old(self).wf(),
        ensures
            final(self).wf(),
            final(self).tokens() == old(self).tokens(),
            final(self).cursor() == old(self).pos(),
            final(self).pos() == old(self).pos(),
            match token {
                Some(t) => old(self).pos() < old(self).tokens().len() && *t == old(
                    self,
                ).tokens()[old(self).pos()],
                None => old(self).pos() == old(self).tokens().len(),
            },
    {
        self.eat_trivia();
        self.peek_token_raw()
    }

    /// The kind of the `n`-th structural token from the current one, counting
    /// from zero, without moving. Scans from the current position on each call.
    pub fn peek_nth(&self, n: usize) -> (kind: Option<TokenKind>)
        requires
            self.wf(),
        ensures
            kind == self.nth(n as nat),
    {
        let mut at: usize = self.cursor;
        let mut left: usize = n;
        loop
            invariant
                self.cursor <= at <= self.tokens@.len(),
                left <= n,
                nth_structural(self.tokens@, at as int, left as nat) == nth_structural(
                    self.tokens@,
                    self.cursor as int,
                    n as nat,
                ),
            decreases self.tokens@.len() - at,
        {
            if at >= self.tokens.len() {
                return None;
            }
            let kind = self.tokens[at].kind;
            proof {
                lemma_skip_trivia(self.tokens@, at as int + 1);
            }
            if kind.is_trivia() {
                at += 1;
            } else if left == 0 {
                return Some(kind);
            } else {
                at += 1;
                left -= 1;
            }
        }
    }

    /// The range of the last token of the sequence, trivia included.
    pub fn last_token_range(&self) -> (range: Option<Span>)
        ensures
            range == if self.tokens().len() > 0 {
                Some(self.tokens().last().range)
            } else {
                None
            },
    {
        let n = self.tokens.len();
        if n > 0 {
            Some(self.tokens[n - 1].range)
        } else {
            None
        }
    }

    /// The number of tokens of the sequence.
    pub fn len(&self) -> (n: usize)
        ensures
            n == self.tokens().len(),
    {
        self.tokens.len()
    }

    fn peek_kind_raw(&self) -> (kind: Option<TokenKind>)
        requires
            self.wf(),
        ensures
            kind == kind_at(self.tokens(), self.cursor()),
    {
        if self.cursor < self.tokens.len() {
            Some(self.tokens[self.cursor].kind)
        } else {
            None
        }
    }

    fn peek_token_raw(&self) -> (token: Option<&'l Token>)
        requires
            self.wf(),
        ensures
            match token {
                Some(t) => self.cursor() < self.tokens().len() && *t == self.tokens()[self.cursor()],
                None => self.cursor() >= self.tokens().len(),
            },
    {
        if self.cursor < self.tokens.len() {
            Some(&self.tokens[self.cursor])
        } else {
            None
        }
    }

    fn eat_trivia(&mut self)
        requires
            old(self).wf(),
        ensures
            final(self).wf(),
            final(self).tokens() == old(self).tokens(),
            final(self).cursor() == old(self).pos(),
            final(self).pos() == old(self).pos(),
            old(self).cursor() <= final(self).cursor() <= final(self).tokens().len(),
    {
        proof {
            lemma_skip_trivia(self.tokens@, self.cursor as int);
        }
        let n = self.tokens.len();
        while self.at_trivia()
            invariant
                self.wf(),
                n == self.tokens@.len(),
                self.tokens@ == old(self).tokens@,
                old(self).cursor <= self.cursor <= self.tokens@.len(),
                skip_trivia(self.tokens@, self.cursor as int) == skip_trivia(
                    old(self).tokens@,
                    old(self).cursor as int,
                ),
            decreases self.tokens@.len() - self.cursor,
        {
            self.cursor += 1;
        }
    }

    fn at_trivia(&self) -> (r: bool)
        requires
            self.wf(),
        ensures
            r == (self.cursor() < self.tokens().len() && self.tokens()[self.cursor()].kind.spec_is_trivia()),
    {
        match self.peek_kind_raw() {
            Some(kind) => kind.is_trivia(),
            None => false,
        }
    }
}

} // verus!
