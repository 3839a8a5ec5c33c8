//! Markers: handles on positions of the event log.

use crate::event::{depth, Event};
use crate::parser::Parser;
use crate::syntax::SyntaxKind;
use drop_bomb::DropBomb;
use vstd::prelude::*;

verus! {

/// `DropBomb` of drop_bomb, as a value that is only carried along.
#[verifier::external_type_specification]
#[verifier::external_body]
pub struct ExDropBomb(DropBomb);

/// `DropBomb::new` of drop_bomb: a guard that panics when it is dropped
/// without having been defused. Nothing is claimed of the value.
#[verifier::external_body]
fn armed_guard() -> (guard: DropBomb) {
    DropBomb::new("Marker need to be completed")
}

/// `DropBomb::defuse` of drop_bomb: the guard will no longer panic when
/// dropped. Nothing is claimed of the value.
pub assume_specification[ DropBomb::defuse ](guard: &mut DropBomb)
;

/// An open marker: a placeholder in the event log that must be completed or
/// abandoned. Dropping it without doing either is a programming error and
/// panics.
pub struct Marker {
    pos: usize,
    completed: DropBomb,
}

impl Marker {
    /// The log position of the marker.
    pub closed spec fn pos(&self) -> usize {
        self.pos
    }

    pub(crate) fn new(pos: usize) -> (m: Self)
        ensures
            m.pos() == pos,
    {
        Self { pos, completed: armed_guard() }
    }

    /// The log position of the marker.
    pub fn position(&self) -> (pos: usize)
        ensures
            pos == self.pos(),
    {
        self.pos
    }

    /// Completes the marker as a node of the given kind: its placeholder
    /// becomes the start of the node, and the matching finish is appended.
    pub fn complete(self, p: &mut Parser, kind: SyntaxKind) -> (done: CompletedMarker)
        requires
            old(p).wf(),
            old(p).open().contains(self.pos() as int),
        ensures
            final(p).continues(old(p)),
            final(p).pos() == old(p).pos(),
            final(p).expected() == old(p).expected(),
            final(p).log() == old(p).log().update(
                self.pos() as int,
                Event::StartNode { kind, offset: None },
            ).push(Event::FinishNode),
            final(p).open() == old(p).open().remove(self.pos() as int),
            final(p).log().len() == old(p).log().len() + 1,
            done.pos() == self.pos(),
            done.pos() < old(p).log().len(),
            final(p).log()[done.pos() as int] is StartNode,
            forall|k: int|
                self.pos() < k <= old(p).log().len() ==> depth(#[trigger] final(p).log().take(k))
                    >= 1,
            final(p).model() == old(p).model().complete(self.pos() as int, kind),
    {
        let mut marker = self;
        marker.completed.defuse();
        p.complete_at(marker.pos, kind);
        CompletedMarker { pos: marker.pos }
    }

    /// Abandons the marker without making a node. Its placeholder is removed
    /// if it is the last event of the log, and stays behind otherwise.
    pub fn abandon(self, p: &mut Parser)
        requires
            old(p).wf(),
            old(p).open().contains(self.pos() as int),
        ensures
            final(p).continues(old(p)),
            final(p).pos() == old(p).pos(),
            final(p).expected() == old(p).expected(),
            final(p).log() == if self.pos() == old(p).log().len() - 1 {
                old(p).log().drop_last()
            } else {
                old(p).log()
            },
            final(p).open() == old(p).open().remove(self.pos() as int),
            final(p).log().len() <= old(p).log().len(),
            final(p).model() == old(p).model().abandon(self.pos() as int),
    {
        let mut marker = self;
        marker.completed.defuse();
        p.abandon_at(marker.pos);
    }
}

/// A completed marker: the log position of the start of a finished node.
pub struct CompletedMarker {
    pos: usize,
}

impl CompletedMarker {
    /// The log position of the start of the node.
    pub closed spec fn pos(&self) -> usize {
        self.pos
    }

    /// The log position of the start of the node.
    pub fn position(&self) -> (pos: usize)
        ensures
            pos == self.pos(),
    {
        self.pos
    }

    /// Opens a new marker whose node, once completed, encloses this node and
    /// everything logged after it: the start of this node is made to point
    /// forward to the new marker.
    pub fn precede(self, p: &mut Parser) -> (m: Marker)
        requires
            old(p).wf(),
            self.pos() < old(p).log().len(),
            old(p).log()[self.pos() as int] is StartNode,
        ensures
            final(p).continues(old(p)),
            final(p).pos() == old(p).pos(),
            final(p).expected() == old(p).expected(),
            final(p).log() == old(p).log().update(
                self.pos() as int,
                Event::StartNode {
                    kind: old(p).log()[self.pos() as int]->kind,
                    offset: Some((old(p).log().len() - self.pos()) as usize),
                },
            ).push(Event::Placeholder),
            final(p).open() == old(p).open().insert(old(p).log().len() as int),
            final(p).log().len() == old(p).log().len() + 1,
            final(p).model() == old(p).model().precede(self.pos() as int),
            m.pos() == old(p).log().len(),
            !old(p).open().contains(m.pos() as int),
    {
        p.precede_at(self.pos)
    }
}

} // verus!
