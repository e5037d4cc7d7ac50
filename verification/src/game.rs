//! A replayable game record: positions with the move that produced each,
//! a cursor for undo and redo, and truncation on a new line of play.

use crate::board::Board;
use vstd::prelude::*;

verus! {

/// One entry of the record: a position and the move that reached it.
#[derive(Clone, Copy)]
pub struct RecordElement {
    pub board: Board,
    pub put_place: u64,
}

/// The game record and the cursor of the position on display.
#[derive(Clone)]
pub struct Game {
    pub record: Vec<RecordElement>,
    pub current_index: usize,
}

impl Game {
    /// The cursor always points at a recorded entry.
    pub open spec fn wf(self) -> bool {
        self.current_index < self.record@.len()
    }

    /// Starts a record holding the initial position and no move.
    pub fn new() -> (r: Game)
        ensures
            r.wf(),
            r.record@.len() == 1,
            r.record@[0].board == Board::initial_spec(),
            r.current_index == 0,
    {
        let mut record: Vec<RecordElement> = Vec::new();
        record.push(RecordElement { board: Board::new(), put_place: 0 });
        Game { record, current_index: 0 }
    }

    /// The position under the cursor.
    pub fn current_board(&self) -> (r: &Board)
        requires
            self.wf(),
        ensures
            *r == self.record@[self.current_index as int].board,
    {
        &self.record[self.current_index].board
    }

    /// Steps the cursor one entry back, if it is not at the start.
    pub fn undo(&mut self)
        requires
            old(self).wf(),
        ensures
            final(self).wf(),
            final(self).record == old(self).record,
            final(self).current_index == (if old(self).current_index > 0 {
                old(self).current_index - 1
            } else {
                0int
            }),
    {
        if self.current_index > 0 {
            self.current_index = self.current_index - 1;
        }
    }

    /// Steps the cursor one entry forward, if one is recorded.
    pub fn redo(&mut self)
        requires
            old(self).wf(),
        ensures
            final(self).wf(),
            final(self).record == old(self).record,
            final(self).current_index == (if old(self).current_index + 1 < old(
                self,
            ).record@.len() {
                old(self).current_index + 1
            } else {
                old(self).current_index as int
            }),
    {
        if self.current_index < self.record.len() - 1 {
            self.current_index = self.current_index + 1;
        }
    }

    /// Records a new position after the cursor, dropping any redo line
    /// beyond it, and moves the cursor onto it.
    pub fn add(&mut self, board: Board, put_place: u64)
        requires
            old(self).wf(),
        ensures
            final(self).wf(),
            final(self).current_index == old(self).current_index + 1,
            final(self).record@.len() == old(self).current_index + 2,
            final(self).record@.last().board == board,
            final(self).record@.last().put_place == put_place,
            forall|i: int|
                0 <= i <= old(self).current_index ==> #[trigger] final(self).record@[i] == old(
                    self,
                ).record@[i],
    {
        let n = self.record.len();
        proof {
            assert(old(self).current_index < n);
        }
        let keep = self.current_index + 1;
        proof {
            assert(self.record@.subrange(0, keep as int).len() == keep);
        }
        self.record.truncate(keep);
        self.record.push(RecordElement { board, put_place });
        self.current_index = self.current_index + 1;
    }

    /// Resets the record to the initial position alone.
    pub fn reset(&mut self)
        ensures
            final(self).wf(),
            final(self).record@.len() == 1,
            final(self).record@[0].board == Board::initial_spec(),
            final(self).current_index == 0,
    {
        self.record.clear();
        self.record.push(RecordElement { board: Board::new(), put_place: 0 });
        self.current_index = 0;
    }
}

} // verus!
