//! A stack of positions: the current game line, with undo by popping.

use crate::board::Board;
use vstd::prelude::*;

verus! {

/// The positions of the game so far, newest last.
#[derive(Clone)]
pub struct BoardManager {
    pub board_record: Vec<Board>,
}

impl BoardManager {
    /// Starts a record holding the initial position.
    pub fn new() -> (r: BoardManager)
        ensures
            r.board_record@.len() == 1,
            r.board_record@[0] == Board::initial_spec(),
    {
        let mut bm = BoardManager { board_record: Vec::new() };
        bm.board_record.push(Board::new());
        bm
    }

    /// The newest position.
    pub fn current_board(&self) -> (r: Board)
        requires
            self.board_record@.len() > 0,
        ensures
            r == self.board_record@.last(),
    {
        self.board_record[self.board_record.len() - 1]
    }

    /// Removes and hands back the newest position.
    pub fn undo(&mut self) -> (r: Board)
        requires
            old(self).board_record@.len() > 0,
        ensures
            r == old(self).board_record@.last(),
            final(self).board_record@ == old(self).board_record@.drop_last(),
    {
        let n = self.board_record.len();
        let r = self.board_record[n - 1];
        proof {
            assert(self.board_record@.subrange(0, n - 1) =~= self.board_record@.drop_last());
        }
        self.board_record.truncate(n - 1);
        r
    }

    /// Appends a position.
    pub fn add(&mut self, board: Board)
        ensures
            final(self).board_record@ == old(self).board_record@.push(board),
    {
        self.board_record.push(board);
    }

    /// Resets the record to the initial position alone.
    pub fn clean(&mut self)
        ensures
            final(self).board_record@.len() == 1,
            final(self).board_record@[0] == Board::initial_spec(),
    {
        self.board_record.clear();
        self.board_record.push(Board::new());
    }
}

} // verus!
