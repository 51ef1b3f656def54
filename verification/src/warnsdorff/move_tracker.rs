use vstd::prelude::*;
use crate::board_pos::BoardPos;

verus! {

/// The stack of squares placed so far by the search, most recent last.
pub struct MoveTracker {
    pub data: Vec<BoardPos>,
}

impl MoveTracker {
    /// An empty tracker; `capacity` is only a sizing hint.
    pub fn new(capacity: usize) -> (r: Self)
        ensures
            r.data@.len() == 0,
    {
        let _ = capacity;
        MoveTracker { data: Vec::new() }
    }

    pub fn push(&mut self, pos: BoardPos)
        ensures
            final(self).data@ == old(self).data@.push(pos),
    {
        self.data.push(pos);
    }

    pub fn pop(&mut self) -> (r: Option<BoardPos>)
        ensures
            old(self).data@.len() == 0 ==> r is None && final(self).data@ == old(self).data@,
            old(self).data@.len() > 0 ==> r == Some(old(self).data@[old(self).data@.len() - 1])
                && final(self).data@ == old(self).data@.drop_last(),
    {
        self.data.pop()
    }
}

} // verus!
