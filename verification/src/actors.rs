//! What walks the level: where an actor stands, what it is, and what it
//! currently sees.

use vstd::prelude::*;

verus! {

/// A cell of the level, by column and row.
#[derive(Clone, Copy, Debug, PartialEq, Eq, Structural)]
pub struct Position {
    pub x: i32,
    pub y: i32,
}

/// Who moves an actor.
#[derive(Clone, Copy, Debug, PartialEq, Eq, Structural)]
pub enum Role {
    /// The actor that the player moves.
    Player,
    /// An actor that moves by itself.
    Monster,
}

/// What an actor perceives: the indices of the tiles it sees, how far it
/// sees, and whether the tiles have to be worked out anew because the actor
/// has appeared or moved since they were.
#[derive(Clone, Debug)]
pub struct Viewshed {
    pub visible_tiles: Vec<usize>,
    pub range: i32,
    pub dirty: bool,
}

/// An actor of the level.
#[derive(Clone, Debug)]
pub struct Actor {
    pub role: Role,
    pub position: Position,
    pub viewshed: Viewshed,
}

/// Whether `idx` is one of `indices`.
pub open spec fn lists(indices: Seq<usize>, idx: int) -> bool {
    exists|k: int| 0 <= k < indices.len() && #[trigger] indices[k] == idx
}

impl Viewshed {
    /// Whether the tile with index `idx` is among the tiles seen.
    pub open spec fn sees(&self, idx: int) -> bool {
        lists(self.visible_tiles@, idx)
    }

    /// The perception of an actor that has just appeared: it sees `range`
    /// cells far, has seen nothing yet, and is due to be worked out.
    pub fn new(range: i32) -> (viewshed: Viewshed)
        ensures
            viewshed.range == range,
            viewshed.dirty,
            viewshed.visible_tiles@.len() == 0,
    {
        Viewshed { visible_tiles: Vec::new(), range, dirty: true }
    }

    /// Whether the tile with index `idx` is among the tiles seen.
    pub fn contains(&self, idx: usize) -> (found: bool)
        ensures
            found == self.sees(idx as int),
    {
        let mut k: usize = 0;
        while k < self.visible_tiles.len()
            invariant
                0 <= k <= self.visible_tiles@.len(),
                forall|j: int| 0 <= j < k ==> self.visible_tiles@[j] != idx,
            decreases self.visible_tiles@.len() - k,
        {
            if self.visible_tiles[k] == idx {
                return true;
            }
            k = k + 1;
        }
        false
    }

    /// Asks for the tiles seen to be worked out anew at the next pass.
    pub fn mark_dirty(&mut self)
        ensures
            final(self).dirty,
            final(self).range == old(self).range,
            final(self).visible_tiles@ == old(self).visible_tiles@,
    {
        self.dirty = true;
    }
}

impl Actor {
    /// An actor that has just appeared at `position` and sees `range` cells
    /// far.
    pub fn new(role: Role, position: Position, range: i32) -> (actor: Actor)
        ensures
            actor.role == role,
            actor.position == position,
            actor.viewshed.range == range,
            actor.viewshed.dirty,
            actor.viewshed.visible_tiles@.len() == 0,
    {
        Actor { role, position, viewshed: Viewshed::new(range) }
    }

    /// Moves the actor to `(x, y)` and asks for what it sees to be worked
    /// out anew.
    pub fn move_to(&mut self, x: i32, y: i32)
        ensures
            final(self).position == (Position { x, y }),
            final(self).role == old(self).role,
            final(self).viewshed.dirty,
            final(self).viewshed.range == old(self).viewshed.range,
            final(self).viewshed.visible_tiles@ == old(self).viewshed.visible_tiles@,
    {
        self.position = Position { x, y };
        self.viewshed.mark_dirty();
    }
}

} // verus!
