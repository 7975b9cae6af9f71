//! Per-player state: current cell, remaining wall budget, and the cached
//! list of shortest paths to the goal baseline.

use vstd::prelude::*;
use crate::board_square::DirectionsSquare;
use crate::board_square::FieldIndexSquare;

verus! {

/// One step of a path: the cell entered and the direction that entered it.
pub type PathStep = (FieldIndexSquare, DirectionsSquare);

/// What the engine keeps per player.
pub trait PlayerDataTrait {
    type FieldIndexType;
    type DirectionsType;
    type WallCountType;

    /// The remaining wall budget, for contracts.
    spec fn wall_count_spec(&self) -> nat;

    fn get_current_field(&self) -> Self::FieldIndexType;

    fn change_current_field(&mut self, new_field: Self::FieldIndexType);

    fn get_wall_count(&self) -> Self::WallCountType;

    fn reduce_wall_count_by_one(&mut self)
        requires
            old(self).wall_count_spec() >= 1,
    ;

    fn get_shortest_paths(&self) -> &Vec<Vec<(Self::FieldIndexType, Self::DirectionsType)>>;

    fn change_shortest_paths(
        &mut self,
        new_list: Vec<Vec<(Self::FieldIndexType, Self::DirectionsType)>>,
    );
}

/// Player state on the square board.
pub struct PlayerDataSquare {
    pub current_field: FieldIndexSquare,
    pub wall_count: usize,
    pub shortest_paths: Vec<Vec<PathStep>>,
}

impl PlayerDataTrait for PlayerDataSquare {
    type FieldIndexType = FieldIndexSquare;
    type DirectionsType = DirectionsSquare;
    type WallCountType = usize;

    open spec fn wall_count_spec(&self) -> nat {
        self.wall_count as nat
    }

    fn get_current_field(&self) -> (r: FieldIndexSquare)
        ensures
            r == self.current_field,
    {
        self.current_field
    }

    fn change_current_field(&mut self, new_field: FieldIndexSquare)
        ensures
            final(self).current_field == new_field,
            final(self).wall_count == old(self).wall_count,
            final(self).shortest_paths == old(self).shortest_paths,
    {
        self.current_field = new_field;
    }

    fn get_wall_count(&self) -> (r: usize)
        ensures
            r == self.wall_count,
    {
        self.wall_count
    }

    fn reduce_wall_count_by_one(&mut self)
        ensures
            final(self).wall_count == old(self).wall_count - 1,
            final(self).current_field == old(self).current_field,
            final(self).shortest_paths == old(self).shortest_paths,
    {
        self.wall_count = self.wall_count - 1;
    }

    fn get_shortest_paths(&self) -> (r: &Vec<Vec<PathStep>>)
        ensures
            *r == self.shortest_paths,
    {
        &self.shortest_paths
    }

    fn change_shortest_paths(&mut self, new_list: Vec<Vec<PathStep>>)
        ensures
            final(self).shortest_paths == new_list,
            final(self).current_field == old(self).current_field,
            final(self).wall_count == old(self).wall_count,
    {
        self.shortest_paths = new_list;
    }
}

} // verus!
