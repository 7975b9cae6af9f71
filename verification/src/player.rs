//! Player identities.  The game is fixed at two players: White starts on the
//! top baseline and walks toward row 0, Black starts on row 0 and walks
//! toward the top baseline.

use vstd::prelude::*;

verus! {

/// A player-index type: a fixed, small set of player identities.
pub trait PlayerIndexTrait: Sized {
    /// Every player, in a fixed enumeration order.
    fn get_player_index_array() -> Vec<Self>;

    /// The player whose turn follows this one.
    fn next_player(self) -> Self;

    /// Upper-case display name.
    fn to_string(self) -> &'static str;

    /// Display name of the player's colour.
    fn get_color_as_string(self) -> &'static str;
}

/// The two players of a game.
#[derive(Clone, Copy, PartialEq, Eq, Structural, Debug)]
pub enum TwoPlayerIndices {
    White,
    Black,
}

impl TwoPlayerIndices {
    /// The opposing player.
    pub open spec fn spec_other(self) -> TwoPlayerIndices {
        match self {
            TwoPlayerIndices::White => TwoPlayerIndices::Black,
            TwoPlayerIndices::Black => TwoPlayerIndices::White,
        }
    }
}

impl PlayerIndexTrait for TwoPlayerIndices {
    fn get_player_index_array() -> (r: Vec<Self>)
        ensures
            r@ == seq![TwoPlayerIndices::White, TwoPlayerIndices::Black],
    {
        let mut r: Vec<TwoPlayerIndices> = Vec::new();
        r.push(TwoPlayerIndices::White);
        r.push(TwoPlayerIndices::Black);
        assert(r@ =~= seq![TwoPlayerIndices::White, TwoPlayerIndices::Black]);
        r
    }

    fn next_player(self) -> (r: Self)
        ensures
            self == TwoPlayerIndices::White ==> r == TwoPlayerIndices::Black,
            self == TwoPlayerIndices::Black ==> r == TwoPlayerIndices::White,
    {
        match self {
            TwoPlayerIndices::White => TwoPlayerIndices::Black,
            TwoPlayerIndices::Black => TwoPlayerIndices::White,
        }
    }

    fn to_string(self) -> (r: &'static str)
        ensures
            self == TwoPlayerIndices::White ==> r@ == "WHITE"@,
            self == TwoPlayerIndices::Black ==> r@ == "BLACK"@,
    {
        match self {
            TwoPlayerIndices::White => "WHITE",
            TwoPlayerIndices::Black => "BLACK",
        }
    }

    fn get_color_as_string(self) -> (r: &'static str)
        ensures
            self == TwoPlayerIndices::White ==> r@ == "White"@,
            self == TwoPlayerIndices::Black ==> r@ == "Black"@,
    {
        match self {
            TwoPlayerIndices::White => "White",
            TwoPlayerIndices::Black => "Black",
        }
    }
}

} // verus!
