//! One grid cell: how it is shown and what lies under it.

use vstd::prelude::*;

verus! {

/// Why a tile counts as an error once a round is over.
#[derive(Clone, Copy, Debug, PartialEq, Eq, Structural)]
pub enum TileMistake {
    /// A mine that was uncovered.
    TrippedMine,
    /// A safe tile that carried a flag; the number is its mine count.
    FlaggedField(u8),
}

/// What lies under a tile.
#[derive(Clone, Copy, Debug, PartialEq, Eq, Structural)]
pub enum TileContent {
    Mine,
    /// A safe tile with the number of mines next to it.
    Field(u8),
    /// Replaces the content when a round ends, and only then.
    Mistake(TileMistake),
}

/// How a tile is shown to the player.
#[derive(Clone, Copy, Debug, PartialEq, Eq, Structural)]
pub enum TileMode {
    Hidden,
    Flagged,
    Revealed,
}

/// One cell of the board.
#[derive(Clone, Copy, Debug, PartialEq, Eq, Structural)]
pub struct Tile {
    pub mode: TileMode,
    pub content: TileContent,
}

/// Something a single tile can show, which a board can be searched or counted for.
#[derive(Clone, Copy, Debug, PartialEq, Eq, Structural)]
pub enum Feature {
    /// The tile is still covered and carries no flag.
    Hidden,
    /// The tile carries a flag.
    Flagged,
    /// The tile holds a mine.
    Mined,
    /// A safe tile that has not been uncovered yet.
    Unsolved,
    /// A mine that lies uncovered.
    Tripped,
    /// The tile has been marked as an error.
    Mistaken,
}

impl Tile {
    /// The tile every board starts from: covered, safe, no mine next to it.
    pub open spec fn blank() -> Tile {
        Tile { mode: TileMode::Hidden, content: TileContent::Field(0) }
    }

    /// Whether the tile is safe and has no mine next to it.
    pub open spec fn is_zero(self) -> bool {
        self.content == TileContent::Field(0)
    }

    /// Whether the tile has the feature.
    pub open spec fn has(self, feature: Feature) -> bool {
        match feature {
            Feature::Hidden => self.mode is Hidden,
            Feature::Flagged => self.mode is Flagged,
            Feature::Mined => self.content is Mine,
            Feature::Unsolved => self.content is Field && !(self.mode is Revealed),
            Feature::Tripped => self.mode is Revealed && self.content is Mine,
            Feature::Mistaken => self.content is Mistake,
        }
    }

    /// The tile uncovered, with its content left as it is.
    pub open spec fn opened(self) -> Tile {
        Tile { mode: TileMode::Revealed, content: self.content }
    }

    /// The tile after the player has toggled its flag: a covered tile gets one, a flagged
    /// tile loses it, an uncovered tile stays as it is.
    pub open spec fn toggled(self) -> Tile {
        match self.mode {
            TileMode::Hidden => Tile { mode: TileMode::Flagged, content: self.content },
            TileMode::Flagged => Tile { mode: TileMode::Hidden, content: self.content },
            TileMode::Revealed => self,
        }
    }

    /// The tile with a mine put under it.
    pub open spec fn mined(self) -> Tile {
        Tile { mode: self.mode, content: TileContent::Mine }
    }

    /// The tile with its number set to `n`.
    pub open spec fn numbered(self, n: u8) -> Tile {
        Tile { mode: self.mode, content: TileContent::Field(n) }
    }

    /// The tile as it is shown once the round is over: a flag on a safe tile and an
    /// uncovered mine become mistakes, every other mine is uncovered.
    pub open spec fn swept(self) -> Tile {
        match (self.mode, self.content) {
            (TileMode::Flagged, TileContent::Field(n)) => Tile {
                mode: TileMode::Flagged,
                content: TileContent::Mistake(TileMistake::FlaggedField(n)),
            },
            (TileMode::Revealed, TileContent::Mine) => Tile {
                mode: TileMode::Revealed,
                content: TileContent::Mistake(TileMistake::TrippedMine),
            },
            (TileMode::Hidden, TileContent::Mine) => Tile {
                mode: TileMode::Revealed,
                content: TileContent::Mine,
            },
            _ => self,
        }
    }

    /// Whether the tile has the feature.
    pub fn shows(&self, feature: Feature) -> (yes: bool)
        ensures
            yes == self.has(feature),
    {
        match feature {
            Feature::Hidden => matches!(self.mode, TileMode::Hidden),
            Feature::Flagged => matches!(self.mode, TileMode::Flagged),
            Feature::Mined => matches!(self.content, TileContent::Mine),
            Feature::Unsolved => matches!(self.content, TileContent::Field(_)) && !matches!(
                self.mode,
                TileMode::Revealed
            ),
            Feature::Tripped => matches!(self.mode, TileMode::Revealed) && matches!(
                self.content,
                TileContent::Mine
            ),
            Feature::Mistaken => matches!(self.content, TileContent::Mistake(_)),
        }
    }

    /// Turns the tile into what it shows at the end of a round.
    pub fn sweep(&mut self)
        requires
            !old(self).has(Feature::Mistaken),
        ensures
            *final(self) == old(self).swept(),
    {
        match (self.mode, self.content) {
            (TileMode::Flagged, TileContent::Field(c)) => {
                self.content = TileContent::Mistake(TileMistake::FlaggedField(c));
            },
            (TileMode::Flagged, TileContent::Mine)
            | (TileMode::Revealed | TileMode::Hidden, TileContent::Field(_)) => {},
            (TileMode::Revealed, TileContent::Mine) => {
                self.mode = TileMode::Revealed;
                self.content = TileContent::Mistake(TileMistake::TrippedMine);
            },
            (TileMode::Hidden, TileContent::Mine) => {
                self.mode = TileMode::Revealed;
            },
            (_, TileContent::Mistake(_)) => unreached(),
        }
    }
}

} // verus!
