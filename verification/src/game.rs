//! A round of the game: the cursor, the phase it is in, and what the player's moves do.

use crate::clock::{elapsed_since, now, Elapsed};
use crate::count::lemma_cells_bound;
use crate::flood::{
    covered, lemma_revealed_contents, lemma_revealed_flags, lemma_revealed_single, revealed,
};
use crate::grid::{
    any, at, cell, census, height, inside, lemma_census_none, lemma_put, lemma_swept,
    lemma_swept_flags, lemma_toggled_flags, numbered, put, rectangular, shows_at, swept, toggled,
    width, Cell, Grid,
};
use crate::layout::{lemma_same_contents, opening};
use crate::tile::{Feature, Tile, TileContent, TileMistake, TileMode};
use crate::tiles::{Tiles, TilesOptions};
use std::time::Instant;
use vstd::prelude::*;

verus! {

/// The four ways the cursor can step. `Up` and `Left` lead towards row and column 0.
#[derive(Clone, Copy, Debug, PartialEq, Eq, Structural)]
pub enum CursorDirection {
    Up,
    Left,
    Right,
    Down,
}

/// How a round stands, as the player sees it.
#[derive(Clone, Copy, Debug, PartialEq, Eq, Structural)]
pub enum GameStatus {
    Initial,
    Won,
    Lost,
    Ongoing,
}

enum GameState {
    Blank,
    Ongoing { started: Instant, tiles: Tiles },
    Finished { took: Elapsed, tiles: Tiles },
}

/// A round of the game, from before its first move until after its end, and the cursor
/// that the player's moves act at. The configuration and the cursor outlast the round.
pub struct Game {
    cursor: (usize, usize),
    size: (usize, usize),
    state: GameState,
    mine_count: usize,
}

/// The phase of a round with what belongs to it: no board before the first move, the
/// board and the time of the first move while the round runs, the board as it is shown
/// at the end and the time the round took once it is over.
pub enum Phase {
    NotStarted,
    InProgress { board: Grid, started: Instant },
    Finished { board: Grid, took: Elapsed },
}

/// What a `Game` stands for: the cursor, the configured size and number of mines, and the
/// phase of the round.
pub struct GameView {
    pub cursor: Cell,
    pub size: (int, int),
    pub mine_count: nat,
    pub phase: Phase,
}

/// Every safe tile lies uncovered.
pub open spec fn cleared(g: Grid) -> bool {
    !any(g, Feature::Unsolved)
}

/// Some mine lies uncovered.
pub open spec fn tripped(g: Grid) -> bool {
    any(g, Feature::Tripped)
}

/// What a board is while a round runs on it: of the configured size, with the configured
/// number of mines, every safe tile numbered, and no tile marked as a mistake.
pub open spec fn live(g: Grid, size: (int, int), mine_count: nat) -> bool {
    &&& rectangular(g)
    &&& width(g) == size.0
    &&& height(g) == size.1
    &&& census(g, Feature::Mined) == mine_count
    &&& numbered(g)
    &&& !any(g, Feature::Mistaken)
}

/// The phase `next` follows a move that left the board of a running round as `g`: the
/// round is over, with the board swept, as soon as every safe tile or any mine lies
/// uncovered; else it runs on, on `g`.
pub open spec fn follows(g: Grid, started: Instant, next: Phase) -> bool {
    if cleared(g) || tripped(g) {
        next matches Phase::Finished { board, took } && board == swept(g) && took.wf()
    } else {
        next == (Phase::InProgress { board: g, started })
    }
}

/// The number nearest to `v` from `low` to `high`.
pub open spec fn clamped(v: int, low: int, high: int) -> int {
    if v < low {
        low
    } else if v > high {
        high
    } else {
        v
    }
}

/// The cursor after one step in a direction, kept on a board of the given size.
pub open spec fn moved(cursor: Cell, size: (int, int), direction: CursorDirection) -> Cell {
    let step = match direction {
        CursorDirection::Up => (cursor.0, cursor.1 - 1),
        CursorDirection::Down => (cursor.0, cursor.1 + 1),
        CursorDirection::Left => (cursor.0 - 1, cursor.1),
        CursorDirection::Right => (cursor.0 + 1, cursor.1),
    };
    (clamped(step.0, 0, size.0 - 1), clamped(step.1, 0, size.1 - 1))
}

impl GameView {
    /// The configuration leaves a cell without a mine, the cursor is on the board, and the
    /// board, once there is one, has the configured size; while the round runs it is a
    /// live board, and the time a round took is well formed.
    pub open spec fn wf(self) -> bool {
        &&& self.mine_count < self.size.0 * self.size.1 <= i32::MAX
        &&& 0 <= self.cursor.0 < self.size.0
        &&& 0 <= self.cursor.1 < self.size.1
        &&& match self.phase {
            Phase::NotStarted => true,
            Phase::InProgress { board, .. } => live(board, self.size, self.mine_count),
            Phase::Finished { board, took } => rectangular(board) && width(board) == self.size.0
                && height(board) == self.size.1 && took.wf(),
        }
    }

    /// The tile shown at `c`: a blank one as long as there is no board.
    pub open spec fn tile(self, c: Cell) -> Tile {
        match self.phase {
            Phase::NotStarted => Tile::blank(),
            Phase::InProgress { board, .. } => at(board, c),
            Phase::Finished { board, .. } => at(board, c),
        }
    }

    /// The mines that no flag accounts for. More flags than mines make it negative.
    pub open spec fn remaining(self) -> int {
        match self.phase {
            Phase::NotStarted => self.mine_count as int,
            Phase::InProgress { board, .. } => self.mine_count - census(board, Feature::Flagged),
            Phase::Finished { board, .. } => self.mine_count - census(board, Feature::Flagged),
        }
    }

    /// A round that is over is lost if its board shows a mistake, and won if it shows none.
    pub open spec fn status(self) -> GameStatus {
        match self.phase {
            Phase::NotStarted => GameStatus::Initial,
            Phase::InProgress { .. } => GameStatus::Ongoing,
            Phase::Finished { board, .. } => if any(board, Feature::Mistaken) {
                GameStatus::Lost
            } else {
                GameStatus::Won
            },
        }
    }
}

impl View for Game {
    type V = GameView;

    closed spec fn view(&self) -> GameView {
        GameView {
            cursor: cell(self.cursor),
            size: (self.size.0 as int, self.size.1 as int),
            mine_count: self.mine_count as nat,
            phase: match self.state {
                GameState::Blank => Phase::NotStarted,
                GameState::Ongoing { started, tiles } => Phase::InProgress {
                    board: tiles@,
                    started,
                },
                GameState::Finished { took, tiles } => Phase::Finished { board: tiles@, took },
            },
        }
    }
}

impl Game {
    #[verifier::type_invariant]
    spec fn inv(&self) -> bool {
        self@.wf()
    }

    /// A round that has not started, on a board of `size.0` by `size.1` tiles with
    /// `mine_count` mines, the cursor in the corner.
    pub fn new(size: (usize, usize), mine_count: usize) -> (game: Game)
        requires
            mine_count < size.0 * size.1 <= i32::MAX,
        ensures
            game@.wf(),
            game@ == (GameView {
                cursor: (0, 0),
                size: (size.0 as int, size.1 as int),
                mine_count: mine_count as nat,
                phase: Phase::NotStarted,
            }),
    {
        assert(size.0 > 0 && size.1 > 0) by (nonlinear_arith)
            requires
                0 <= mine_count < size.0 * size.1,
        ;
        Game { cursor: (0, 0), size, state: GameState::Blank, mine_count }
    }

    /// The cell the cursor is at.
    pub fn cursor(&self) -> (cursor: (usize, usize))
        ensures
            self@.wf(),
            cell(cursor) == self@.cursor,
    {
        proof {
            use_type_invariant(self);
        }
        self.cursor
    }

    /// The configured width and height.
    pub fn size(&self) -> (size: (usize, usize))
        ensures
            self@.wf(),
            size.0 == self@.size.0,
            size.1 == self@.size.1,
    {
        proof {
            use_type_invariant(self);
        }
        self.size
    }

    /// Moves the cursor one step, unless that would take it off the board.
    pub fn move_cursor(&mut self, direction: &CursorDirection)
        ensures
            final(self)@.wf(),
            final(self)@ == (GameView {
                cursor: moved(old(self)@.cursor, old(self)@.size, *direction),
                ..old(self)@
            }),
    {
        proof {
            use_type_invariant(&*self);
        }
        let (mut x, mut y) = self.cursor;
        match direction {
            CursorDirection::Up => y = y.saturating_sub(1),
            CursorDirection::Down => y = y.saturating_add(1),
            CursorDirection::Left => x = x.saturating_sub(1),
            CursorDirection::Right => x = x.saturating_add(1),
        }
        let size = self.size;
        if x > size.0 - 1 {
            x = size.0 - 1;
        }
        if y > size.1 - 1 {
            y = size.1 - 1;
        }
        self.cursor = (x, y);
    }

    /// The time on the clock and how the round stands. The clock shows nothing before the
    /// first move, runs while the round does, and stands still once it is over.
    pub fn status(&self) -> (status: (Elapsed, GameStatus))
        ensures
            status.1 == self@.status(),
            status.0.wf(),
            self@.phase is NotStarted ==> status.0 == Elapsed::zero(),
            self@.phase matches Phase::Finished { took, .. } ==> status.0 == took,
    {
        proof {
            use_type_invariant(self);
        }
        match &self.state {
            GameState::Blank => (Elapsed { secs: 0, nanos: 0 }, GameStatus::Initial),
            GameState::Ongoing { started, .. } => (elapsed_since(started), GameStatus::Ongoing),
            GameState::Finished { took, tiles } => {
                let lost = tiles.count(Feature::Mistaken) > 0;
                proof {
                    lemma_census_none(tiles@, Feature::Mistaken);
                }
                if lost {
                    (*took, GameStatus::Lost)
                } else {
                    (*took, GameStatus::Won)
                }
            },
        }
    }

    /// The number of mines less the number of flags on the board.
    pub fn unflagged_bombs(&self) -> (left: i32)
        ensures
            left == self@.remaining(),
    {
        proof {
            use_type_invariant(self);
        }
        match &self.state {
            GameState::Blank => self.mine_count as i32,
            GameState::Ongoing { tiles, .. } | GameState::Finished { tiles, .. } => {
                let flags = tiles.count(Feature::Flagged);
                proof {
                    lemma_cells_bound(
                        width(tiles@),
                        height(tiles@),
                        shows_at(tiles@, Feature::Flagged),
                    );
                }
                self.mine_count as i32 - flags as i32
            },
        }
    }

    /// The tile at `(x, y)`, or a blank one as long as there is no board.
    pub fn tile_at(&self, x: usize, y: usize) -> (tile: &Tile)
        requires
            !(self@.phase is NotStarted) ==> x < self@.size.0 && y < self@.size.1,
        ensures
            *tile == self@.tile((x as int, y as int)),
    {
        proof {
            use_type_invariant(self);
        }
        match &self.state {
            GameState::Blank => &Tile { mode: TileMode::Hidden, content: TileContent::Field(0) },
            GameState::Ongoing { tiles, .. } | GameState::Finished { tiles, .. } => tiles.tile(
                x,
                y,
            ),
        }
    }

    /// Starts the round on the board `tiles`, with `started` as the time of the first move.
    pub fn start_on(&mut self, tiles: Tiles, started: Instant)
        requires
            old(self)@.phase is NotStarted,
            tiles.wf(),
            live(tiles@, old(self)@.size, old(self)@.mine_count),
        ensures
            final(self)@.wf(),
            final(self)@ == (GameView {
                phase: Phase::InProgress { board: tiles@, started },
                ..old(self)@
            }),
    {
        proof {
            use_type_invariant(&*self);
        }
        self.state = GameState::Ongoing { started, tiles };
    }

    /// Ends the round that is running: the clock is read and stopped, and the board is
    /// swept.
    pub fn finish_game(&mut self)
        requires
            old(self)@.phase is InProgress,
        ensures
            final(self)@.wf(),
            final(self)@.cursor == old(self)@.cursor,
            final(self)@.size == old(self)@.size,
            final(self)@.mine_count == old(self)@.mine_count,
            final(self)@.phase matches Phase::Finished { board, took } && board == swept(
                old(self)@.phase->InProgress_board,
            ) && took.wf(),
    {
        let took = match &self.state {
            GameState::Ongoing { started, .. } => elapsed_since(started),
            _ => unreached(),
        };
        self.finish_with(took);
    }

    /// Ends the round that is running with `took` as the time it took: the board is swept
    /// and kept with that time.
    pub fn finish_with(&mut self, took: Elapsed)
        requires
            old(self)@.phase is InProgress,
            took.wf(),
        ensures
            final(self)@.wf(),
            final(self)@ == (GameView {
                phase: Phase::Finished {
                    board: swept(old(self)@.phase->InProgress_board),
                    took,
                },
                ..old(self)@
            }),
    {
        proof {
            use_type_invariant(&*self);
        }
        let mut state = GameState::Blank;
        core::mem::swap(&mut self.state, &mut state);
        match state {
            GameState::Ongoing { mut tiles, .. } => {
                tiles.sweep();
                self.state = GameState::Finished { took, tiles };
            },
            _ => unreached(),
        }
    }

    /// Leaves a phase in which no move is played on the board: a round that has not
    /// started begins, on a new board that is revealed at the cursor; a round that is over
    /// gives way to one that has not started.
    pub fn move_on(&mut self)
        requires
            !(old(self)@.phase is InProgress),
        ensures
            final(self)@.wf(),
            final(self)@.cursor == old(self)@.cursor,
            final(self)@.size == old(self)@.size,
            final(self)@.mine_count == old(self)@.mine_count,
            old(self)@.phase is Finished ==> final(self)@.phase is NotStarted,
            old(self)@.phase is NotStarted ==> (final(self)@.phase matches Phase::InProgress {
                board,
                ..
            } && opening(
                board,
                old(self)@.size.0,
                old(self)@.size.1,
                old(self)@.cursor,
                old(self)@.mine_count,
            )),
    {
        proof {
            use_type_invariant(&*self);
        }
        match self.state {
            GameState::Blank => {
                let tiles = Tiles::new(
                    &TilesOptions {
                        size: self.size,
                        starting_position: self.cursor,
                        mine_count: self.mine_count,
                    },
                );
                let started = now();
                self.start_on(tiles, started);
            },
            GameState::Finished { .. } => {
                self.state = GameState::Blank;
            },
            GameState::Ongoing { .. } => unreached(),
        }
    }

    /// Ends the round that is running if every safe tile or any mine lies uncovered.
    pub fn maybe_finish(&mut self)
        requires
            old(self)@.phase is InProgress,
        ensures
            final(self)@.wf(),
            final(self)@.cursor == old(self)@.cursor,
            final(self)@.size == old(self)@.size,
            final(self)@.mine_count == old(self)@.mine_count,
            follows(
                old(self)@.phase->InProgress_board,
                old(self)@.phase->InProgress_started,
                final(self)@.phase,
            ),
    {
        proof {
            use_type_invariant(&*self);
        }
        let over = match &self.state {
            GameState::Ongoing { tiles, .. } => {
                let has_won = tiles.count(Feature::Unsolved) == 0;
                let has_lost = tiles.count(Feature::Tripped) > 0;
                proof {
                    lemma_census_none(tiles@, Feature::Unsolved);
                    lemma_census_none(tiles@, Feature::Tripped);
                }
                has_won || has_lost
            },
            _ => false,
        };
        if over {
            self.finish_game();
        }
    }

    /// The player's move on the flag at the cursor. Before the first move it starts the
    /// round and sets no flag; after the round it clears the board for the next one.
    /// While the round runs it toggles the flag, and the round ends if it is decided.
    pub fn flag(&mut self)
        ensures
            final(self)@.wf(),
            final(self)@.cursor == old(self)@.cursor,
            final(self)@.size == old(self)@.size,
            final(self)@.mine_count == old(self)@.mine_count,
            old(self)@.phase is Finished ==> final(self)@.phase is NotStarted,
            old(self)@.phase is NotStarted ==> (final(self)@.phase matches Phase::InProgress {
                board,
                ..
            } && opening(
                board,
                old(self)@.size.0,
                old(self)@.size.1,
                old(self)@.cursor,
                old(self)@.mine_count,
            )),
            old(self)@.phase matches Phase::InProgress { board, started } ==> follows(
                toggled(board, old(self)@.cursor),
                started,
                final(self)@.phase,
            ) && final(self)@.remaining() == old(self)@.remaining() - match at(
                board,
                old(self)@.cursor,
            ).mode {
                TileMode::Hidden => 1int,
                TileMode::Flagged => -1int,
                TileMode::Revealed => 0int,
            },
    {
        proof {
            use_type_invariant(&*self);
        }
        let (x, y) = self.cursor;
        let mut state = GameState::Blank;
        core::mem::swap(&mut self.state, &mut state);
        match state {
            GameState::Ongoing { started, mut tiles } => {
                let ghost before = tiles@;
                tiles.toggle_flag(x, y);
                proof {
                    lemma_put(before, (x as int, y as int), at(
                        before,
                        (x as int, y as int),
                    ).toggled());
                    lemma_same_contents(before, tiles@);
                    lemma_toggled_flags(before, (x as int, y as int));
                    lemma_swept_flags(tiles@);
                }
                self.state = GameState::Ongoing { started, tiles };
                self.maybe_finish();
            },
            other => {
                self.state = other;
                self.move_on();
            },
        }
    }

    /// The player's move to reveal the tile at the cursor. Before the first move it starts
    /// the round; after the round it clears the board for the next one. While the round
    /// runs it reveals the tile, and the round ends if it is decided.
    pub fn uncover(&mut self)
        ensures
            final(self)@.wf(),
            final(self)@.cursor == old(self)@.cursor,
            final(self)@.size == old(self)@.size,
            final(self)@.mine_count == old(self)@.mine_count,
            old(self)@.phase is Finished ==> final(self)@.phase is NotStarted,
            old(self)@.phase is NotStarted ==> (final(self)@.phase matches Phase::InProgress {
                board,
                ..
            } && opening(
                board,
                old(self)@.size.0,
                old(self)@.size.1,
                old(self)@.cursor,
                old(self)@.mine_count,
            )),
            old(self)@.phase matches Phase::InProgress { board, started } ==> follows(
                revealed(board, old(self)@.cursor),
                started,
                final(self)@.phase,
            ) && final(self)@.remaining() == old(self)@.remaining(),
    {
        proof {
            use_type_invariant(&*self);
        }
        let (x, y) = self.cursor;
        let mut state = GameState::Blank;
        core::mem::swap(&mut self.state, &mut state);
        match state {
            GameState::Ongoing { started, mut tiles } => {
                let ghost before = tiles@;
                tiles.uncover(x, y);
                proof {
                    lemma_revealed_contents(before, (x as int, y as int));
                    lemma_same_contents(before, tiles@);
                    lemma_revealed_flags(before, (x as int, y as int));
                    lemma_swept_flags(tiles@);
                }
                self.state = GameState::Ongoing { started, tiles };
                self.maybe_finish();
            },
            other => {
                self.state = other;
                self.move_on();
            },
        }
    }
}

/// A move that leaves every safe tile uncovered and no mine uncovered wins the round,
/// whatever flags stand on the mines.
pub proof fn lemma_cleared_wins(g: Grid, started: Instant, after: GameView)
    requires
        rectangular(g),
        !any(g, Feature::Mistaken),
        cleared(g),
        !tripped(g),
        follows(g, started, after.phase),
    ensures
        after.phase is Finished,
        after.status() == GameStatus::Won,
{
    lemma_swept(g);
    let s = swept(g);
    if any(s, Feature::Mistaken) {
        let c = choose|c: Cell| inside(s, c) && #[trigger] at(s, c).has(Feature::Mistaken);
        assert(at(s, c) == at(g, c).swept());
        assert(!at(g, c).has(Feature::Mistaken));
        assert(!at(g, c).has(Feature::Unsolved));
        assert(!at(g, c).has(Feature::Tripped));
    }
}

/// A move that leaves a mine uncovered loses the round, even if it uncovers the last
/// safe tile with it.
pub proof fn lemma_tripped_loses(g: Grid, started: Instant, after: GameView)
    requires
        rectangular(g),
        tripped(g),
        follows(g, started, after.phase),
    ensures
        after.phase is Finished,
        after.status() == GameStatus::Lost,
{
    lemma_swept(g);
    let c = choose|c: Cell| inside(g, c) && #[trigger] at(g, c).has(Feature::Tripped);
    assert(at(swept(g), c) == at(g, c).swept());
    assert(at(swept(g), c).has(Feature::Mistaken));
}

/// A move that leaves a safe tile covered and no mine uncovered leaves the round running.
pub proof fn lemma_undecided_runs(g: Grid, started: Instant, after: GameView)
    requires
        !cleared(g),
        !tripped(g),
        follows(g, started, after.phase),
    ensures
        after.phase == (Phase::InProgress { board: g, started }),
        after.status() == GameStatus::Ongoing,
{
}

/// Revealing a covered mine uncovers it and nothing else, which decides the round; on the
/// board swept afterwards that mine is marked as tripped, and every other tile is shown
/// as sweeping shows it: a covered mine uncovered, a flag on a safe tile marked as a
/// mistake.
pub proof fn lemma_mine_revealed(g: Grid, c: Cell)
    requires
        rectangular(g),
        covered(g, c),
        at(g, c).has(Feature::Mined),
    ensures
        revealed(g, c) == put(g, c, at(g, c).opened()),
        tripped(revealed(g, c)),
        at(swept(revealed(g, c)), c) == (Tile {
            mode: TileMode::Revealed,
            content: TileContent::Mistake(TileMistake::TrippedMine),
        }),
        forall|d: Cell|
            inside(g, d) && d != c ==> #[trigger] at(swept(revealed(g, c)), d) == at(g, d).swept(),
{
    let r = revealed(g, c);
    lemma_revealed_single(g, c);
    lemma_put(g, c, at(g, c).opened());
    lemma_swept(r);
    assert(at(r, c).has(Feature::Tripped));
    assert forall|d: Cell| inside(g, d) && d != c implies #[trigger] at(swept(r), d) == at(
        g,
        d,
    ).swept() by {
        assert(at(r, d) == at(g, d));
    }
}

} // verus!
