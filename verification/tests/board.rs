use minesweeper::{Feature, Tile, TileContent, TileMistake, TileMode, Tiles, TilesOptions};

const HIDDEN: TileMode = TileMode::Hidden;
const FLAGGED: TileMode = TileMode::Flagged;
const REVEALED: TileMode = TileMode::Revealed;

/// A numbered board of covered tiles with mines at the given cells.
fn board(size: (usize, usize), mines: &[(usize, usize)]) -> Tiles {
    let outside = (size.0, size.1);
    let mut tiles = Tiles::new_blank(size);
    for &(mx, my) in mines {
        let mut rank = 0;
        for x in 0..size.0 {
            for y in 0..size.1 {
                let before = x < mx || (x == mx && y < my);
                if before && !tiles.tile(x, y).shows(Feature::Mined) {
                    rank += 1;
                }
            }
        }
        tiles.place_mine(rank, outside);
    }
    tiles.number();
    tiles
}

fn modes(tiles: &Tiles) -> Vec<Vec<TileMode>> {
    (0..tiles.width())
        .map(|x| (0..tiles.height()).map(|y| tiles.tile(x, y).mode).collect())
        .collect()
}

fn snapshot(tiles: &Tiles) -> Vec<Vec<Tile>> {
    (0..tiles.width())
        .map(|x| (0..tiles.height()).map(|y| *tiles.tile(x, y)).collect())
        .collect()
}

fn mines_around(tiles: &Tiles, x: usize, y: usize) -> u8 {
    let mut n = 0;
    for (nx, ny) in tiles.neighbours(x, y) {
        if tiles.tile(nx, ny).content == TileContent::Mine {
            n += 1;
        }
    }
    n
}

#[test]
fn blank_board_has_only_covered_safe_tiles() {
    let tiles = Tiles::new_blank((3, 2));
    assert_eq!(tiles.width(), 3);
    assert_eq!(tiles.height(), 2);
    for x in 0..3 {
        for y in 0..2 {
            assert_eq!(*tiles.tile(x, y), Tile { mode: HIDDEN, content: TileContent::Field(0) });
        }
    }
    assert_eq!(tiles.count(Feature::Hidden), 6);
    assert_eq!(tiles.count(Feature::Mined), 0);
}

#[test]
fn blank_board_without_columns_is_empty() {
    let tiles = Tiles::new_blank((0, 5));
    assert_eq!(tiles.width(), 0);
    assert_eq!(tiles.height(), 0);
    assert_eq!(tiles.count(Feature::Hidden), 0);
}

#[test]
fn neighbours_of_an_inner_cell_are_all_eight_in_column_order() {
    let tiles = Tiles::new_blank((3, 3));
    assert_eq!(
        tiles.neighbours(1, 1),
        vec![(0, 0), (0, 1), (0, 2), (1, 0), (1, 2), (2, 0), (2, 1), (2, 2)]
    );
}

#[test]
fn neighbours_are_clipped_at_corners_and_edges() {
    let tiles = Tiles::new_blank((3, 4));
    assert_eq!(tiles.neighbours(0, 0), vec![(0, 1), (1, 0), (1, 1)]);
    assert_eq!(tiles.neighbours(2, 3), vec![(1, 2), (1, 3), (2, 2)]);
    assert_eq!(tiles.neighbours(0, 2), vec![(0, 1), (0, 3), (1, 1), (1, 2), (1, 3)]);
    assert_eq!(tiles.neighbours(1, 0), vec![(0, 0), (0, 1), (1, 1), (2, 0), (2, 1)]);
}

#[test]
fn single_cell_has_no_neighbours() {
    let tiles = Tiles::new_blank((1, 1));
    assert_eq!(tiles.neighbours(0, 0), vec![]);
}

#[test]
fn single_row_has_neighbours_left_and_right_only() {
    let tiles = Tiles::new_blank((3, 1));
    assert_eq!(tiles.neighbours(1, 0), vec![(0, 0), (2, 0)]);
}

#[test]
fn place_mine_goes_by_rank_among_vacant_cells() {
    let mut tiles = Tiles::new_blank((3, 3));
    assert_eq!(tiles.vacancies((0, 0)), 8);
    tiles.place_mine(7, (0, 0));
    assert_eq!(tiles.tile(2, 2).content, TileContent::Mine);
    assert_eq!(tiles.count(Feature::Mined), 1);
    assert_eq!(tiles.vacancies((0, 0)), 7);
    // Rank 0 skips the cell left out and takes the next one down the first column.
    tiles.place_mine(0, (0, 0));
    assert_eq!(tiles.tile(0, 1).content, TileContent::Mine);
    assert_eq!(tiles.tile(0, 0).content, TileContent::Field(0));
    // The mine at (0, 1) is passed over: rank 0 is now (0, 2).
    tiles.place_mine(0, (0, 0));
    assert_eq!(tiles.tile(0, 2).content, TileContent::Mine);
    assert_eq!(tiles.count(Feature::Mined), 3);
    assert_eq!(tiles.count(Feature::Hidden), 9);
}

#[test]
fn vacancies_leave_out_mines_and_the_ignored_cell() {
    let tiles = board((3, 2), &[(1, 1)]);
    assert_eq!(tiles.vacancies((0, 0)), 4);
    assert_eq!(tiles.vacancies((1, 1)), 5);
    assert_eq!(tiles.vacancies((7, 7)), 5);
}

#[test]
fn numbering_counts_the_mines_around_each_safe_tile() {
    let tiles = board((3, 3), &[(1, 1)]);
    for x in 0..3 {
        for y in 0..3 {
            let expected =
                if (x, y) == (1, 1) { TileContent::Mine } else { TileContent::Field(1) };
            assert_eq!(tiles.tile(x, y).content, expected);
        }
    }
    let tiles = board((4, 3), &[(0, 0), (1, 1), (0, 2)]);
    assert_eq!(tiles.tile(0, 1).content, TileContent::Field(3));
    assert_eq!(tiles.tile(1, 0).content, TileContent::Field(2));
    assert_eq!(tiles.tile(2, 1).content, TileContent::Field(1));
    assert_eq!(tiles.tile(3, 1).content, TileContent::Field(0));
    assert_eq!(tiles.count_around(0, 1, Feature::Mined), 3);
}

#[test]
fn numbering_reaches_eight() {
    let ring = [(0, 0), (0, 1), (0, 2), (1, 0), (1, 2), (2, 0), (2, 1), (2, 2)];
    let tiles = board((3, 3), &ring);
    assert_eq!(tiles.tile(1, 1).content, TileContent::Field(8));
}

#[test]
fn uncover_cascades_over_all_safe_tiles_around_a_corner_mine() {
    let mut tiles = board((3, 3), &[(2, 2)]);
    tiles.uncover(0, 0);
    for x in 0..3 {
        for y in 0..3 {
            let expected = if (x, y) == (2, 2) { HIDDEN } else { REVEALED };
            assert_eq!(tiles.tile(x, y).mode, expected);
        }
    }
    assert_eq!(tiles.count(Feature::Unsolved), 0);
    assert_eq!(tiles.count(Feature::Tripped), 0);
    assert_eq!(tiles.tile(1, 1).content, TileContent::Field(1));
}

#[test]
fn uncover_stops_at_numbers() {
    // Mines down the middle column part the board: the flood stays on its side.
    let mut tiles = board((5, 3), &[(2, 0), (2, 1), (2, 2)]);
    tiles.uncover(0, 1);
    let m = modes(&tiles);
    assert_eq!(m[0], vec![REVEALED; 3]);
    assert_eq!(m[1], vec![REVEALED; 3]);
    assert_eq!(m[2], vec![HIDDEN; 3]);
    assert_eq!(m[3], vec![HIDDEN; 3]);
    assert_eq!(m[4], vec![HIDDEN; 3]);
}

#[test]
fn uncover_of_a_number_uncovers_that_tile_alone() {
    let mut tiles = board((3, 3), &[(2, 2)]);
    tiles.uncover(1, 1);
    assert_eq!(tiles.count(Feature::Hidden), 8);
    assert_eq!(tiles.tile(1, 1).mode, REVEALED);
}

#[test]
fn uncover_of_a_mine_uncovers_it() {
    let mut tiles = board((3, 3), &[(2, 2)]);
    tiles.uncover(2, 2);
    assert_eq!(*tiles.tile(2, 2), Tile { mode: REVEALED, content: TileContent::Mine });
    assert_eq!(tiles.count(Feature::Hidden), 8);
    assert_eq!(tiles.count(Feature::Tripped), 1);
}

#[test]
fn uncover_leaves_a_flagged_tile_alone() {
    let mut tiles = board((3, 3), &[(2, 2)]);
    tiles.toggle_flag(0, 0);
    let before = snapshot(&tiles);
    tiles.uncover(0, 0);
    assert_eq!(snapshot(&tiles), before);
}

#[test]
fn cascade_passes_flagged_tiles_by() {
    let mut tiles = board((4, 1), &[]);
    tiles.toggle_flag(2, 0);
    tiles.uncover(0, 0);
    assert_eq!(modes(&tiles), vec![vec![REVEALED], vec![REVEALED], vec![FLAGGED], vec![HIDDEN]]);
}

#[test]
fn cascade_covers_a_large_empty_board() {
    let mut tiles = board((60, 40), &[]);
    tiles.uncover(30, 20);
    assert_eq!(tiles.count(Feature::Hidden), 0);
    assert_eq!(tiles.count(Feature::Unsolved), 0);
}

#[test]
fn uncover_twice_on_a_zero_tile_changes_nothing_more() {
    let mut tiles = board((5, 5), &[(4, 4), (0, 4)]);
    tiles.uncover(0, 0);
    let once = snapshot(&tiles);
    tiles.uncover(0, 0);
    assert_eq!(snapshot(&tiles), once);
    // Nor does revealing any other tile without a number that the first move uncovered.
    for x in 0..5 {
        for y in 0..5 {
            let tile = *tiles.tile(x, y);
            if tile.mode == REVEALED && tile.content == TileContent::Field(0) {
                tiles.uncover(x, y);
                assert_eq!(snapshot(&tiles), once);
            }
        }
    }
}

#[test]
fn chord_uncovers_the_covered_neighbours_when_the_flags_match() {
    let mut tiles = board((3, 3), &[(0, 0), (2, 0)]);
    tiles.uncover(1, 1);
    assert_eq!(tiles.tile(1, 1).content, TileContent::Field(2));
    tiles.toggle_flag(0, 0);
    tiles.toggle_flag(2, 0);
    assert_eq!(tiles.count_around(1, 1, Feature::Flagged), 2);
    tiles.uncover(1, 1);
    for x in 0..3 {
        for y in 0..3 {
            let expected = if (x, y) == (0, 0) || (x, y) == (2, 0) { FLAGGED } else { REVEALED };
            assert_eq!(tiles.tile(x, y).mode, expected);
        }
    }
}

#[test]
fn chord_with_too_few_flags_changes_nothing() {
    let mut tiles = board((3, 3), &[(0, 0), (2, 0)]);
    tiles.uncover(1, 1);
    tiles.toggle_flag(0, 0);
    let before = snapshot(&tiles);
    tiles.uncover(1, 1);
    assert_eq!(snapshot(&tiles), before);
}

#[test]
fn chord_with_too_many_flags_changes_nothing() {
    let mut tiles = board((3, 3), &[(0, 0)]);
    tiles.uncover(1, 1);
    tiles.toggle_flag(0, 0);
    tiles.toggle_flag(2, 2);
    let before = snapshot(&tiles);
    tiles.uncover(1, 1);
    assert_eq!(snapshot(&tiles), before);
}

#[test]
fn chord_with_a_wrong_flag_uncovers_the_mine() {
    let mut tiles = board((3, 3), &[(0, 0)]);
    tiles.uncover(1, 1);
    tiles.toggle_flag(2, 2);
    tiles.uncover(1, 1);
    assert_eq!(*tiles.tile(0, 0), Tile { mode: REVEALED, content: TileContent::Mine });
    assert_eq!(tiles.tile(2, 2).mode, FLAGGED);
    assert_eq!(tiles.count(Feature::Hidden), 0);
}

#[test]
fn chord_cascades_through_zero_tiles() {
    let mut tiles = board((4, 3), &[(0, 0)]);
    tiles.uncover(1, 1);
    tiles.toggle_flag(0, 0);
    tiles.uncover(1, 1);
    assert_eq!(tiles.count(Feature::Hidden), 0);
    assert_eq!(tiles.tile(3, 2).mode, REVEALED);
}

#[test]
fn chord_on_an_uncovered_zero_tile_uncovers_a_neighbour_that_lost_its_flag() {
    let mut tiles = board((2, 1), &[]);
    tiles.toggle_flag(1, 0);
    tiles.uncover(0, 0);
    assert_eq!(tiles.tile(1, 0).mode, FLAGGED);
    tiles.uncover(0, 0);
    assert_eq!(tiles.tile(1, 0).mode, FLAGGED);
    tiles.toggle_flag(1, 0);
    tiles.uncover(0, 0);
    assert_eq!(tiles.tile(1, 0).mode, REVEALED);
}

#[test]
fn uncover_of_an_uncovered_mine_changes_nothing() {
    let mut tiles = board((2, 2), &[(0, 0)]);
    tiles.uncover(0, 0);
    let before = snapshot(&tiles);
    tiles.uncover(0, 0);
    assert_eq!(snapshot(&tiles), before);
}

#[test]
fn toggle_flag_sets_and_takes_off_a_flag() {
    let mut tiles = board((2, 2), &[(1, 1)]);
    tiles.toggle_flag(1, 1);
    assert_eq!(*tiles.tile(1, 1), Tile { mode: FLAGGED, content: TileContent::Mine });
    assert_eq!(tiles.count(Feature::Flagged), 1);
    tiles.toggle_flag(1, 1);
    assert_eq!(*tiles.tile(1, 1), Tile { mode: HIDDEN, content: TileContent::Mine });
    assert_eq!(tiles.count(Feature::Flagged), 0);
}

#[test]
fn toggle_flag_leaves_an_uncovered_tile_alone() {
    let mut tiles = board((2, 2), &[(1, 1)]);
    tiles.uncover(0, 0);
    let before = snapshot(&tiles);
    tiles.toggle_flag(0, 0);
    assert_eq!(snapshot(&tiles), before);
}

#[test]
fn moves_never_change_a_number_or_a_mine() {
    let mut tiles = board((4, 4), &[(0, 0), (3, 1), (2, 3)]);
    let contents = |t: &Tiles| -> Vec<Vec<TileContent>> {
        snapshot(t).iter().map(|col| col.iter().map(|tile| tile.content).collect()).collect()
    };
    let before = contents(&tiles);
    tiles.toggle_flag(0, 0);
    tiles.uncover(1, 2);
    tiles.uncover(0, 3);
    tiles.toggle_flag(3, 3);
    tiles.uncover(1, 2);
    tiles.uncover(3, 1);
    assert_eq!(contents(&tiles), before);
}

#[test]
fn sweep_marks_mistakes_and_shows_the_mines() {
    let mut tiles = board((3, 2), &[(0, 0), (1, 0), (2, 0)]);
    tiles.uncover(0, 0); // a mine, tripped
    tiles.toggle_flag(1, 0); // a mine, flagged
    tiles.toggle_flag(1, 1); // a safe tile, flagged
    tiles.uncover(0, 1); // a safe tile, uncovered
    tiles.sweep();
    assert_eq!(
        *tiles.tile(0, 0),
        Tile { mode: REVEALED, content: TileContent::Mistake(TileMistake::TrippedMine) }
    );
    assert_eq!(*tiles.tile(1, 0), Tile { mode: FLAGGED, content: TileContent::Mine });
    assert_eq!(
        *tiles.tile(1, 1),
        Tile { mode: FLAGGED, content: TileContent::Mistake(TileMistake::FlaggedField(3)) }
    );
    assert_eq!(*tiles.tile(0, 1), Tile { mode: REVEALED, content: TileContent::Field(2) });
    assert_eq!(*tiles.tile(2, 0), Tile { mode: REVEALED, content: TileContent::Mine });
    assert_eq!(*tiles.tile(2, 1), Tile { mode: HIDDEN, content: TileContent::Field(2) });
    assert_eq!(tiles.count(Feature::Mistaken), 2);
    assert_eq!(tiles.count(Feature::Flagged), 2);
}

#[test]
fn tile_sweep_turns_each_kind_of_tile() {
    let field = TileContent::Field(4);
    let cases = [
        (FLAGGED, field, FLAGGED, TileContent::Mistake(TileMistake::FlaggedField(4))),
        (FLAGGED, TileContent::Mine, FLAGGED, TileContent::Mine),
        (REVEALED, field, REVEALED, field),
        (HIDDEN, field, HIDDEN, field),
        (REVEALED, TileContent::Mine, REVEALED, TileContent::Mistake(TileMistake::TrippedMine)),
        (HIDDEN, TileContent::Mine, REVEALED, TileContent::Mine),
    ];
    for (mode, content, swept_mode, swept_content) in cases {
        let mut tile = Tile { mode, content };
        tile.sweep();
        assert_eq!(tile, Tile { mode: swept_mode, content: swept_content });
    }
}

#[test]
fn tile_shows_its_features() {
    let tile = Tile { mode: REVEALED, content: TileContent::Mine };
    assert!(tile.shows(Feature::Tripped));
    assert!(tile.shows(Feature::Mined));
    assert!(!tile.shows(Feature::Hidden));
    assert!(!tile.shows(Feature::Flagged));
    assert!(!tile.shows(Feature::Unsolved));
    assert!(!tile.shows(Feature::Mistaken));
    let tile = Tile { mode: FLAGGED, content: TileContent::Field(0) };
    assert!(tile.shows(Feature::Unsolved));
    assert!(tile.shows(Feature::Flagged));
    assert!(!tile.shows(Feature::Tripped));
    let tile = Tile { mode: HIDDEN, content: TileContent::Mistake(TileMistake::TrippedMine) };
    assert!(tile.shows(Feature::Mistaken));
    assert!(tile.shows(Feature::Hidden));
    assert!(!tile.shows(Feature::Unsolved));
}

#[test]
fn populate_mines_lays_the_number_asked_for_and_spares_the_ignored_cell() {
    for &(w, h, mines) in &[(1, 1, 0), (3, 3, 1), (3, 3, 8), (5, 4, 7), (9, 9, 10), (2, 7, 13)] {
        for round in 0..20 {
            let ignore = (round % w, (round / w) % h);
            let mut tiles = Tiles::new_blank((w, h));
            tiles.populate_mines(mines, ignore);
            assert_eq!(tiles.count(Feature::Mined), mines);
            assert_eq!(tiles.tile(ignore.0, ignore.1).content, TileContent::Field(0));
            assert_eq!(tiles.count(Feature::Hidden), w * h);
        }
    }
}

#[test]
fn populate_mines_adds_to_the_mines_that_are_there() {
    let mut tiles = Tiles::new_blank((3, 3));
    tiles.place_mine(0, (1, 1));
    tiles.populate_mines(7, (1, 1));
    assert_eq!(tiles.count(Feature::Mined), 8);
    assert_eq!(tiles.tile(1, 1).content, TileContent::Field(0));
    assert_eq!(tiles.vacancies((1, 1)), 0);
}

#[test]
fn populate_mines_reaches_every_cell_in_time() {
    let mut seen = [[false; 3]; 3];
    for _ in 0..400 {
        let mut tiles = Tiles::new_blank((3, 3));
        tiles.populate_mines(1, (0, 0));
        for x in 0..3 {
            for y in 0..3 {
                if tiles.tile(x, y).content == TileContent::Mine {
                    seen[x][y] = true;
                }
            }
        }
    }
    for x in 0..3 {
        for y in 0..3 {
            assert_eq!(seen[x][y], (x, y) != (0, 0));
        }
    }
}

#[test]
fn new_board_has_its_mines_its_numbers_and_a_safe_start() {
    for &(w, h, mines) in &[(1, 1, 0), (3, 3, 1), (4, 4, 15), (8, 6, 10), (16, 16, 40)] {
        for round in 0..10 {
            let start = (round % w, (round * 7) % h);
            let tiles = Tiles::new(&TilesOptions {
                size: (w, h),
                starting_position: start,
                mine_count: mines,
            });
            assert_eq!((tiles.width(), tiles.height()), (w, h));
            assert_eq!(tiles.count(Feature::Mined), mines);
            assert_eq!(tiles.count(Feature::Mistaken), 0);
            assert_eq!(tiles.count(Feature::Tripped), 0);
            assert_eq!(tiles.count(Feature::Flagged), 0);
            let first = *tiles.tile(start.0, start.1);
            assert_eq!(first.mode, REVEALED);
            assert_ne!(first.content, TileContent::Mine);
            for x in 0..w {
                for y in 0..h {
                    if let TileContent::Field(n) = tiles.tile(x, y).content {
                        assert_eq!(n, mines_around(&tiles, x, y));
                    }
                }
            }
        }
    }
}

#[test]
fn new_board_is_uncovered_as_the_first_move_uncovers_it() {
    for round in 0..20 {
        let start = (round % 6, round % 5);
        let tiles =
            Tiles::new(&TilesOptions { size: (6, 5), starting_position: start, mine_count: 5 });
        let mut again = Tiles::new_blank((6, 5));
        let outside = (6, 5);
        for x in 0..6 {
            for y in 0..5 {
                if tiles.tile(x, y).content == TileContent::Mine {
                    let rank = again.vacancies(outside) - again_vacant_from(&again, x, y);
                    again.place_mine(rank, outside);
                }
            }
        }
        again.number();
        again.uncover(start.0, start.1);
        assert_eq!(snapshot(&again), snapshot(&tiles));
    }
}

/// The number of cells without a mine from `(x, y)` on, in column order.
fn again_vacant_from(tiles: &Tiles, x: usize, y: usize) -> usize {
    let mut n = 0;
    for cx in 0..tiles.width() {
        for cy in 0..tiles.height() {
            let from = cx > x || (cx == x && cy >= y);
            if from && !tiles.tile(cx, cy).shows(Feature::Mined) {
                n += 1;
            }
        }
    }
    n
}

#[test]
fn new_board_with_a_full_load_of_mines_leaves_only_the_start() {
    let tiles =
        Tiles::new(&TilesOptions { size: (3, 3), starting_position: (1, 1), mine_count: 8 });
    assert_eq!(*tiles.tile(1, 1), Tile { mode: REVEALED, content: TileContent::Field(8) });
    assert_eq!(tiles.count(Feature::Hidden), 8);
    assert_eq!(tiles.count(Feature::Unsolved), 0);
}

#[test]
fn count_tells_the_features_apart() {
    let mut tiles = board((3, 3), &[(0, 0), (2, 2)]);
    tiles.toggle_flag(0, 0);
    tiles.toggle_flag(1, 1);
    tiles.uncover(2, 2);
    tiles.uncover(0, 2);
    assert_eq!(tiles.count(Feature::Mined), 2);
    assert_eq!(tiles.count(Feature::Flagged), 2);
    assert_eq!(tiles.count(Feature::Tripped), 1);
    assert_eq!(tiles.count(Feature::Hidden), 3);
    assert_eq!(tiles.count(Feature::Unsolved), 4);
    assert_eq!(tiles.count(Feature::Mistaken), 0);
}

#[test]
fn board_can_be_read_as_columns_of_tiles() {
    let mut tiles = board((3, 2), &[(2, 1)]);
    tiles.toggle_flag(0, 1);
    assert_eq!(tiles.len(), 3);
    assert_eq!(tiles[0].len(), 2);
    assert_eq!(tiles[2][1], Tile { mode: HIDDEN, content: TileContent::Mine });
    assert_eq!(tiles[0][1], Tile { mode: FLAGGED, content: TileContent::Field(0) });
    assert_eq!(tiles[1][0], Tile { mode: HIDDEN, content: TileContent::Field(1) });
    let flags = tiles.iter().flatten().filter(|tile| tile.mode == FLAGGED).count();
    assert_eq!(flags, 1);
}
