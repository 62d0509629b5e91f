use tetris::{fill_cleared_rows, Collision, GameState, Output, PlayerMove, CATALOG_LEN, COLUMNS, PALETTE_LEN, ROWS};

const I4: usize = 9;
const I3: usize = 1;
const SQUARE: usize = 10;

fn board(game: &GameState) -> Vec<Vec<usize>> {
    Output::next_grid(game)
}

fn mv(game: &mut GameState, m: PlayerMove) -> Option<Collision> {
    game.try_move(m)
}

/// Spawns `shape`, turns it, shifts it by `dx`, drops it to rest and stamps it.
fn place(game: &mut GameState, shape: usize, turns: i32, dx: i32) {
    game.spawn_shape(shape, 1);
    if turns != 0 {
        assert_eq!(mv(game, PlayerMove::Rotate(turns)), None);
    }
    assert_eq!(mv(game, PlayerMove::Translate(dx, 0)), None);
    while mv(game, PlayerMove::Translate(0, 1)).is_none() {}
    assert!(game.has_room_for_points());
    game.kill_player();
}

/// Fills columns 0 to 14 of the bottom row that is free there.
fn fill_row_but_last_column(game: &mut GameState) {
    place(game, I4, 0, -7);
    place(game, I4, 0, -3);
    place(game, I4, 0, 1);
    place(game, I3, 0, 5);
}

#[test]
fn new_game_is_empty() {
    let game = GameState::new();
    assert!(!game.alive());
    assert_eq!(game.points, 0);
    assert_eq!(board(&game), vec![vec![0; COLUMNS]; ROWS]);
}

#[test]
fn spawn_shape_centers_piece_on_top_row() {
    let mut game = GameState::new();
    game.spawn_shape(I4, 3);
    assert!(game.alive());
    let b = board(&game);
    for x in 0..COLUMNS {
        assert_eq!(b[0][x], if (7..=10).contains(&x) { 3 } else { 0 });
    }
}

#[test]
fn spawn_uses_a_palette_color() {
    let mut game = GameState::new();
    for _ in 0..30 {
        game.spawn();
        let cells: Vec<usize> = board(&game).into_iter().flatten().filter(|c| *c != 0).collect();
        assert!(!cells.is_empty());
        assert!(cells.iter().all(|c| *c >= 1 && *c < PALETTE_LEN));
    }
}

#[test]
fn bag_deals_each_shape_once_per_round() {
    let mut game = GameState::new();
    for _ in 0..3 {
        let mut dealt: Vec<usize> = (0..CATALOG_LEN).map(|_| game.next_shape_index()).collect();
        dealt.sort();
        assert_eq!(dealt, (0..CATALOG_LEN).collect::<Vec<usize>>());
    }
}

#[test]
fn bag_order_is_shuffled() {
    let mut seen_other_order = false;
    for _ in 0..5 {
        let mut game = GameState::new();
        let dealt: Vec<usize> = (0..CATALOG_LEN).map(|_| game.next_shape_index()).collect();
        if dealt != (0..CATALOG_LEN).rev().collect::<Vec<usize>>() {
            seen_other_order = true;
        }
    }
    assert!(seen_other_order);
}

#[test]
fn move_into_wall_is_undone() {
    let mut game = GameState::new();
    game.spawn_shape(I4, 2);
    let before = board(&game);
    assert_eq!(mv(&mut game, PlayerMove::Translate(-8, 0)), Some(Collision::Wall));
    assert_eq!(board(&game), before);
    assert_eq!(mv(&mut game, PlayerMove::Translate(6, 0)), Some(Collision::Wall));
    assert_eq!(board(&game), before);
    assert_eq!(mv(&mut game, PlayerMove::Translate(5, 0)), None);
    assert_eq!(board(&game)[0][15], 2);
}

#[test]
fn move_through_floor_is_undone() {
    let mut game = GameState::new();
    game.spawn_shape(I4, 2);
    let mut steps = 0;
    loop {
        let before = board(&game);
        match mv(&mut game, PlayerMove::Translate(0, 1)) {
            None => steps += 1,
            Some(c) => {
                assert_eq!(c, Collision::Floor);
                assert_eq!(board(&game), before);
                break;
            }
        }
    }
    assert_eq!(steps, ROWS - 1);
    assert_eq!(board(&game)[ROWS - 1][7], 2);
}

#[test]
fn move_onto_block_is_undone() {
    let mut game = GameState::new();
    place(&mut game, I4, 0, 0);
    game.spawn_shape(I4, 2);
    let mut last = None;
    for _ in 0..ROWS {
        let before = board(&game);
        last = mv(&mut game, PlayerMove::Translate(0, 1));
        if last.is_some() {
            assert_eq!(board(&game), before);
            break;
        }
    }
    assert_eq!(last, Some(Collision::Block));
    assert_eq!(board(&game)[ROWS - 2][7], 2);
}

#[test]
fn wall_is_reported_before_block() {
    let mut game = GameState::new();
    place(&mut game, SQUARE, 0, -7);
    game.spawn_shape(I4, 2);
    assert_eq!(mv(&mut game, PlayerMove::Translate(-5, 0)), None);
    while mv(&mut game, PlayerMove::Translate(0, 1)).is_none() {}
    let before = board(&game);
    assert_eq!(before[ROWS - 1][2], 2);
    assert_eq!(mv(&mut game, PlayerMove::Translate(-3, 0)), Some(Collision::Wall));
    assert_eq!(mv(&mut game, PlayerMove::Translate(-1, 0)), Some(Collision::Block));
    assert_eq!(board(&game), before);
}

#[test]
fn rotation_into_wall_is_undone() {
    let mut game = GameState::new();
    game.spawn_shape(I4, 2);
    assert_eq!(mv(&mut game, PlayerMove::Rotate(1)), None);
    let before = board(&game);
    assert_eq!(mv(&mut game, PlayerMove::Translate(0, -1)), None);
    assert_eq!(mv(&mut game, PlayerMove::Translate(0, 1)), None);
    assert_eq!(board(&game), before);
    assert_eq!(mv(&mut game, PlayerMove::Translate(7, 0)), None);
    assert_eq!(mv(&mut game, PlayerMove::Rotate(1)), Some(Collision::Wall));
    assert_eq!(board(&game)[1][15], 2);
}

#[test]
fn no_piece_means_no_move() {
    let mut game = GameState::new();
    assert_eq!(game.try_move(PlayerMove::Translate(1, 0)), None);
    game.kill_player();
    assert_eq!(board(&game), vec![vec![0; COLUMNS]; ROWS]);
    assert_eq!(game.points, 0);
}

#[test]
fn kill_player_stamps_piece() {
    let mut game = GameState::new();
    place(&mut game, I4, 0, 0);
    assert!(!game.alive());
    let b = board(&game);
    assert_eq!(b[ROWS - 1][6..12].to_vec(), vec![0, 1, 1, 1, 1, 0]);
    assert_eq!(game.points, 0);
}

#[test]
fn clearing_one_row_scores_200() {
    let mut game = GameState::new();
    place(&mut game, I4, 0, -7);
    place(&mut game, I4, 0, -3);
    place(&mut game, I4, 0, 1);
    assert_eq!(game.points, 0);
    place(&mut game, I4, 0, 5);
    assert_eq!(game.points, 200);
    assert_eq!(board(&game), vec![vec![0; COLUMNS]; ROWS]);
}

#[test]
fn clearing_two_rows_scores_400() {
    let mut game = GameState::new();
    fill_row_but_last_column(&mut game);
    fill_row_but_last_column(&mut game);
    assert_eq!(game.points, 0);
    place(&mut game, I4, 1, 7);
    assert_eq!(game.points, 400);
    let b = board(&game);
    let mut expected = vec![vec![0; COLUMNS]; ROWS];
    expected[ROWS - 1][15] = 1;
    expected[ROWS - 2][15] = 1;
    assert_eq!(b, expected);
}

#[test]
fn clearing_four_rows_scores_1600() {
    let mut game = GameState::new();
    for _ in 0..4 {
        fill_row_but_last_column(&mut game);
    }
    place(&mut game, I4, 1, 7);
    assert_eq!(game.points, 1600);
    assert_eq!(board(&game), vec![vec![0; COLUMNS]; ROWS]);
}

#[test]
fn compaction_example_four_by_two() {
    let mut grid = vec![vec![1, 0], vec![1, 1], vec![1, 1], vec![1, 1]];
    fill_cleared_rows(&mut grid, &vec![1, 2], 2);
    assert_eq!(grid, vec![vec![0, 0], vec![0, 0], vec![1, 0], vec![1, 1]]);
}

#[test]
fn compaction_moves_rows_between_cleared_rows() {
    let mut grid = vec![vec![1], vec![2], vec![9], vec![3], vec![9], vec![4]];
    fill_cleared_rows(&mut grid, &vec![2, 4], 1);
    assert_eq!(grid, vec![vec![0], vec![0], vec![1], vec![2], vec![3], vec![4]]);
}

#[test]
fn compaction_without_rows_changes_nothing() {
    let mut grid = vec![vec![1, 2], vec![3, 4]];
    fill_cleared_rows(&mut grid, &vec![], 2);
    assert_eq!(grid, vec![vec![1, 2], vec![3, 4]]);
}

#[test]
fn fall_moves_down_then_lands() {
    let mut game = GameState::new();
    game.spawn_shape(I4, 2);
    for _ in 0..ROWS - 1 {
        assert!(!game.fall());
    }
    assert!(game.alive());
    assert!(game.fall());
    assert!(!game.alive());
    assert_eq!(board(&game)[ROWS - 1][7..11].to_vec(), vec![2, 2, 2, 2]);
}

#[test]
fn fall_without_piece_does_nothing() {
    let mut game = GameState::new();
    assert!(!game.fall());
    assert_eq!(board(&game), vec![vec![0; COLUMNS]; ROWS]);
}

#[test]
fn drop_piece_lands_on_stack() {
    let mut game = GameState::new();
    place(&mut game, I4, 0, 0);
    game.spawn_shape(I4, 5);
    game.drop_piece();
    assert!(!game.alive());
    let b = board(&game);
    assert_eq!(b[ROWS - 1][7..11].to_vec(), vec![1, 1, 1, 1]);
    assert_eq!(b[ROWS - 2][7..11].to_vec(), vec![5, 5, 5, 5]);
}

#[test]
fn drop_piece_clears_a_row() {
    let mut game = GameState::new();
    place(&mut game, I4, 0, -7);
    place(&mut game, I4, 0, -3);
    place(&mut game, I4, 0, 1);
    game.spawn_shape(I4, 3);
    assert_eq!(mv(&mut game, PlayerMove::Translate(5, 0)), None);
    game.drop_piece();
    assert_eq!(game.points, 200);
    assert_eq!(board(&game), vec![vec![0; COLUMNS]; ROWS]);
}

#[test]
fn spawn_colors_vary() {
    let mut game = GameState::new();
    let mut colors = std::collections::BTreeSet::new();
    for _ in 0..60 {
        game.spawn();
        for c in board(&game).into_iter().flatten() {
            if c != 0 {
                colors.insert(c);
            }
        }
    }
    assert!(colors.len() > 1);
}

#[test]
fn move_beyond_coordinate_range_is_a_wall() {
    let mut game = GameState::new();
    game.spawn_shape(I4, 2);
    let before = board(&game);
    assert_eq!(mv(&mut game, PlayerMove::Translate(i32::MIN, 0)), Some(Collision::Wall));
    assert_eq!(mv(&mut game, PlayerMove::Translate(0, i32::MAX)), Some(Collision::Wall));
    assert_eq!(board(&game), before);
}

#[test]
fn extreme_turns_count_modulo_four() {
    let mut a = GameState::new();
    let mut b = GameState::new();
    a.spawn_shape(I4, 2);
    b.spawn_shape(I4, 2);
    assert_eq!(mv(&mut a, PlayerMove::Rotate(i32::MIN)), None);
    assert_eq!(board(&a), board(&b));
    assert_eq!(mv(&mut a, PlayerMove::Rotate(i32::MAX)), None);
    assert_eq!(mv(&mut b, PlayerMove::Rotate(3)), None);
    assert_eq!(board(&a), board(&b));
}
