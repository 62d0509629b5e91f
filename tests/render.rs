use tetris::{GameState, Instruction, Output, Paint, COLUMNS, ROWS, SCREEN_HEIGHT, SCREEN_WIDTH};

fn count_cells(ins: &[Instruction]) -> usize {
    ins.iter().filter(|i| matches!(i, Instruction::Print(_))).count() / 2
}

fn colors(ins: &[Instruction]) -> Vec<Paint> {
    ins.iter()
        .filter_map(|i| match i {
            Instruction::Color(p) => Some(*p),
            _ => None,
        })
        .collect()
}

fn texts(ins: &[Instruction]) -> Vec<String> {
    ins.iter()
        .filter_map(|i| match i {
            Instruction::Print(t) => Some(t.iter().collect()),
            _ => None,
        })
        .collect()
}

fn moves(ins: &[Instruction]) -> Vec<(usize, usize)> {
    ins.iter()
        .filter_map(|i| match i {
            Instruction::MoveTo(x, y) => Some((*x, *y)),
            _ => None,
        })
        .collect()
}

#[test]
fn offset_centers_board() {
    assert_eq!(Output::offset(80), (7, 0));
    assert_eq!(Output::offset(66), (0, 0));
    assert_eq!(Output::offset(67), (0, 0));
}

#[test]
fn background_is_centered() {
    let bg = Output::parse_background("ab\ncd\n");
    assert_eq!(bg.len(), SCREEN_HEIGHT);
    assert!(bg.iter().all(|r| r.len() == SCREEN_WIDTH));
    assert_eq!(bg[19][31], 'a');
    assert_eq!(bg[19][32], 'b');
    assert_eq!(bg[20][31], 'c');
    assert_eq!(bg[20][32], 'd');
    let letters = bg.iter().flatten().filter(|c| **c != ' ').count();
    assert_eq!(letters, 4);
}

#[test]
fn background_lines_center_on_their_own() {
    let bg = Output::parse_background("abcd\nx");
    assert_eq!(bg[19][30..34].iter().collect::<String>(), "abcd");
    assert_eq!(bg[20][31], 'x');
    assert_eq!(bg[20][30], ' ');
}

#[test]
fn compose_prefers_foreground() {
    let bg = vec!['a', 'b', 'c', 'd', 'e'];
    let fg = vec!['z', ' ', 'x', ' ', 'y'];
    assert_eq!(Output::compose_back_and_fore(&bg, &fg, 1), vec!['b', 'x', 'd', 'y']);
    assert_eq!(Output::compose_back_and_fore(&bg, &fg, 0), vec!['z', 'b', 'x', 'd']);
}

#[test]
fn second_draw_without_change_paints_nothing() {
    let mut game = GameState::new();
    let mut out = Output::new(80, "");
    game.spawn_shape(9, 4);
    let first = out.draw(&game);
    assert!(matches!(first[0], Instruction::TextColor(Paint::Text)));
    assert_eq!(count_cells(&first), 4);
    assert_eq!(colors(&first), vec![Paint::Palette(4)]);
    assert_eq!(first.len(), 1 + 1 + 4 * 4);
    let second = out.draw(&game);
    assert_eq!(second.len(), 1);
    assert!(matches!(second[0], Instruction::TextColor(Paint::Text)));
}

#[test]
fn draw_positions_cells_with_offset() {
    let mut game = GameState::new();
    let mut out = Output::new(80, "");
    game.spawn_shape(9, 4);
    let ins = out.draw(&game);
    let m = moves(&ins);
    assert_eq!(m[0], (7 * 4 + 7, 0));
    assert_eq!(m[1], (7 * 4 + 7, 1));
    assert_eq!(m[7], (10 * 4 + 7, 1));
    assert_eq!(texts(&ins)[0], "    ");
}

#[test]
fn draw_groups_cells_by_color() {
    let mut game = GameState::new();
    let mut out = Output::new(80, "");
    game.spawn_shape(9, 4);
    out.draw(&game);
    game.try_move(tetris::PlayerMove::Translate(0, 1));
    let ins = out.draw(&game);
    assert_eq!(count_cells(&ins), 8);
    assert_eq!(colors(&ins), vec![Paint::Dark, Paint::Palette(4), Paint::Light]);
}

#[test]
fn redraw_paints_every_cell() {
    let game = GameState::new();
    let mut out = Output::new(80, "");
    let ins = out.redraw(&game);
    assert_eq!(count_cells(&ins), ROWS * COLUMNS);
    assert_eq!(colors(&ins), vec![Paint::Light, Paint::Dark]);
    assert_eq!(ins.len(), 1 + 2 + ROWS * COLUMNS * 4);
    assert_eq!(out.draw(&game).len(), 1);
}

#[test]
fn score_is_written_centered_and_repainted() {
    let game = GameState::new();
    let mut out = Output::new(80, "");
    out.draw(&game);
    out.draw_score("00200".to_string());
    let ins = out.draw(&game);
    assert_eq!(count_cells(&ins), 2);
    assert_eq!(texts(&ins), vec![" 002", "    ", "00  ", "    "]);
    assert_eq!(moves(&ins)[0], (7 * 4 + 7, 6));
}

#[test]
fn fps_is_written_bottom_left() {
    let game = GameState::new();
    let mut out = Output::new(80, "");
    out.draw(&game);
    out.draw_fps("fps 60".to_string());
    let ins = out.draw(&game);
    assert_eq!(count_cells(&ins), 2);
    assert_eq!(texts(&ins), vec!["    ", "fps ", "    ", "60  "]);
}

#[test]
fn new_output_knows_its_position() {
    let out = Output::new(100, "x");
    assert_eq!(out.position(), (17, 0));
}

#[test]
fn background_drops_carriage_return_before_line_feed() {
    let bg = Output::parse_background("ab\r\ncd\r\n");
    assert_eq!(bg[19][31..33].iter().collect::<String>(), "ab");
    assert_eq!(bg[20][31..33].iter().collect::<String>(), "cd");
    let letters = bg.iter().flatten().filter(|c| **c != ' ').count();
    assert_eq!(letters, 4);
}
