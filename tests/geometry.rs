use tetris::{Player, PlayerMove, Shape, CATALOG_LEN};

fn sorted(mut v: Vec<(i32, i32)>) -> Vec<(i32, i32)> {
    v.sort();
    v
}

fn l_shape() -> Shape {
    Shape::new(vec![(-2, 0), (0, 0), (2, 0), (2, -2)], (2, 2))
}

#[test]
fn extent_adds_pivot_and_halves() {
    assert_eq!(l_shape().extent(), vec![(0, 1), (1, 1), (2, 1), (2, 0)]);
}

#[test]
fn extent_of_half_cell_square() {
    let square = Shape::new(vec![(-1, -1), (1, -1), (-1, 1), (1, 1)], (1, 1));
    assert_eq!(square.extent(), vec![(0, 0), (1, 0), (0, 1), (1, 1)]);
}

#[test]
fn extent_rounds_toward_zero() {
    let s = Shape::new(vec![(-3, 3), (-1, -1)], (0, 0));
    assert_eq!(s.extent(), vec![(-1, 1), (0, 0)]);
}

#[test]
fn rotate_quarter_turn() {
    let mut s = l_shape();
    s.rotate(1);
    assert_eq!(s.extent(), vec![(1, 0), (1, 1), (1, 2), (2, 2)]);
    assert_eq!(s.get_offset(), (2, 2));
}

#[test]
fn rotate_negative_angle_is_three_quarter_turns() {
    let mut a = l_shape();
    let mut b = l_shape();
    a.rotate(-1);
    b.rotate(3);
    assert_eq!(a.extent(), b.extent());
    let mut c = l_shape();
    c.rotate(-5);
    assert_eq!(c.extent(), b.extent());
}

#[test]
fn rotate_four_times_restores_every_catalog_shape() {
    let shapes = Shape::parse_shapes("");
    assert_eq!(shapes.len(), CATALOG_LEN);
    for s in shapes.iter() {
        let mut r = s.duplicate();
        let before = r.extent();
        for _ in 0..4 {
            r.rotate(1);
        }
        assert_eq!(r.extent(), before);
    }
}

#[test]
fn rotate_half_turn_twice_restores() {
    let mut s = l_shape();
    let before = s.extent();
    s.rotate(2);
    assert_ne!(sorted(s.extent()), sorted(before.clone()));
    s.rotate(2);
    assert_eq!(s.extent(), before);
}

#[test]
fn player_extent_adds_position() {
    let p = Player::spawn(3, 5, l_shape(), 2);
    assert_eq!(p.extent(), vec![(3, 6), (4, 6), (5, 6), (5, 5)]);
    assert_eq!(p.color(), 2);
}

#[test]
fn player_translate_and_rotate() {
    let mut p = Player::spawn(3, 5, l_shape(), 2);
    p.translate(-1, 2);
    assert_eq!(p.extent(), vec![(2, 8), (3, 8), (4, 8), (4, 7)]);
    p.rotate(1);
    assert_eq!(p.extent(), vec![(3, 7), (3, 8), (3, 9), (4, 9)]);
}

#[test]
fn opposite_negates_amounts() {
    assert_eq!(PlayerMove::Translate(1, -2).opposite(), PlayerMove::Translate(-1, 2));
    assert_eq!(PlayerMove::Rotate(3).opposite(), PlayerMove::Rotate(-3));
}

#[test]
fn catalog_holds_the_fixed_shapes() {
    let shapes = Shape::parse_shapes("ignored");
    assert_eq!(shapes[10].extent(), vec![(0, 0), (1, 0), (0, 1), (1, 1)]);
    assert_eq!(shapes[21].extent(), vec![(0, 0), (1, 0), (0, 1), (1, 1), (2, 0)]);
    assert_eq!(shapes[9].extent(), vec![(0, 0), (1, 0), (2, 0), (3, 0)]);
    assert_eq!(shapes[10].get_offset(), (1, 1));
    assert_eq!(shapes[3].extent().len(), 11);
}
