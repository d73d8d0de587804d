use tetris::piece::get_piece_color;
use tetris::piece::piece_type_from_index;
use tetris::piece::Piece;
use tetris::piece::PieceColor;
use tetris::piece::PieceType;
use tetris::pile::Pile;

const T: bool = true;
const F: bool = false;

fn all_types() -> [PieceType; 7] {
    [
        PieceType::Square,
        PieceType::L,
        PieceType::Straight,
        PieceType::ReverseL,
        PieceType::T,
        PieceType::Worm,
        PieceType::ReverseWorm,
    ]
}

#[test]
fn each_shape_has_its_color() {
    assert_eq!(get_piece_color(&PieceType::Square), PieceColor::Red);
    assert_eq!(get_piece_color(&PieceType::L), PieceColor::Green);
    assert_eq!(get_piece_color(&PieceType::Straight), PieceColor::LightBlue);
    assert_eq!(get_piece_color(&PieceType::ReverseL), PieceColor::Blue);
    assert_eq!(get_piece_color(&PieceType::T), PieceColor::LightYellow);
    assert_eq!(get_piece_color(&PieceType::Worm), PieceColor::Yellow);
    assert_eq!(get_piece_color(&PieceType::ReverseWorm), PieceColor::Magenta);
}

#[test]
fn the_seven_colors_differ() {
    let types = all_types();
    for i in 0..7 {
        for j in 0..7 {
            if i != j {
                assert_ne!(get_piece_color(&types[i]), get_piece_color(&types[j]));
            }
        }
    }
}

#[test]
fn shapes_are_listed_in_order() {
    assert_eq!(piece_type_from_index(0), PieceType::Square);
    assert_eq!(piece_type_from_index(1), PieceType::L);
    assert_eq!(piece_type_from_index(2), PieceType::Straight);
    assert_eq!(piece_type_from_index(3), PieceType::ReverseL);
    assert_eq!(piece_type_from_index(4), PieceType::T);
    assert_eq!(piece_type_from_index(5), PieceType::Worm);
    assert_eq!(piece_type_from_index(6), PieceType::ReverseWorm);
}

#[test]
fn an_index_past_the_list_gives_the_last_shape() {
    assert_eq!(piece_type_from_index(7), PieceType::ReverseWorm);
    assert_eq!(piece_type_from_index(255), PieceType::ReverseWorm);
}

#[test]
fn templates_are_as_drawn() {
    let square = Piece::get_piece_template(PieceType::Square);
    assert_eq!(square.col_count, 2);
    assert_eq!(square.backing, vec![T, T, T, T]);

    let l = Piece::get_piece_template(PieceType::L);
    assert_eq!(l.col_count, 3);
    assert_eq!(l.backing, vec![F, F, T, T, T, T, F, F, F]);

    let reverse_l = Piece::get_piece_template(PieceType::ReverseL);
    assert_eq!(reverse_l.col_count, 3);
    assert_eq!(reverse_l.backing, vec![T, F, F, T, T, T, F, F, F]);

    let straight = Piece::get_piece_template(PieceType::Straight);
    assert_eq!(straight.col_count, 4);
    assert_eq!(straight.backing, vec![F, F, F, F, T, T, T, T, F, F, F, F, F, F, F, F]);

    let t = Piece::get_piece_template(PieceType::T);
    assert_eq!(t.col_count, 3);
    assert_eq!(t.backing, vec![F, T, F, T, T, T, F, F, F]);

    let worm = Piece::get_piece_template(PieceType::Worm);
    assert_eq!(worm.col_count, 3);
    assert_eq!(worm.backing, vec![T, T, F, F, T, T, F, F, F]);

    let reverse_worm = Piece::get_piece_template(PieceType::ReverseWorm);
    assert_eq!(reverse_worm.col_count, 3);
    assert_eq!(reverse_worm.backing, vec![F, T, T, T, T, F, F, F, F]);
}

#[test]
fn every_template_is_square_with_four_cells() {
    for piece_type in all_types() {
        let template = Piece::get_piece_template(piece_type);
        assert_eq!(template.backing.len(), template.col_count * template.col_count);
        assert_eq!(template.backing.iter().filter(|cell| **cell).count(), 4);
    }
}

#[test]
fn new_piece_has_the_template_of_its_shape() {
    let piece = Piece::new(PieceType::Worm, 3, -2);
    assert_eq!(piece.piece_type, PieceType::Worm);
    assert_eq!(piece.anchor_x, 3);
    assert_eq!(piece.anchor_y, -2);
    assert_eq!(piece.template, Piece::get_piece_template(PieceType::Worm));
}

#[test]
fn rotate_clockwise_turns_the_l() {
    let mut piece = Piece::new(PieceType::L, 4, 5);
    piece.rotate_clockwise();
    assert_eq!(piece.template.col_count, 3);
    assert_eq!(piece.template.backing, vec![F, T, F, F, T, F, F, T, T]);
    assert_eq!(piece.anchor_x, 4);
    assert_eq!(piece.anchor_y, 5);
    assert_eq!(piece.piece_type, PieceType::L);
}

#[test]
fn rotate_counter_clockwise_turns_the_l() {
    let mut piece = Piece::new(PieceType::L, 4, 5);
    piece.rotate_counter_clockwise();
    assert_eq!(piece.template.backing, vec![T, T, F, F, T, F, F, T, F]);
    assert_eq!(piece.anchor_x, 4);
    assert_eq!(piece.anchor_y, 5);
}

#[test]
fn rotate_clockwise_stands_the_straight_piece_up() {
    let mut piece = Piece::new(PieceType::Straight, 0, 0);
    piece.rotate_clockwise();
    assert_eq!(
        piece.template.backing,
        vec![F, F, T, F, F, F, T, F, F, F, T, F, F, F, T, F]
    );
    piece.rotate_clockwise();
    assert_eq!(
        piece.template.backing,
        vec![F, F, F, F, F, F, F, F, T, T, T, T, F, F, F, F]
    );
}

#[test]
fn rotate_counter_clockwise_stands_the_straight_piece_up() {
    let mut piece = Piece::new(PieceType::Straight, 0, 0);
    piece.rotate_counter_clockwise();
    assert_eq!(
        piece.template.backing,
        vec![F, T, F, F, F, T, F, F, F, T, F, F, F, T, F, F]
    );
}

#[test]
fn rotating_the_square_changes_nothing() {
    let mut piece = Piece::new(PieceType::Square, 1, 1);
    piece.rotate_clockwise();
    assert_eq!(piece.template.backing, vec![T, T, T, T]);
    piece.rotate_counter_clockwise();
    assert_eq!(piece.template.backing, vec![T, T, T, T]);
}

#[test]
fn four_clockwise_turns_give_the_template_back() {
    for piece_type in all_types() {
        let mut piece = Piece::new(piece_type, 2, 3);
        let before = piece.clone();
        for turn in 1..=4 {
            piece.rotate_clockwise();
            if turn < 4 && piece_type != PieceType::Square {
                assert_ne!(piece.template, before.template);
            }
        }
        assert_eq!(piece, before);
    }
}

#[test]
fn four_counter_clockwise_turns_give_the_template_back() {
    for piece_type in all_types() {
        let mut piece = Piece::new(piece_type, 2, 3);
        let before = piece.clone();
        for _ in 0..4 {
            piece.rotate_counter_clockwise();
        }
        assert_eq!(piece, before);
    }
}

#[test]
fn opposite_turns_undo_each_other() {
    for piece_type in all_types() {
        let mut piece = Piece::new(piece_type, 0, 0);
        piece.rotate_clockwise();
        let turned = piece.clone();
        piece.rotate_clockwise();
        piece.rotate_counter_clockwise();
        assert_eq!(piece, turned);
        piece.rotate_counter_clockwise();
        assert_eq!(piece.template, Piece::get_piece_template(piece_type));
    }
}

#[test]
fn three_clockwise_turns_are_one_counter_clockwise_turn() {
    for piece_type in all_types() {
        let mut thrice = Piece::new(piece_type, 0, 0);
        thrice.rotate_clockwise();
        thrice.rotate_clockwise();
        thrice.rotate_clockwise();
        let mut once = Piece::new(piece_type, 0, 0);
        once.rotate_counter_clockwise();
        assert_eq!(thrice, once);
    }
}

#[test]
fn every_turn_keeps_four_cells() {
    for piece_type in all_types() {
        let mut piece = Piece::new(piece_type, 0, 0);
        for _ in 0..4 {
            piece.rotate_clockwise();
            assert_eq!(piece.template.backing.iter().filter(|cell| **cell).count(), 4);
        }
    }
}

#[test]
fn get_positions_offsets_the_cells_by_the_anchor() {
    let piece = Piece::new(PieceType::T, 3, 5);
    assert_eq!(piece.get_positions(), [(5, 4), (6, 3), (6, 4), (6, 5)]);
}

#[test]
fn get_positions_of_the_straight_piece() {
    let mut piece = Piece::new(PieceType::Straight, 7, 0);
    assert_eq!(piece.get_positions(), [(1, 7), (1, 8), (1, 9), (1, 10)]);
    piece.rotate_clockwise();
    assert_eq!(piece.get_positions(), [(0, 9), (1, 9), (2, 9), (3, 9)]);
}

#[test]
fn get_positions_takes_cells_that_touch_the_edge() {
    let mut piece = Piece::new(PieceType::Straight, -2, -1);
    piece.rotate_clockwise();
    piece.move_down_unsafe();
    assert_eq!(piece.get_positions(), [(0, 0), (1, 0), (2, 0), (3, 0)]);
}

#[test]
fn get_positions_unsafe_may_be_negative() {
    let piece = Piece::new(PieceType::Square, -1, -1);
    assert_eq!(piece.get_positions_unsafe(), [(-1, -1), (-1, 0), (0, -1), (0, 0)]);
}

#[test]
fn get_positions_unsafe_agrees_with_get_positions() {
    let piece = Piece::new(PieceType::ReverseWorm, 2, 9);
    let signed = piece.get_positions_unsafe();
    let unsigned = piece.get_positions();
    for k in 0..4 {
        assert_eq!(signed[k].0 as usize, unsigned[k].0);
        assert_eq!(signed[k].1 as usize, unsigned[k].1);
    }
    assert_eq!(unsigned, [(9, 3), (9, 4), (10, 2), (10, 3)]);
}

#[test]
fn unsafe_moves_shift_the_anchor_by_one() {
    let mut piece = Piece::new(PieceType::L, 0, 0);
    let template = piece.template.clone();
    piece.move_down_unsafe();
    assert_eq!((piece.anchor_x, piece.anchor_y), (0, 1));
    piece.move_left_unsafe();
    assert_eq!((piece.anchor_x, piece.anchor_y), (-1, 1));
    piece.move_right_unsafe();
    piece.move_right_unsafe();
    assert_eq!((piece.anchor_x, piece.anchor_y), (1, 1));
    assert_eq!(piece.template, template);
    assert_eq!(piece.piece_type, PieceType::L);
}

#[test]
fn place_at_sets_the_anchor() {
    let mut piece = Piece::new(PieceType::T, 0, 0);
    piece.rotate_clockwise();
    let template = piece.template.clone();
    piece.place_at(7, 0);
    assert_eq!((piece.anchor_x, piece.anchor_y), (7, 0));
    piece.place_at(-3, 12);
    assert_eq!((piece.anchor_x, piece.anchor_y), (-3, 12));
    assert_eq!(piece.template, template);
}

#[test]
fn swap_figures_leaves_the_anchors() {
    let mut first = Piece::new(PieceType::T, 1, 2);
    first.rotate_clockwise();
    let turned = first.template.clone();
    let mut second = Piece::new(PieceType::Straight, 3, 4);
    first.swap_figures(&mut second);
    assert_eq!(first.piece_type, PieceType::Straight);
    assert_eq!(first.template, Piece::get_piece_template(PieceType::Straight));
    assert_eq!((first.anchor_x, first.anchor_y), (1, 2));
    assert_eq!(second.piece_type, PieceType::T);
    assert_eq!(second.template, turned);
    assert_eq!((second.anchor_x, second.anchor_y), (3, 4));
}

#[test]
fn swapping_twice_changes_nothing() {
    let mut first = Piece::new(PieceType::Worm, 1, 2);
    let mut second = Piece::new(PieceType::L, 3, 4);
    second.rotate_counter_clockwise();
    let (a, b) = (first.clone(), second.clone());
    first.swap_figures(&mut second);
    first.swap_figures(&mut second);
    assert_eq!(first, a);
    assert_eq!(second, b);
}

#[test]
fn refresh_turns_the_template_back() {
    let mut piece = Piece::new(PieceType::ReverseL, 5, 6);
    piece.rotate_clockwise();
    piece.rotate_clockwise();
    assert_ne!(piece.template, Piece::get_piece_template(PieceType::ReverseL));
    piece.refresh();
    assert_eq!(piece, Piece::new(PieceType::ReverseL, 5, 6));
}

#[test]
fn random_piece_is_one_of_the_seven() {
    for _ in 0..50 {
        let piece = Piece::new_random_piece_at(4, 9);
        assert_eq!((piece.anchor_x, piece.anchor_y), (4, 9));
        assert!(all_types().contains(&piece.piece_type));
        assert_eq!(piece.template, Piece::get_piece_template(piece.piece_type));
    }
}

#[test]
fn random_pieces_are_not_all_the_last_shape() {
    let mut other = false;
    for _ in 0..400 {
        if Piece::new_random_piece_at(0, 0).piece_type != PieceType::ReverseWorm {
            other = true;
        }
    }
    assert!(other);
}

#[test]
fn randomize_keeps_the_anchor_and_resets_the_template() {
    let mut piece = Piece::new(PieceType::T, -1, 3);
    piece.rotate_clockwise();
    for _ in 0..50 {
        piece.randomize();
        assert_eq!((piece.anchor_x, piece.anchor_y), (-1, 3));
        assert_eq!(piece.template, Piece::get_piece_template(piece.piece_type));
    }
}

#[test]
fn piece_collides_with_the_edges() {
    let pile = Pile::new(18, 27);
    let corner = Piece::new(PieceType::Square, 0, 0);
    assert!(!corner.collides((0, 0), &pile));
    assert!(corner.collides((-1, 0), &pile));
    assert!(corner.collides((0, -1), &pile));
    assert!(!corner.collides((1, 1), &pile));

    let far = Piece::new(PieceType::Square, 16, 25);
    assert!(!far.collides((0, 0), &pile));
    assert!(far.collides((1, 0), &pile));
    assert!(far.collides((0, 1), &pile));
    assert!(!far.collides((-1, -1), &pile));
}

#[test]
fn piece_off_the_board_collides() {
    let pile = Pile::new(18, 27);
    assert!(Piece::new(PieceType::Square, -1, 5).collides((0, 0), &pile));
    assert!(Piece::new(PieceType::Square, 5, -1).collides((0, 0), &pile));
    assert!(Piece::new(PieceType::Square, 17, 5).collides((0, 0), &pile));
    assert!(Piece::new(PieceType::Square, 5, 26).collides((0, 0), &pile));
    assert!(!Piece::new(PieceType::Square, -1, 5).collides((1, 0), &pile));
    assert!(!Piece::new(PieceType::Square, 17, 26).collides((-1, -1), &pile));
}

#[test]
fn empty_cells_of_the_template_may_lie_off_the_board() {
    let pile = Pile::new(18, 27);
    let mut straight = Piece::new(PieceType::Straight, -2, 0);
    straight.rotate_clockwise();
    assert!(!straight.collides((0, 0), &pile));
    assert!(straight.collides((-1, 0), &pile));
    let flat = Piece::new(PieceType::Straight, 0, -1);
    assert!(!flat.collides((0, 0), &pile));
    assert!(flat.collides((0, -1), &pile));
}

#[test]
fn piece_collides_with_the_pile() {
    let mut pile = Pile::new(18, 27);
    pile.add(&Piece::new(PieceType::Square, 4, 4));
    assert!(Piece::new(PieceType::Square, 5, 5).collides((0, 0), &pile));
    assert!(Piece::new(PieceType::Square, 4, 4).collides((0, 0), &pile));
    let beside = Piece::new(PieceType::Square, 6, 4);
    assert!(!beside.collides((0, 0), &pile));
    assert!(beside.collides((-1, 0), &pile));
    assert!(beside.collides((-1, 1), &pile));
    assert!(!beside.collides((-1, 2), &pile));
}

#[test]
fn touches_on_bottom_at_the_floor_and_on_the_pile() {
    let mut pile = Pile::new(18, 27);
    let floor = Piece::new(PieceType::Square, 3, 25);
    assert!(floor.touches_on_bottom(&pile));
    let above = Piece::new(PieceType::Square, 3, 23);
    assert!(!above.touches_on_bottom(&pile));
    pile.add(&floor);
    assert!(above.touches_on_bottom(&pile));
    assert!(!Piece::new(PieceType::Square, 3, 22).touches_on_bottom(&pile));
    assert!(!Piece::new(PieceType::Square, 5, 23).touches_on_bottom(&pile));
}
