use tetris::piece::Piece;
use tetris::piece::PieceColor;
use tetris::piece::PieceType;
use tetris::pile::Pile;

fn fill(pile: &mut Pile, row: usize, col: usize, color: PieceColor) {
    let key = row * pile.field.col_count + col;
    pile.field.set(row, col, true);
    pile.map.insert(key, color);
}

fn fill_row(pile: &mut Pile, row: usize, color: PieceColor) {
    for col in 0..pile.field.col_count {
        fill(pile, row, col, color);
    }
}

fn row_colors(pile: &Pile, row: usize) -> Vec<Option<PieceColor>> {
    (0..pile.field.col_count).map(|col| pile.color_at((row, col))).collect()
}

fn snapshot(pile: &Pile) -> Vec<Vec<Option<PieceColor>>> {
    (0..pile.field.row_count()).map(|row| row_colors(pile, row)).collect()
}

fn cells_and_colors_agree(pile: &Pile) {
    for row in 0..pile.field.row_count() {
        for col in 0..pile.field.col_count {
            assert_eq!(pile.contains((row, col)), pile.color_at((row, col)).is_some());
        }
    }
    let filled = pile.field.backing.iter().filter(|cell| **cell).count();
    assert_eq!(pile.map.len(), filled);
}

#[test]
fn new_pile_is_empty() {
    let pile = Pile::new(18, 27);
    assert_eq!(pile.field.col_count, 18);
    assert_eq!(pile.field.row_count(), 27);
    assert!(pile.map.is_empty());
    for row in 0..27 {
        for col in 0..18 {
            assert!(!pile.contains((row, col)));
            assert_eq!(pile.color_at((row, col)), None);
        }
    }
}

#[test]
fn add_fills_the_cells_of_the_piece_in_its_color() {
    let mut pile = Pile::new(18, 27);
    pile.add(&Piece::new(PieceType::T, 3, 5));
    for row in 0..27 {
        for col in 0..18 {
            let of_piece = [(5, 4), (6, 3), (6, 4), (6, 5)].contains(&(row, col));
            assert_eq!(pile.contains((row, col)), of_piece);
            let color = if of_piece { Some(PieceColor::LightYellow) } else { None };
            assert_eq!(pile.color_at((row, col)), color);
        }
    }
    cells_and_colors_agree(&pile);
}

#[test]
fn add_keeps_what_lies_on_the_pile() {
    let mut pile = Pile::new(6, 6);
    pile.add(&Piece::new(PieceType::Square, 0, 4));
    pile.add(&Piece::new(PieceType::Straight, 2, 4));
    assert_eq!(pile.color_at((4, 0)), Some(PieceColor::Red));
    assert_eq!(pile.color_at((5, 1)), Some(PieceColor::Red));
    for col in 2..6 {
        assert_eq!(pile.color_at((5, col)), Some(PieceColor::LightBlue));
        assert_eq!(pile.color_at((4, col)), None);
    }
    assert_eq!(pile.map.len(), 8);
    cells_and_colors_agree(&pile);
}

#[test]
fn add_recolors_a_filled_cell() {
    let mut pile = Pile::new(6, 6);
    fill(&mut pile, 2, 2, PieceColor::Magenta);
    pile.add(&Piece::new(PieceType::Square, 2, 2));
    assert_eq!(pile.color_at((2, 2)), Some(PieceColor::Red));
    assert_eq!(pile.map.len(), 4);
    cells_and_colors_agree(&pile);
}

#[test]
fn add_takes_a_turned_piece() {
    let mut pile = Pile::new(4, 5);
    let mut piece = Piece::new(PieceType::Straight, -2, 1);
    piece.rotate_clockwise();
    pile.add(&piece);
    for row in 1..5 {
        assert_eq!(row_colors(&pile, row), vec![Some(PieceColor::LightBlue), None, None, None]);
    }
    assert_eq!(row_colors(&pile, 0), vec![None; 4]);
}

#[test]
fn complete_lines_with_counts_the_cells_of_the_piece() {
    let mut pile = Pile::new(6, 8);
    for col in 0..2 {
        fill(&mut pile, 7, col, PieceColor::Green);
    }
    let piece = Piece::new(PieceType::Straight, 2, 6);
    assert_eq!(pile.get_complete_lines_with(&piece.get_positions()), vec![7]);
    assert_eq!(snapshot(&pile)[7][2], None);
    let higher = Piece::new(PieceType::Straight, 2, 5);
    assert!(pile.get_complete_lines_with(&higher.get_positions()).is_empty());
    let aside = Piece::new(PieceType::Straight, 1, 6);
    assert!(pile.get_complete_lines_with(&aside.get_positions()).is_empty());
}

#[test]
fn complete_lines_with_lists_each_row_once_from_the_top_down() {
    let mut pile = Pile::new(4, 6);
    for row in 2..6 {
        for col in 1..4 {
            fill(&mut pile, row, col, PieceColor::Blue);
        }
    }
    let mut piece = Piece::new(PieceType::Straight, -2, 2);
    piece.rotate_clockwise();
    assert_eq!(pile.get_complete_lines_with(&piece.get_positions()), vec![2, 3, 4, 5]);
    let square = Piece::new(PieceType::Square, 0, 3);
    assert_eq!(pile.get_complete_lines_with(&square.get_positions()), vec![3, 4]);
    let above = Piece::new(PieceType::Square, 0, 0);
    assert!(pile.get_complete_lines_with(&above.get_positions()).is_empty());
    let given = [(5, 0), (3, 0), (5, 0), (3, 0)];
    assert_eq!(pile.get_complete_lines_with(&given), vec![3, 5]);
}

#[test]
fn complete_lines_with_sees_rows_that_are_full_already() {
    let mut pile = Pile::new(4, 4);
    fill_row(&mut pile, 3, PieceColor::Red);
    let piece = Piece::new(PieceType::Square, 0, 0);
    assert_eq!(pile.get_complete_lines_with(&piece.get_positions()), vec![3]);
}

#[test]
fn complete_lines_with_leaves_cells_off_the_board_aside() {
    let mut pile = Pile::new(4, 4);
    for col in 0..3 {
        fill(&mut pile, 1, col, PieceColor::Red);
    }
    assert!(pile.get_complete_lines_with(&[(9, 3), (1, 4), (0, 3), (2, 3)]).is_empty());
    assert_eq!(pile.get_complete_lines_with(&[(9, 3), (1, 3), (0, 3), (2, 3)]), vec![1]);
}

#[test]
fn cleanup_of_an_empty_pile_clears_nothing() {
    let mut pile = Pile::new(18, 27);
    assert_eq!(pile.cleanup_full_lines(), 0);
    assert!(pile.map.is_empty());
    assert_eq!(pile.field.backing, vec![false; 18 * 27]);
    assert_eq!(pile.cleanup_full_lines(), 0);
    assert!(pile.map.is_empty());
}

#[test]
fn cleanup_without_a_full_row_changes_nothing() {
    let mut pile = Pile::new(6, 6);
    pile.add(&Piece::new(PieceType::Square, 0, 4));
    pile.add(&Piece::new(PieceType::T, 2, 4));
    fill(&mut pile, 0, 3, PieceColor::Magenta);
    let before = snapshot(&pile);
    assert_eq!(pile.cleanup_full_lines(), 0);
    assert_eq!(snapshot(&pile), before);
    cells_and_colors_agree(&pile);
}

#[test]
fn cleanup_clears_one_full_row_and_moves_the_rows_above_down_by_one() {
    let mut pile = Pile::new(4, 6);
    fill(&mut pile, 0, 3, PieceColor::Magenta);
    fill(&mut pile, 1, 0, PieceColor::Red);
    fill(&mut pile, 2, 1, PieceColor::Green);
    fill(&mut pile, 2, 2, PieceColor::Blue);
    fill_row(&mut pile, 3, PieceColor::Yellow);
    fill(&mut pile, 4, 0, PieceColor::LightBlue);
    fill(&mut pile, 5, 3, PieceColor::LightYellow);
    let before = snapshot(&pile);

    assert_eq!(pile.cleanup_full_lines(), 1);

    let after = snapshot(&pile);
    assert_eq!(after[0], vec![None; 4]);
    assert_eq!(after[1], before[0]);
    assert_eq!(after[2], before[1]);
    assert_eq!(after[3], before[2]);
    assert_eq!(after[4], before[4]);
    assert_eq!(after[5], before[5]);
    assert_eq!(after[3], vec![None, Some(PieceColor::Green), Some(PieceColor::Blue), None]);
    cells_and_colors_agree(&pile);
}

#[test]
fn cleanup_clears_the_bottom_row() {
    let mut pile = Pile::new(4, 3);
    fill(&mut pile, 1, 2, PieceColor::Red);
    fill_row(&mut pile, 2, PieceColor::Green);
    assert_eq!(pile.cleanup_full_lines(), 1);
    assert_eq!(
        snapshot(&pile),
        vec![vec![None; 4], vec![None; 4], vec![None, None, Some(PieceColor::Red), None]]
    );
    cells_and_colors_agree(&pile);
}

#[test]
fn cleanup_clears_two_full_rows_and_packs_the_rest() {
    let mut pile = Pile::new(4, 6);
    fill(&mut pile, 0, 0, PieceColor::Magenta);
    fill(&mut pile, 1, 1, PieceColor::Red);
    fill(&mut pile, 2, 2, PieceColor::Green);
    fill(&mut pile, 2, 3, PieceColor::Blue);
    fill_row(&mut pile, 3, PieceColor::Yellow);
    fill(&mut pile, 4, 0, PieceColor::LightBlue);
    fill(&mut pile, 4, 3, PieceColor::LightYellow);
    fill_row(&mut pile, 5, PieceColor::Yellow);
    let before = snapshot(&pile);

    assert_eq!(pile.cleanup_full_lines(), 2);

    let after = snapshot(&pile);
    assert_eq!(after[0], vec![None; 4]);
    assert_eq!(after[1], vec![None; 4]);
    assert_eq!(after[2], before[0]);
    assert_eq!(after[3], before[1]);
    assert_eq!(after[4], before[2]);
    assert_eq!(after[5], before[4]);
    assert_eq!(
        after[5],
        vec![Some(PieceColor::LightBlue), None, None, Some(PieceColor::LightYellow)]
    );
    assert_eq!(after[4], vec![None, None, Some(PieceColor::Green), Some(PieceColor::Blue)]);
    assert_eq!(pile.map.len(), 6);
    cells_and_colors_agree(&pile);
}

#[test]
fn cleanup_clears_neighbouring_full_rows() {
    let mut pile = Pile::new(4, 6);
    fill(&mut pile, 1, 1, PieceColor::Red);
    for row in 2..6 {
        fill_row(&mut pile, row, PieceColor::LightBlue);
    }
    assert_eq!(pile.cleanup_full_lines(), 4);
    let after = snapshot(&pile);
    for row in 0..5 {
        assert_eq!(after[row], vec![None; 4]);
    }
    assert_eq!(after[5], vec![None, Some(PieceColor::Red), None, None]);
    assert_eq!(pile.cleanup_full_lines(), 0);
    assert_eq!(snapshot(&pile), after);
}

#[test]
fn cleanup_does_not_clear_the_top_row() {
    let mut pile = Pile::new(4, 3);
    fill_row(&mut pile, 0, PieceColor::Red);
    let before = snapshot(&pile);
    assert_eq!(pile.cleanup_full_lines(), 0);
    assert_eq!(snapshot(&pile), before);

    fill_row(&mut pile, 2, PieceColor::Green);
    assert_eq!(pile.cleanup_full_lines(), 1);
    let after = snapshot(&pile);
    assert_eq!(after[0], vec![None; 4]);
    assert_eq!(after[1], vec![Some(PieceColor::Red); 4]);
    assert_eq!(after[2], vec![None; 4]);
    cells_and_colors_agree(&pile);
}

#[test]
fn cleanup_of_a_pile_of_one_row_clears_nothing() {
    let mut pile = Pile::new(3, 1);
    fill_row(&mut pile, 0, PieceColor::Blue);
    assert_eq!(pile.cleanup_full_lines(), 0);
    assert_eq!(snapshot(&pile), vec![vec![Some(PieceColor::Blue); 3]]);
}

#[test]
fn cells_have_colors_after_every_change() {
    let mut pile = Pile::new(8, 6);
    cells_and_colors_agree(&pile);
    pile.add(&Piece::new(PieceType::Straight, 0, 4));
    cells_and_colors_agree(&pile);
    pile.add(&Piece::new(PieceType::Straight, 4, 4));
    cells_and_colors_agree(&pile);
    pile.add(&Piece::new(PieceType::L, 1, 3));
    cells_and_colors_agree(&pile);
    assert_eq!(pile.cleanup_full_lines(), 1);
    cells_and_colors_agree(&pile);
    assert_eq!(pile.map.len(), 4);
    assert_eq!(
        row_colors(&pile, 5),
        vec![
            None,
            Some(PieceColor::Green),
            Some(PieceColor::Green),
            Some(PieceColor::Green),
            None,
            None,
            None,
            None
        ]
    );
    assert_eq!(pile.color_at((4, 3)), Some(PieceColor::Green));
}
