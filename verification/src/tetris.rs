//! The game: the piece that falls, the piece that comes next, the piece held
//! in reserve, the pile, the score and the clock.

pub mod time_manager;

use vstd::prelude::*;
use crate::config::BOTTOM_THRESHOLD;
use crate::config::INITIAL_TICK_TIME_MS;
use crate::config::LEFT_THRESHOLD;
use crate::config::RIGHT_THRESHOLD;
use crate::matrix::Grid;
use crate::piece::canonical;
use crate::piece::cells_of;
use crate::piece::color_of;
use crate::piece::hits;
use crate::piece::kick_of;
use crate::piece::lemma_free_cells;
use crate::piece::lemma_hits_from;
use crate::piece::rotated_clockwise;
use crate::piece::rotated_counter_clockwise;
use crate::piece::Piece;
use crate::pile::Board;
use crate::pile::Pile;
use crate::tetris::time_manager::quickened;
use crate::tetris::time_manager::TimeManager;

verus! {

/// The largest number of rows and of columns of a board on which a game can
/// be played: the coordinates of the pieces are kept in `i16`.
pub const MAX_BOARD_SIDE: usize = 0x4000;

/// The column at which the anchor of a piece lies when the piece enters a
/// board of `cols` columns.
pub open spec fn start_column(cols: int) -> int {
    (LEFT_THRESHOLD + cols) / 2 - 2
}

/// What clearing `cleared` rows at once on a board of `cols` columns adds to
/// the score: a point for each cell, and the square of the number of rows
/// where more than one row is cleared.
pub open spec fn gain(cleared: int, cols: int) -> int {
    cleared * cols + if cleared > 1 {
        cleared * cleared
    } else {
        0
    }
}

/// A template turned a quarter, one way or the other.
pub open spec fn turned(grid: Grid, clockwise: bool) -> Grid {
    if clockwise {
        rotated_clockwise(grid)
    } else {
        rotated_counter_clockwise(grid)
    }
}

/// `piece` can fall by `distance` rows, one row after another, and no
/// further.
pub open spec fn lands_after(piece: &Piece, distance: int, board: Board) -> bool {
    &&& distance >= 0
    &&& forall|d: int| 1 <= d <= distance ==> !#[trigger] piece.collides_at(0, d, board)
    &&& piece.collides_at(0, distance + 1, board)
}

/// `ghost` is `piece` where it comes to rest if it falls straight down.
pub open spec fn is_projection(ghost: &Piece, piece: &Piece, board: Board) -> bool {
    &&& ghost.shape() == piece.shape()
    &&& ghost.piece_type == piece.piece_type
    &&& ghost.anchor_x == piece.anchor_x
    &&& lands_after(piece, ghost.anchor_y - piece.anchor_y, board)
}

/// A piece comes to rest in one place only.
pub proof fn lemma_one_landing(piece: &Piece, first: int, second: int, board: Board)
    requires
        lands_after(piece, first, board),
        lands_after(piece, second, board),
    ensures
        first == second,
{
    if first < second {
        assert(!piece.collides_at(0, first + 1, board));
    }
    if second < first {
        assert(!piece.collides_at(0, second + 1, board));
    }
}

/// No clear scores more than the clear of every row.
pub proof fn lemma_gain_bound(cleared: int, rows: int, cols: int)
    requires
        0 <= cleared <= rows <= MAX_BOARD_SIDE,
        0 <= cols <= MAX_BOARD_SIDE,
    ensures
        0 <= cleared * cols <= rows * cols <= 0x1000_0000,
        0 <= cleared * cleared <= rows * rows <= 0x1000_0000,
        0 <= gain(cleared, cols) <= rows * cols + rows * rows,
{
    assert(0 <= cleared * cols <= rows * cols <= 0x4000 * 0x4000) by (nonlinear_arith)
        requires
            0 <= cleared <= rows <= 0x4000,
            0 <= cols <= 0x4000,
    ;
    assert(0 <= cleared * cleared <= rows * rows <= 0x4000 * 0x4000) by (nonlinear_arith)
        requires
            0 <= cleared <= rows <= 0x4000,
    ;
}

/// A game.
pub struct Tetris {
    /// The piece that falls.
    pub current_piece: Piece,
    /// The piece that falls next.
    pub next_piece: Piece,
    /// The piece held in reserve.
    pub spare_piece: Piece,
    /// The falling piece where it would come to rest.
    pub projected_piece: Piece,
    /// The landed cells.
    pub pile: Pile,
    /// Whether the reserve was used since the last piece landed.
    pub spare_used: bool,
    pub score: usize,
    /// Rows cleared at once the last time more than one row was cleared.
    pub last_combo: usize,
    pub time_manager: TimeManager,
}

impl Tetris {
    /// The pile and the pieces are well formed, the board is not too large,
    /// and the projection shows where the falling piece comes to rest.
    pub open spec fn wf(&self) -> bool {
        &&& self.pile.wf()
        &&& self.pile@.cols <= MAX_BOARD_SIDE
        &&& self.pile@.rows <= MAX_BOARD_SIDE
        &&& self.current_piece.wf()
        &&& self.next_piece.wf()
        &&& self.spare_piece.wf()
        &&& self.projected_piece.wf()
        &&& is_projection(&self.projected_piece, &self.current_piece, self.pile@)
    }

    /// The game is over: the falling piece has a cell off the board or on the
    /// pile.
    pub open spec fn over(&self) -> bool {
        self.current_piece.collides_at(0, 0, self.pile@)
    }

    /// The score can take the points of any clear.
    pub open spec fn can_score(&self) -> bool {
        self.score + self.pile@.rows * self.pile@.cols + self.pile@.rows * self.pile@.rows
            <= usize::MAX
    }

    /// All but the falling piece, its projection and the clock is as in
    /// `before`.
    pub open spec fn same_around(&self, before: &Tetris) -> bool {
        &&& self.next_piece == before.next_piece
        &&& self.spare_piece == before.spare_piece
        &&& self.pile == before.pile
        &&& self.spare_used == before.spare_used
        &&& self.score == before.score
        &&& self.last_combo == before.last_combo
    }

    /// This game is what `before` becomes when the piece `landed` locks: the
    /// piece joins the pile and the pile is cleaned up; the next piece enters
    /// the board and a new piece, of any shape, comes next; the reserve may
    /// be used again; the clear is scored and speeds the game up; the clock
    /// is reset.
    pub open spec fn follows_lock_of(&self, before: &Tetris, landed: &Piece) -> bool {
        let merged = before.pile@.with_cells(landed.cells(), color_of(landed.piece_type));
        let cleared = merged.cleared_between(0, merged.rows as int);
        &&& self.pile@.is_cleanup_of(merged)
        &&& self.current_piece.shape() == before.next_piece.shape()
        &&& self.current_piece.piece_type == before.next_piece.piece_type
        &&& self.current_piece.anchor_x == start_column(before.pile@.cols as int)
        &&& self.current_piece.anchor_y == 0
        &&& self.next_piece.shape() == canonical(self.next_piece.piece_type)
        &&& self.next_piece.anchor_x == before.next_piece.anchor_x
        &&& self.next_piece.anchor_y == before.next_piece.anchor_y
        &&& self.spare_piece == before.spare_piece
        &&& !self.spare_used
        &&& self.score == before.score + gain(cleared as int, before.pile@.cols as int)
        &&& self.last_combo == if cleared > 1 {
            cleared as usize
        } else {
            before.last_combo
        }
        &&& self.time_manager.tick_time == quickened(
            before.time_manager.tick_time as int,
            cleared as int,
        )
        &&& self.time_manager.sticky_timeout == INITIAL_TICK_TIME_MS
        &&& self.time_manager.offset_tick == 0
    }

    /// A new game on an empty board of the configured size, with pieces of
    /// shapes drawn at random.
    pub fn new() -> (game: Self)
        ensures
            game.wf(),
            game.pile@.cols == RIGHT_THRESHOLD,
            game.pile@.rows == BOTTOM_THRESHOLD,
            game.pile@.colors == Map::<(int, int), crate::piece::PieceColor>::empty(),
            game.current_piece.shape() == canonical(game.current_piece.piece_type),
            game.current_piece.anchor_x == start_column(RIGHT_THRESHOLD as int),
            game.current_piece.anchor_y == 0,
            game.next_piece.shape() == canonical(game.next_piece.piece_type),
            game.next_piece.anchor_x == 0,
            game.next_piece.anchor_y == 1,
            game.spare_piece.shape() == canonical(game.spare_piece.piece_type),
            game.spare_piece.anchor_x == 0,
            game.spare_piece.anchor_y == 7,
            !game.spare_used,
            game.score == 0,
            game.last_combo == 0,
            game.time_manager.tick_time == INITIAL_TICK_TIME_MS,
            game.time_manager.sticky_timeout == INITIAL_TICK_TIME_MS,
            game.time_manager.offset_tick == 0,
    {
        let mut tetris = Tetris {
            pile: Pile::new(RIGHT_THRESHOLD, BOTTOM_THRESHOLD),
            current_piece: Piece::new_random_piece_at(0, 0),
            next_piece: Piece::new_random_piece_at(0, 1),
            spare_piece: Piece::new_random_piece_at(0, 7),
            projected_piece: Piece::new_random_piece_at(0, 0),
            spare_used: false,
            score: 0,
            last_combo: 0,
            time_manager: TimeManager::new(),
        };
        tetris.put_in_starting_position();
        tetris.project();
        tetris
    }

    /// Whether `piece`, moved by `offset` (columns, then rows), would have a
    /// cell off the board or on the pile.
    fn collides(&self, piece: &Piece, offset: (i16, i16)) -> (hit: bool)
        requires
            self.pile.wf(),
            piece.wf(),
        ensures
            hit == piece.collides_at(offset.0 as int, offset.1 as int, self.pile@),
    {
        piece.collides(offset, &self.pile)
    }

    /// Whether `piece` cannot move one row down.
    fn touches_on_bottom(&self, piece: &Piece) -> (resting: bool)
        requires
            self.pile.wf(),
            piece.wf(),
        ensures
            resting == piece.collides_at(0, 1, self.pile@),
    {
        self.collides(piece, (0, 1))
    }

    /// Whether the falling piece can move one row down.
    pub fn can_move_down(&self) -> (free: bool)
        requires
            self.wf(),
        ensures
            free == !self.current_piece.collides_at(0, 1, self.pile@),
    {
        !self.touches_on_bottom(&self.current_piece)
    }

    /// Whether the game is over: the falling piece has a cell off the board
    /// or on the pile.
    pub fn is_over(&self) -> (over: bool)
        requires
            self.wf(),
        ensures
            over == self.over(),
    {
        self.collides(&self.current_piece, (0, 0))
    }

    /// Puts the projection where the falling piece comes to rest.
    fn project(&mut self)
        requires
            old(self).pile.wf(),
            old(self).pile@.rows <= MAX_BOARD_SIDE,
            old(self).current_piece.wf(),
        ensures
            final(self).projected_piece.wf(),
            is_projection(
                &final(self).projected_piece,
                &final(self).current_piece,
                final(self).pile@,
            ),
            final(self).current_piece == old(self).current_piece,
            final(self).time_manager == old(self).time_manager,
            final(self).same_around(old(self)),
    {
        self.projected_piece = self.current_piece.clone();
        let ghost board = self.pile@;
        let ghost shape = self.current_piece.shape();
        let ghost x = self.current_piece.anchor_x as int;
        let ghost y = self.current_piece.anchor_y as int;
        while !self.touches_on_bottom(&self.projected_piece)
            invariant
                self.current_piece == old(self).current_piece,
                self.time_manager == old(self).time_manager,
                self.same_around(old(self)),
                self.pile.wf(),
                self.pile@ == board,
                board.rows <= MAX_BOARD_SIDE,
                self.current_piece.wf(),
                self.projected_piece.wf(),
                shape == self.current_piece.shape(),
                x == self.current_piece.anchor_x,
                y == self.current_piece.anchor_y,
                self.projected_piece.shape() == shape,
                self.projected_piece.piece_type == self.current_piece.piece_type,
                self.projected_piece.anchor_x == x,
                self.projected_piece.anchor_y >= y,
                forall|d: int|
                    1 <= d <= self.projected_piece.anchor_y - y ==> !#[trigger] hits(
                        cells_of(shape, x, y),
                        0,
                        d,
                        board,
                    ),
            decreases board.rows - self.projected_piece.anchor_y,
        {
            proof {
                let at = self.projected_piece.anchor_y as int;
                lemma_free_cells(shape, x, at, 0, 1, board);
                lemma_hits_from(shape, x, y, x, at, 0, 1, board);
            }
            self.projected_piece.move_down_unsafe();
        }
        proof {
            let at = self.projected_piece.anchor_y as int;
            lemma_hits_from(shape, x, y, x, at, 0, 1, board);
        }
    }

    /// Puts the falling piece where pieces enter the board.
    fn put_in_starting_position(&mut self)
        requires
            old(self).pile@.cols <= MAX_BOARD_SIDE,
        ensures
            final(self).current_piece.anchor_x == start_column(old(self).pile@.cols as int),
            final(self).current_piece.anchor_y == 0,
            final(self).current_piece.shape() == old(self).current_piece.shape(),
            final(self).current_piece.piece_type == old(self).current_piece.piece_type,
            final(self).projected_piece == old(self).projected_piece,
            final(self).time_manager == old(self).time_manager,
            final(self).same_around(old(self)),
    {
        let middle: usize = (LEFT_THRESHOLD + self.pile.field.col_count) / 2;
        self.current_piece.place_at(middle as i16 - 2, 0);
    }

    /// Moves the falling piece one column to the left, if it fits there.
    pub fn move_left(&mut self)
        requires
            old(self).wf(),
        ensures
            final(self).wf(),
            !old(self).over() ==> !final(self).over(),
            final(self).same_around(old(self)),
            final(self).time_manager == old(self).time_manager,
            final(self).current_piece.shape() == old(self).current_piece.shape(),
            final(self).current_piece.piece_type == old(self).current_piece.piece_type,
            final(self).current_piece.anchor_y == old(self).current_piece.anchor_y,
            final(self).current_piece.anchor_x == if old(self).current_piece.collides_at(
                -1,
                0,
                old(self).pile@,
            ) {
                old(self).current_piece.anchor_x as int
            } else {
                old(self).current_piece.anchor_x - 1
            },
    {
        if !self.collides(&self.current_piece, (-1, 0)) {
            proof {
                let shape = self.current_piece.shape();
                let x = self.current_piece.anchor_x as int;
                let y = self.current_piece.anchor_y as int;
                lemma_free_cells(shape, x, y, -1, 0, self.pile@);
                lemma_hits_from(shape, x, y, x - 1, y, 0, 0, self.pile@);
            }
            self.current_piece.move_left_unsafe();
            self.project();
        }
    }

    /// Moves the falling piece one column to the right, if it fits there.
    pub fn move_right(&mut self)
        requires
            old(self).wf(),
        ensures
            final(self).wf(),
            !old(self).over() ==> !final(self).over(),
            final(self).same_around(old(self)),
            final(self).time_manager == old(self).time_manager,
            final(self).current_piece.shape() == old(self).current_piece.shape(),
            final(self).current_piece.piece_type == old(self).current_piece.piece_type,
            final(self).current_piece.anchor_y == old(self).current_piece.anchor_y,
            final(self).current_piece.anchor_x == if old(self).current_piece.collides_at(
                1,
                0,
                old(self).pile@,
            ) {
                old(self).current_piece.anchor_x as int
            } else {
                old(self).current_piece.anchor_x + 1
            },
    {
        if !self.collides(&self.current_piece, (1, 0)) {
            proof {
                let shape = self.current_piece.shape();
                let x = self.current_piece.anchor_x as int;
                let y = self.current_piece.anchor_y as int;
                lemma_free_cells(shape, x, y, 1, 0, self.pile@);
                lemma_hits_from(shape, x, y, x + 1, y, 0, 0, self.pile@);
            }
            self.current_piece.move_right_unsafe();
            self.project();
        }
    }

    /// Moves the falling piece one row down, if it fits there, and resets the
    /// clock if it did.
    pub fn move_down(&mut self)
        requires
            old(self).wf(),
        ensures
            final(self).wf(),
            !old(self).over() ==> !final(self).over(),
            final(self).same_around(old(self)),
            final(self).projected_piece == old(self).projected_piece,
            final(self).current_piece.shape() == old(self).current_piece.shape(),
            final(self).current_piece.piece_type == old(self).current_piece.piece_type,
            final(self).current_piece.anchor_x == old(self).current_piece.anchor_x,
            final(self).time_manager.tick_time == old(self).time_manager.tick_time,
            old(self).current_piece.collides_at(0, 1, old(self).pile@)
                ==> *final(self) == *old(self),
            !old(self).current_piece.collides_at(0, 1, old(self).pile@) ==> {
                &&& final(self).current_piece.anchor_y == old(self).current_piece.anchor_y + 1
                &&& final(self).time_manager.sticky_timeout == INITIAL_TICK_TIME_MS
                &&& final(self).time_manager.offset_tick == 0
            },
    {
        if !self.touches_on_bottom(&self.current_piece) {
            let ghost board = self.pile@;
            let ghost shape = self.current_piece.shape();
            let ghost x = self.current_piece.anchor_x as int;
            let ghost y = self.current_piece.anchor_y as int;
            let ghost distance = self.projected_piece.anchor_y - y;
            proof {
                lemma_free_cells(shape, x, y, 0, 1, board);
            }
            self.time_manager.tick();
            self.current_piece.move_down_unsafe();
            proof {
                // One row further down the piece has one row less to fall.
                assert(distance >= 1);
                assert forall|d: int| 1 <= d <= distance - 1 implies !#[trigger] self.current_piece.collides_at(
                    0,
                    d,
                    board,
                ) by {
                    lemma_hits_from(shape, x, y, x, y + 1, 0, d, board);
                    assert(!old(self).current_piece.collides_at(0, d + 1, board));
                }
                lemma_hits_from(shape, x, y, x, y + 1, 0, distance, board);
            }
        }
    }

    /// Lets the falling piece fall as far as it can, and locks it there.
    pub fn drop_to_bottom(&mut self)
        requires
            old(self).wf(),
            old(self).can_score(),
        ensures
            final(self).wf(),
            old(self).projected_piece.collides_at(0, 0, old(self).pile@) ==> {
                &&& final(self).same_around(old(self))
                &&& final(self).time_manager == old(self).time_manager
                &&& final(self).projected_piece == old(self).projected_piece
                &&& final(self).current_piece.shape() == old(self).current_piece.shape()
                &&& final(self).current_piece.piece_type == old(self).current_piece.piece_type
                &&& final(self).current_piece.anchor_x == old(self).current_piece.anchor_x
                &&& final(self).current_piece.anchor_y == old(self).projected_piece.anchor_y
            },
            !old(self).projected_piece.collides_at(0, 0, old(self).pile@)
                ==> final(self).follows_lock_of(old(self), &old(self).projected_piece),
    {
        let ghost board = self.pile@;
        let ghost shape = self.current_piece.shape();
        let ghost x = self.current_piece.anchor_x as int;
        let ghost y = self.current_piece.anchor_y as int;
        while self.can_move_down()
            invariant
                self.wf(),
                self.can_score(),
                self.same_around(old(self)),
                self.time_manager == old(self).time_manager,
                self.projected_piece == old(self).projected_piece,
                self.pile@ == board,
                self.current_piece.shape() == shape,
                self.current_piece.piece_type == old(self).current_piece.piece_type,
                self.current_piece.anchor_x == x,
                self.current_piece.anchor_y >= y,
                y == old(self).current_piece.anchor_y,
                x == old(self).current_piece.anchor_x,
                shape == old(self).current_piece.shape(),
                forall|d: int|
                    1 <= d <= self.current_piece.anchor_y - y ==> !#[trigger] hits(
                        cells_of(shape, x, y),
                        0,
                        d,
                        board,
                    ),
            decreases board.rows - self.current_piece.anchor_y,
        {
            let ghost at = self.current_piece.anchor_y as int;
            let ghost distance = self.projected_piece.anchor_y - at;
            let ghost earlier = self.current_piece;
            proof {
                lemma_free_cells(shape, x, at, 0, 1, board);
                lemma_hits_from(shape, x, y, x, at, 0, 1, board);
                assert(distance >= 1);
            }
            self.current_piece.move_down_unsafe();
            proof {
                assert forall|d: int| 1 <= d <= distance - 1 implies !#[trigger] self.current_piece.collides_at(
                    0,
                    d,
                    board,
                ) by {
                    lemma_hits_from(shape, x, at, x, at + 1, 0, d, board);
                    assert(!earlier.collides_at(0, d + 1, board));
                }
                lemma_hits_from(shape, x, at, x, at + 1, 0, distance, board);
            }
        }
        proof {
            // The piece has come to rest, which it does where its projection
            // lies.
            let at = self.current_piece.anchor_y as int;
            lemma_hits_from(shape, x, y, x, at, 0, 1, board);
            lemma_hits_from(shape, x, y, x, at, 0, 0, board);
            lemma_one_landing(
                &old(self).current_piece,
                at - y,
                old(self).projected_piece.anchor_y - y,
                board,
            );
            assert(self.current_piece.cells() == old(self).projected_piece.cells());
        }
        self.finish_turn();
    }

    /// Takes the piece held in reserve in exchange for the falling piece,
    /// which enters the reserve turned as it enters the board. The piece
    /// taken starts at the top. Does nothing where the reserve was used since
    /// the last piece landed.
    pub fn use_spare(&mut self)
        requires
            old(self).wf(),
        ensures
            final(self).wf(),
            old(self).spare_used ==> *final(self) == *old(self),
            !old(self).spare_used ==> {
                &&& final(self).spare_used
                &&& final(self).current_piece.shape() == old(self).spare_piece.shape()
                &&& final(self).current_piece.piece_type == old(self).spare_piece.piece_type
                &&& final(self).current_piece.anchor_x == start_column(old(self).pile@.cols as int)
                &&& final(self).current_piece.anchor_y == 0
                &&& final(self).spare_piece.shape() == canonical(
                    old(self).current_piece.piece_type,
                )
                &&& final(self).spare_piece.piece_type == old(self).current_piece.piece_type
                &&& final(self).spare_piece.anchor_x == old(self).spare_piece.anchor_x
                &&& final(self).spare_piece.anchor_y == old(self).spare_piece.anchor_y
                &&& final(self).next_piece == old(self).next_piece
                &&& final(self).pile == old(self).pile
                &&& final(self).score == old(self).score
                &&& final(self).last_combo == old(self).last_combo
                &&& final(self).time_manager == old(self).time_manager
            },
    {
        if !self.spare_used {
            self.spare_used = true;
            self.current_piece.swap_figures(&mut self.spare_piece);
            self.spare_piece.refresh();
            self.put_in_starting_position();
            self.project();
        }
    }

    /// Locks the falling piece where it is: see [`Tetris::follows_lock_of`].
    /// Returns whether the game is over, which it is where the piece that
    /// enters the board does not fit there. Does nothing but say that the
    /// game is over where the falling piece does not fit where it is.
    pub fn finish_turn(&mut self) -> (over: bool)
        requires
            old(self).wf(),
            old(self).can_score(),
        ensures
            final(self).wf(),
            over == final(self).current_piece.collides_at(0, 0, final(self).pile@),
            old(self).current_piece.collides_at(0, 0, old(self).pile@)
                ==> *final(self) == *old(self),
            !old(self).current_piece.collides_at(0, 0, old(self).pile@)
                ==> final(self).follows_lock_of(old(self), &old(self).current_piece),
    {
        if self.collides(&self.current_piece, (0, 0)) {
            return true;
        }
        let ghost merged = self.pile@.with_cells(
            self.current_piece.cells(),
            color_of(self.current_piece.piece_type),
        );
        proof {
            lemma_free_cells(
                self.current_piece.shape(),
                self.current_piece.anchor_x as int,
                self.current_piece.anchor_y as int,
                0,
                0,
                self.pile@,
            );
        }
        self.pile.add(&self.current_piece);
        let cleaned_up = self.pile.cleanup_full_lines();
        let cols: usize = self.pile.field.col_count;
        proof {
            merged.lemma_cleared_between_bound(0, merged.rows as int);
            lemma_gain_bound(cleaned_up as int, merged.rows as int, cols as int);
        }

        self.current_piece.swap_figures(&mut self.next_piece);
        self.next_piece.randomize();
        self.put_in_starting_position();

        self.spare_used = false;
        self.score += cleaned_up * cols;
        if cleaned_up > 1 {
            self.score += cleaned_up * cleaned_up;
            self.last_combo = cleaned_up;
        }
        self.time_manager.update_tick_speed(cleaned_up);
        self.time_manager.tick();
        self.project();
        self.is_over()
    }

    /// Moves the falling piece one row down, or locks it where it rests.
    /// Returns whether the game is over.
    pub fn finishing_move_down(&mut self) -> (over: bool)
        requires
            old(self).wf(),
            old(self).can_score(),
        ensures
            final(self).wf(),
            !old(self).current_piece.collides_at(0, 1, old(self).pile@) ==> {
                &&& !over
                &&& final(self).same_around(old(self))
                &&& final(self).projected_piece == old(self).projected_piece
                &&& final(self).current_piece.shape() == old(self).current_piece.shape()
                &&& final(self).current_piece.piece_type == old(self).current_piece.piece_type
                &&& final(self).current_piece.anchor_x == old(self).current_piece.anchor_x
                &&& final(self).current_piece.anchor_y == old(self).current_piece.anchor_y + 1
                &&& final(self).time_manager.tick_time == old(self).time_manager.tick_time
                &&& final(self).time_manager.sticky_timeout == INITIAL_TICK_TIME_MS
                &&& final(self).time_manager.offset_tick == 0
            },
            old(self).current_piece.collides_at(0, 1, old(self).pile@) ==> {
                &&& over == final(self).current_piece.collides_at(0, 0, final(self).pile@)
                &&& old(self).current_piece.collides_at(0, 0, old(self).pile@) ==> *final(self)
                    == *old(self)
                &&& !old(self).current_piece.collides_at(0, 0, old(self).pile@)
                    ==> final(self).follows_lock_of(old(self), &old(self).current_piece)
            },
    {
        if self.touches_on_bottom(&self.current_piece) {
            self.finish_turn()
        } else {
            self.move_down();
            false
        }
    }

    /// Turns the falling piece a quarter clockwise, shifted by the first of
    /// 0, -1, +1, -2, +2 columns by which it fits when turned. Does nothing
    /// where it fits by none of them.
    pub fn safe_rotate_clockwise(&mut self)
        requires
            old(self).wf(),
        ensures
            final(self).wf(),
            !old(self).over() ==> !final(self).over(),
            final(self).turned_from(old(self), true),
    {
        self.safe_rotate_internal(true);
    }

    /// Turns the falling piece a quarter counter-clockwise, shifted by the
    /// first of 0, -1, +1, -2, +2 columns by which it fits when turned. Does
    /// nothing where it fits by none of them.
    pub fn safe_rotate_counter_clockwise(&mut self)
        requires
            old(self).wf(),
        ensures
            final(self).wf(),
            !old(self).over() ==> !final(self).over(),
            final(self).turned_from(old(self), false),
    {
        self.safe_rotate_internal(false);
    }

    /// This game is `before` after its falling piece was turned a quarter,
    /// with a shift where one was needed, or left as it was where the turned
    /// piece fits by no shift.
    pub open spec fn turned_from(&self, before: &Tetris, clockwise: bool) -> bool {
        let piece = before.current_piece;
        let shape = turned(piece.shape(), clockwise);
        let cells = cells_of(shape, piece.anchor_x as int, piece.anchor_y as int);
        &&& self.same_around(before)
        &&& self.time_manager == before.time_manager
        &&& self.current_piece.piece_type == piece.piece_type
        &&& self.current_piece.anchor_y == piece.anchor_y
        &&& match kick_of(cells, before.pile@) {
            Some(shift) => self.current_piece.shape() == shape && self.current_piece.anchor_x
                == piece.anchor_x + shift,
            None => self.current_piece.shape() == piece.shape() && self.current_piece.anchor_x
                == piece.anchor_x,
        }
    }

    /// Shifts `piece` by the first of 0, -1, +1, -2, +2 columns by which it
    /// fits, and says whether there is one.
    fn try_fuzzy_fit(&self, piece: &mut Piece) -> (fits: bool)
        requires
            self.pile.wf(),
            self.pile@.cols <= MAX_BOARD_SIDE,
            old(piece).wf(),
        ensures
            final(piece).wf(),
            final(piece).shape() == old(piece).shape(),
            final(piece).piece_type == old(piece).piece_type,
            final(piece).anchor_y == old(piece).anchor_y,
            match kick_of(old(piece).cells(), self.pile@) {
                Some(shift) => fits && final(piece).anchor_x == old(piece).anchor_x + shift,
                None => !fits && final(piece).anchor_x == old(piece).anchor_x,
            },
            fits ==> !final(piece).collides_at(0, 0, self.pile@),
    {
        let ghost shape = piece.shape();
        let ghost x = piece.anchor_x as int;
        let ghost y = piece.anchor_y as int;
        if !self.collides(piece, (0, 0)) {
            return true;
        }
        if !self.collides(piece, (-1, 0)) {
            proof {
                lemma_free_cells(shape, x, y, -1, 0, self.pile@);
                lemma_hits_from(shape, x, y, x - 1, y, 0, 0, self.pile@);
            }
            piece.move_left_unsafe();
            return true;
        }
        if !self.collides(piece, (1, 0)) {
            proof {
                lemma_free_cells(shape, x, y, 1, 0, self.pile@);
                lemma_hits_from(shape, x, y, x + 1, y, 0, 0, self.pile@);
            }
            piece.move_right_unsafe();
            return true;
        }
        if !self.collides(piece, (-2, 0)) {
            proof {
                lemma_free_cells(shape, x, y, -2, 0, self.pile@);
                lemma_hits_from(shape, x, y, x - 2, y, 0, 0, self.pile@);
            }
            piece.move_left_unsafe();
            piece.move_left_unsafe();
            return true;
        }
        if !self.collides(piece, (2, 0)) {
            proof {
                lemma_free_cells(shape, x, y, 2, 0, self.pile@);
                lemma_hits_from(shape, x, y, x + 2, y, 0, 0, self.pile@);
            }
            piece.move_right_unsafe();
            piece.move_right_unsafe();
            return true;
        }
        false
    }

    /// Turns the falling piece a quarter, shifted where it must be.
    fn safe_rotate_internal(&mut self, clockwise: bool)
        requires
            old(self).wf(),
        ensures
            final(self).wf(),
            !old(self).over() ==> !final(self).over(),
            final(self).turned_from(old(self), clockwise),
    {
        let mut temp = self.current_piece.clone();
        if clockwise {
            temp.rotate_clockwise();
        } else {
            temp.rotate_counter_clockwise();
        }
        if self.try_fuzzy_fit(&mut temp) {
            self.current_piece = temp;
            self.project();
        }
    }

    /// Milliseconds between two gravity steps.
    pub fn get_tick_speed(&self) -> (speed: usize)
        ensures
            speed == self.time_manager.tick_time,
    {
        self.time_manager.tick_time
    }

    /// Milliseconds to wait before the next forced step: see
    /// [`TimeManager::get_timeout`].
    pub fn get_timeout(&self) -> (timeout: usize)
        ensures
            exists|elapsed: u128|
                timeout == #[trigger] crate::tetris::time_manager::remaining(
                    self.time_manager.tick_time as int,
                    self.time_manager.offset_tick as int,
                    elapsed as int,
                ),
            timeout <= self.time_manager.tick_time,
    {
        self.time_manager.get_timeout()
    }

    /// Whether the falling piece, at rest, has used up its grace budget and
    /// must lock.
    pub fn should_finish_turn(&self) -> (finish: bool)
        ensures
            finish == (self.time_manager.sticky_timeout <= self.time_manager.tick_time),
    {
        self.time_manager.should_finish_turn()
    }

    /// Takes one tick off the grace budget of the falling piece: see
    /// [`TimeManager::advance_stuck`].
    pub fn advance_stuck(&mut self)
        requires
            old(self).time_manager.sticky_timeout >= old(self).time_manager.tick_time,
        ensures
            final(self).same_around(old(self)),
            final(self).current_piece == old(self).current_piece,
            final(self).projected_piece == old(self).projected_piece,
            final(self).time_manager.tick_time == old(self).time_manager.tick_time,
            final(self).time_manager.sticky_timeout == old(self).time_manager.sticky_timeout
                - old(self).time_manager.tick_time,
            final(self).time_manager.offset_tick == if final(self).time_manager.sticky_timeout
                < old(self).time_manager.tick_time {
                (old(self).time_manager.tick_time
                    - final(self).time_manager.sticky_timeout) as usize
            } else {
                old(self).time_manager.offset_tick
            },
    {
        self.time_manager.advance_stuck();
    }
}

} // verus!
