use vstd::prelude::*;

use crate::bits::{
    bit, lane_at, lane_height, lemma_bit_or, lemma_bit_single, lemma_bit_xor, lemma_empty,
    lemma_flip_within, lemma_lane_bit, lemma_lane_grow, lemma_lane_other, lemma_lane_rows,
    lemma_next_free, lemma_subset_bit, lemma_test_single, lemma_window,
};

verus! {

/// Number of columns.
pub const WIDTH: usize = 7;

/// Number of rows.
pub const HEIGHT: usize = 6;

/// Bits of one column lane: the rows and a guard band above them.
const PADDED_HEIGHT: usize = 8;

/// Four positions up a column, from the lowest.
const VERTICAL_LINE: u64 = 1u64 | (1u64 << 1u64) | (1u64 << 2u64) | (1u64 << 3u64);

/// Four positions along a row, from the leftmost.
const HORIZONTAL_LINE: u64 = 1u64 | (1u64 << 8u64) | (1u64 << 16u64) | (1u64 << 24u64);

/// Four positions rising to the right, from the lowest.
const RISING_LINE: u64 = 1u64 | (1u64 << 9u64) | (1u64 << 18u64) | (1u64 << 27u64);

/// Four positions falling to the right, from the highest.
const FALLING_LINE: u64 = 1u64 | (1u64 << 7u64) | (1u64 << 14u64) | (1u64 << 21u64);

/// The content of one position.
#[derive(Clone, Copy, PartialEq, Eq, Debug, Structural)]
pub enum Cell {
    Empty,
    /// The first player.
    X,
    /// The second player.
    O,
}

impl Cell {
    pub open spec fn opponent(self) -> Cell {
        match self {
            Cell::Empty => Cell::Empty,
            Cell::X => Cell::O,
            Cell::O => Cell::X,
        }
    }

    pub open spec fn symbol(self) -> char {
        match self {
            Cell::Empty => '.',
            Cell::X => 'X',
            Cell::O => 'O',
        }
    }

    pub fn to_char(&self) -> (r: char)
        ensures
            r == self.symbol(),
    {
        match self {
            Cell::Empty => '.',
            Cell::X => 'X',
            Cell::O => 'O',
        }
    }

    pub fn switch(&self) -> (r: Cell)
        ensures
            r == self.opponent(),
    {
        match self {
            Cell::Empty => Cell::Empty,
            Cell::X => Cell::O,
            Cell::O => Cell::X,
        }
    }
}

/// What a move did to the game.
#[derive(Clone, Copy, PartialEq, Eq, Debug, Structural)]
pub enum MoveResult {
    /// The game goes on.
    Ongoing,
    /// The move completed four in a row for the first player.
    WinX,
    /// The move completed four in a row for the second player.
    WinO,
    /// The move filled the board without a win.
    Draw,
    /// The column is out of range or full; nothing changed.
    Illegal,
}

/// The player that a result names as winner, or `Empty`.
pub open spec fn winner_of(m: MoveResult) -> Cell {
    match m {
        MoveResult::WinX => Cell::X,
        MoveResult::WinO => Cell::O,
        _ => Cell::Empty,
    }
}

/// The result that names `p` as winner.
pub open spec fn win_for(p: Cell) -> MoveResult {
    match p {
        Cell::X => MoveResult::WinX,
        Cell::O => MoveResult::WinO,
        Cell::Empty => MoveResult::Ongoing,
    }
}

impl From<MoveResult> for Cell {
    fn from(item: MoveResult) -> (r: Self)
        ensures
            r == winner_of(item),
    {
        match item {
            MoveResult::WinX => Cell::X,
            MoveResult::WinO => Cell::O,
            _ => Cell::Empty,
        }
    }
}

impl vstd::std_specs::convert::FromSpecImpl<MoveResult> for Cell {
    open spec fn obeys_from_spec() -> bool {
        true
    }

    open spec fn from_spec(item: MoveResult) -> Cell {
        winner_of(item)
    }
}

/// A position on the board, column `c` and row `r` counted from the bottom.
pub open spec fn in_bounds(c: int, r: int) -> bool {
    0 <= c < WIDTH && 0 <= r < HEIGHT
}

/// First bit of the lane of column `c`.
spec fn lane_base(c: int) -> u64 {
    (8 * c) as u64
}

/// Bit of position (`c`, `r`).
spec fn position(c: int, r: int) -> u64 {
    (8 * c + r) as u64
}

/// A Connect Four position. Column `c` owns the bits `8c .. 8c + 8` of each
/// word; its two top bits are never set, so that arithmetic on one lane
/// cannot reach the next.
#[derive(Clone, Copy, PartialEq, Eq, Debug, Structural)]
pub struct Board {
    /// Over the occupied positions: set where the piece belongs to the
    /// player who made the last move.
    bitmap: u64,
    /// Set at each occupied position.
    mask: u64,
    /// Number of pieces placed.
    moves: usize,
}

impl Board {
    /// Number of pieces in column `c`.
    pub closed spec fn height(self, c: int) -> int {
        lane_height(lane_at(self.mask, lane_base(c))) as int
    }

    pub closed spec fn move_count(self) -> int {
        self.moves as int
    }

    /// The piece at column `c`, row `r`.
    pub closed spec fn cell(self, c: int, r: int) -> Cell {
        self.cell_at_bit(position(c, r))
    }

    spec fn cell_at_bit(self, q: u64) -> Cell {
        if !bit(self.mask, q) {
            Cell::Empty
        } else if bit(self.bitmap, q) == (self.moves % 2 == 1) {
            Cell::X
        } else {
            Cell::O
        }
    }

    /// The columns are contiguous runs from row 0 of at most `HEIGHT`
    /// pieces, nothing is set outside them, and the move count is the
    /// number of pieces.
    pub closed spec fn wf(self) -> bool {
        &&& self.mask >> 56u64 == 0
        &&& forall|c: int| 0 <= c < WIDTH ==> #[trigger] self.height(c) <= HEIGHT
        &&& self.bitmap & !self.mask == 0
        &&& self.moves == self.height(0) + self.height(1) + self.height(2) + self.height(3)
            + self.height(4) + self.height(5) + self.height(6)
    }

    pub open spec fn player_to_move(self) -> Cell {
        if self.move_count() % 2 == 0 {
            Cell::X
        } else {
            Cell::O
        }
    }

    /// The player who made the last move.
    pub open spec fn last_mover(self) -> Cell {
        self.player_to_move().opponent()
    }

    pub open spec fn is_legal(self, col: int) -> bool {
        0 <= col < WIDTH && self.height(col) < HEIGHT
    }

    pub open spec fn full(self) -> bool {
        self.move_count() == WIDTH * HEIGHT
    }

    proof fn lemma_occupied(self, c: int, r: int)
        requires
            self.wf(),
            0 <= c < WIDTH,
            0 <= r < PADDED_HEIGHT,
        ensures
            bit(self.mask, position(c, r)) == (r < self.height(c)),
    {
        assert(self.height(c) <= 6);
        lemma_lane_bit(self.mask, lane_base(c), r as u64);
        lemma_lane_rows(lane_at(self.mask, lane_base(c)), r as u64);
    }

    /// Gravity: a position holds a piece exactly when it lies below the
    /// height of its column.
    pub proof fn lemma_gravity(self, c: int, r: int)
        requires
            self.wf(),
            in_bounds(c, r),
        ensures
            (self.cell(c, r) != Cell::Empty) == (r < self.height(c)),
            0 <= self.height(c) <= HEIGHT,
    {
        self.lemma_occupied(c, r);
    }

    /// Within the board, the pieces of the last mover are the set bits of
    /// `bitmap`.
    proof fn lemma_mover_bit(self, c: int, r: int)
        requires
            self.wf(),
            in_bounds(c, r),
        ensures
            (self.cell(c, r) == self.last_mover()) == bit(self.bitmap, position(c, r)),
    {
        lemma_subset_bit(self.bitmap, self.mask, position(c, r));
    }

    /// The board after the player to move drops a piece into `col`; the
    /// board itself where the move is illegal.
    #[verifier::opaque]
    pub closed spec fn play(self, col: int) -> Board {
        if !self.is_legal(col) {
            self
        } else {
            let m = self.mask;
            let placed = (((m + (1u64 << lane_base(col))) as u64) | m) ^ m;
            Board { bitmap: self.bitmap ^ (m | placed), mask: m | placed, moves: (self.moves + 1) as usize }
        }
    }

    /// Position (`c`, `r`) is on the board and holds a piece of `p`.
    pub open spec fn owns(self, c: int, r: int, p: Cell) -> bool {
        in_bounds(c, r) && self.cell(c, r) == p
    }

    /// `p` owns the four positions from (`c`, `r`) in steps of (`dc`, `dr`).
    pub open spec fn four_from(self, c: int, r: int, dc: int, dr: int, p: Cell) -> bool {
        &&& self.owns(c, r, p)
        &&& self.owns(c + dc, r + dr, p)
        &&& self.owns(c + 2 * dc, r + 2 * dr, p)
        &&& self.owns(c + 3 * dc, r + 3 * dr, p)
    }

    /// `p` owns four positions in a row in direction (`dc`, `dr`), one of
    /// them (`c`, `r`).
    pub open spec fn four_through(self, c: int, r: int, dc: int, dr: int, p: Cell) -> bool {
        ||| self.four_from(c, r, dc, dr, p)
        ||| self.four_from(c - dc, r - dr, dc, dr, p)
        ||| self.four_from(c - 2 * dc, r - 2 * dr, dc, dr, p)
        ||| self.four_from(c - 3 * dc, r - 3 * dr, dc, dr, p)
    }

    /// `p` owns a vertical, horizontal or diagonal line of four through
    /// (`c`, `r`).
    #[verifier::opaque]
    pub open spec fn wins_at(self, c: int, r: int, p: Cell) -> bool {
        ||| self.four_through(c, r, 0, 1, p)
        ||| self.four_through(c, r, 1, 0, p)
        ||| self.four_through(c, r, 1, 1, p)
        ||| self.four_through(c, r, 1, -1, p)
    }

    /// What dropping a piece into `col` returns.
    pub open spec fn outcome(self, col: int) -> MoveResult {
        if !self.is_legal(col) {
            MoveResult::Illegal
        } else if self.play(col).wins_at(col, self.height(col), self.player_to_move()) {
            win_for(self.player_to_move())
        } else if self.play(col).full() {
            MoveResult::Draw
        } else {
            MoveResult::Ongoing
        }
    }

    /// The board after the moves `cols`, in order.
    pub open spec fn play_seq(self, cols: Seq<usize>) -> Board
        decreases cols.len(),
    {
        if cols.len() == 0 {
            self
        } else {
            self.play_seq(cols.drop_last()).play(cols.last() as int)
        }
    }

    /// What the last of the moves `cols` returns; `Ongoing` for no move.
    pub open spec fn last_outcome(self, cols: Seq<usize>) -> MoveResult {
        if cols.len() == 0 {
            MoveResult::Ongoing
        } else {
            self.play_seq(cols.drop_last()).outcome(cols.last() as int)
        }
    }

    /// A legal move adds one piece of the player to move on top of its
    /// column and changes nothing else.
    pub proof fn lemma_play(self, col: int)
        requires
            self.wf(),
            self.is_legal(col),
        ensures
            self.play(col).wf(),
            self.play(col).move_count() == self.move_count() + 1,
            forall|c: int|
                0 <= c < WIDTH ==> #[trigger] self.play(col).height(c) == self.height(c) + if c
                    == col {
                    1int
                } else {
                    0int
                },
            forall|c: int, r: int|
                in_bounds(c, r) ==> #[trigger] self.play(col).cell(c, r) == if c == col && r
                    == self.height(col) {
                    self.player_to_move()
                } else {
                    self.cell(c, r)
                },
    {
        let n = self.play(col);
        self.lemma_play_bits(col);
        assert forall|c: int| 0 <= c < WIDTH implies #[trigger] n.height(c) == self.height(c)
            + if c == col {
            1int
        } else {
            0int
        } by {
            self.lemma_play_lane(col, c);
        }
        self.lemma_play_lane(col, 0);
        self.lemma_play_lane(col, 1);
        self.lemma_play_lane(col, 2);
        self.lemma_play_lane(col, 3);
        self.lemma_play_lane(col, 4);
        self.lemma_play_lane(col, 5);
        self.lemma_play_lane(col, 6);
        assert forall|c: int, r: int| in_bounds(c, r) implies #[trigger] n.cell(c, r) == if c
            == col && r == self.height(col) {
            self.player_to_move()
        } else {
            self.cell(c, r)
        } by {
            self.lemma_play_cell(col, c, r);
        }
    }

    /// The bit that a legal move sets, and the new occupancy.
    proof fn lemma_play_bits(self, col: int)
        requires
            self.wf(),
            self.is_legal(col),
        ensures
            self.play(col).mask == self.mask | (1u64 << ((lane_base(col) + self.height(col)) as u64)),
            self.play(col).bitmap == self.bitmap ^ self.play(col).mask,
            self.play(col).moves == self.moves + 1,
            self.play(col).mask >> 56u64 == 0,
            self.play(col).bitmap & !self.play(col).mask == 0,
    {
        reveal(Board::play);
        let m = self.mask;
        let p = lane_base(col);
        let h = self.height(col) as u64;
        assert(self.height(col) <= 6);
        lemma_lane_rows(lane_at(m, p), 0);
        lemma_next_free(m, p, h);
        lemma_lane_grow(m, p, h);
        lemma_flip_within(self.bitmap, m, 1u64 << ((p + h) as u64));
    }

    proof fn lemma_play_lane(self, col: int, c: int)
        requires
            self.wf(),
            self.is_legal(col),
            0 <= c < WIDTH,
        ensures
            self.play(col).height(c) == self.height(c) + if c == col {
                1int
            } else {
                0int
            },
            self.play(col).height(c) <= HEIGHT,
    {
        self.lemma_play_bits(col);
        let m = self.mask;
        let p = lane_base(col);
        let h = self.height(col) as u64;
        assert(self.height(c) <= 6);
        assert(self.height(col) <= 6);
        lemma_lane_rows(lane_at(m, p), 0);
        if c != col {
            lemma_lane_other(m, p, h, lane_base(c));
        } else {
            lemma_lane_grow(m, p, h);
        }
    }

    proof fn lemma_play_cell(self, col: int, c: int, r: int)
        requires
            self.wf(),
            self.is_legal(col),
            in_bounds(c, r),
        ensures
            self.play(col).cell(c, r) == if c == col && r == self.height(col) {
                self.player_to_move()
            } else {
                self.cell(c, r)
            },
    {
        self.lemma_play_bits(col);
        self.lemma_occupied(c, r);
        assert(self.height(col) < 6);
        Self::lemma_cell_after(
            self.bitmap,
            self.mask,
            self.moves,
            (lane_base(col) + self.height(col)) as u64,
            position(c, r),
            r < self.height(c),
        );
    }

    /// One position before and after a piece lands at bit `a`.
    proof fn lemma_cell_after(bm: u64, m: u64, moves: usize, a: u64, q: u64, occupied: bool)
        requires
            bm & !m == 0,
            a < 64,
            q < 64,
            moves < 64,
            bit(m, q) == occupied,
            occupied ==> a != q,
            a == q ==> !bit(m, q),
        ensures
            ({
                let n = Board {
                    bitmap: bm ^ (m | (1u64 << a)),
                    mask: m | (1u64 << a),
                    moves: (moves + 1) as usize,
                };
                let o = Board { bitmap: bm, mask: m, moves };
                n.cell_at_bit(q) == if a == q {
                    o.player_to_move()
                } else {
                    o.cell_at_bit(q)
                }
            }),
    {
        lemma_bit_or(m, 1u64 << a, q);
        lemma_bit_single(a, q);
        lemma_bit_xor(bm, m | (1u64 << a), q);
        lemma_subset_bit(bm, m, q);
    }

    /// A line of four on the board belongs to the last mover exactly when
    /// its four bits are set in `bitmap`.
    proof fn lemma_four_bits(self, c: int, r: int, dc: int, dr: int)
        requires
            self.wf(),
            in_bounds(c, r),
            in_bounds(c + dc, r + dr),
            in_bounds(c + 2 * dc, r + 2 * dr),
            in_bounds(c + 3 * dc, r + 3 * dr),
        ensures
            self.four_from(c, r, dc, dr, self.last_mover()) == (bit(self.bitmap, position(c, r))
                && bit(self.bitmap, position(c + dc, r + dr)) && bit(
                self.bitmap,
                position(c + 2 * dc, r + 2 * dr),
            ) && bit(self.bitmap, position(c + 3 * dc, r + 3 * dr))),
    {
        self.lemma_mover_bit(c, r);
        self.lemma_mover_bit(c + dc, r + dr);
        self.lemma_mover_bit(c + 2 * dc, r + 2 * dr);
        self.lemma_mover_bit(c + 3 * dc, r + 3 * dr);
    }

    /// Vertical lines through the top piece of column `col`: only the one
    /// that ends there can be complete.
    fn check_vertical_win(&self, col: usize, row: usize) -> (r: bool)
        requires
            self.wf(),
            col < WIDTH,
            row < HEIGHT,
            row + 1 == self.height(col as int),
        ensures
            r == self.four_through(col as int, row as int, 0, 1, self.last_mover()),
    {
        let ghost c = col as int;
        let ghost t = row as int;
        proof {
            if t + 1 < HEIGHT {
                self.lemma_gravity(c, t + 1);
            }
        }
        if row >= 3 {
            let pos: u64 = (col * PADDED_HEIGHT + row - 3) as u64;
            let m: u64 = VERTICAL_LINE << pos;
            proof {
                lemma_window(self.bitmap, pos, 1, 2, 3);
                self.lemma_four_bits(c, t - 3, 0, 1);
            }
            return self.bitmap & m == m;
        }
        false
    }

    /// Horizontal lines through (`col`, `row`): the windows of four columns
    /// that hold `col`, clamped to the board's edges.
    fn check_horizontal_win(&self, col: usize, row: usize) -> (r: bool)
        requires
            self.wf(),
            col < WIDTH,
            row < HEIGHT,
        ensures
            r == self.four_through(col as int, row as int, 1, 0, self.last_mover()),
    {
        let first: usize = if col >= 3 { col - 3 } else { 0 };
        let last: usize = if col <= WIDTH - 4 { col } else { WIDTH - 4 };
        let mut s: usize = first;
        while s <= last
            invariant
                self.wf(),
                col < WIDTH,
                row < HEIGHT,
                first == (if col >= 3 { col - 3 } else { 0 }),
                last == (if col <= 3 { col } else { 3 }),
                first <= s <= last + 1,
                forall|j: int|
                    first <= j < s ==> !#[trigger] self.four_from(
                        j,
                        row as int,
                        1,
                        0,
                        self.last_mover(),
                    ),
            decreases last + 1 - s,
        {
            let pos: u64 = (s * PADDED_HEIGHT + row) as u64;
            let m: u64 = HORIZONTAL_LINE << pos;
            proof {
                lemma_window(self.bitmap, pos, 8, 16, 24);
                self.lemma_four_bits(s as int, row as int, 1, 0);
            }
            if self.bitmap & m == m {
                return true;
            }
            s = s + 1;
        }
        false
    }

    /// Lines rising to the right through (`col`, `row`): the same clamped
    /// windows, skipping those that would leave the rows of the board.
    fn check_upper_diagonal_win(&self, col: usize, row: usize) -> (r: bool)
        requires
            self.wf(),
            col < WIDTH,
            row < HEIGHT,
        ensures
            r == self.four_through(col as int, row as int, 1, 1, self.last_mover()),
    {
        let first: usize = if col >= 3 { col - 3 } else { 0 };
        let last: usize = if col <= WIDTH - 4 { col } else { WIDTH - 4 };
        let mut s: usize = first;
        while s <= last
            invariant
                self.wf(),
                col < WIDTH,
                row < HEIGHT,
                first == (if col >= 3 { col - 3 } else { 0 }),
                last == (if col <= 3 { col } else { 3 }),
                first <= s <= last + 1,
                forall|j: int|
                    first <= j < s ==> !#[trigger] self.four_from(
                        j,
                        row - (col - j),
                        1,
                        1,
                        self.last_mover(),
                    ),
            decreases last + 1 - s,
        {
            if col - s <= row && row - (col - s) + 3 < HEIGHT {
                let t: usize = row - (col - s);
                let pos: u64 = (s * PADDED_HEIGHT + t) as u64;
                let m: u64 = RISING_LINE << pos;
                proof {
                    lemma_window(self.bitmap, pos, 9, 18, 27);
                    self.lemma_four_bits(s as int, t as int, 1, 1);
                }
                if self.bitmap & m == m {
                    return true;
                }
            }
            s = s + 1;
        }
        proof {
            let lm = self.last_mover();
            assert forall|k: int| 0 <= k < 4 implies !#[trigger] self.four_from(
                col - k,
                row - k,
                1,
                1,
                lm,
            ) by {
                let j = col - k;
                if first <= j && j < s {
                    assert(!self.four_from(j, row - (col - j), 1, 1, lm));
                }
            }
            assert(!self.four_from(col - 0, row - 0, 1, 1, lm));
            assert(!self.four_from(col - 1, row - 1, 1, 1, lm));
            assert(!self.four_from(col - 2, row - 2, 1, 1, lm));
            assert(!self.four_from(col - 3, row - 3, 1, 1, lm));
        }
        false
    }

    /// Lines falling to the right through (`col`, `row`), in the same way.
    fn check_lower_diagonal_win(&self, col: usize, row: usize) -> (r: bool)
        requires
            self.wf(),
            col < WIDTH,
            row < HEIGHT,
        ensures
            r == self.four_through(col as int, row as int, 1, -1, self.last_mover()),
    {
        let first: usize = if col >= 3 { col - 3 } else { 0 };
        let last: usize = if col <= WIDTH - 4 { col } else { WIDTH - 4 };
        let mut s: usize = first;
        while s <= last
            invariant
                self.wf(),
                col < WIDTH,
                row < HEIGHT,
                first == (if col >= 3 { col - 3 } else { 0 }),
                last == (if col <= 3 { col } else { 3 }),
                first <= s <= last + 1,
                forall|j: int|
                    first <= j < s ==> !#[trigger] self.four_from(
                        j,
                        row + (col - j),
                        1,
                        -1,
                        self.last_mover(),
                    ),
            decreases last + 1 - s,
        {
            if row + (col - s) < HEIGHT && row + (col - s) >= 3 {
                let t: usize = row + (col - s);
                let pos: u64 = (s * PADDED_HEIGHT + t) as u64;
                let m: u64 = FALLING_LINE << pos;
                proof {
                    lemma_window(self.bitmap, pos, 7, 14, 21);
                    self.lemma_four_bits(s as int, t as int, 1, -1);
                }
                if self.bitmap & m == m {
                    return true;
                }
            }
            s = s + 1;
        }
        proof {
            let lm = self.last_mover();
            assert forall|k: int| 0 <= k < 4 implies !#[trigger] self.four_from(
                col - k,
                row + k,
                1,
                -1,
                lm,
            ) by {
                let j = col - k;
                if first <= j && j < s {
                    assert(!self.four_from(j, row + (col - j), 1, -1, lm));
                }
            }
            assert(!self.four_from(col - 0, row + 0, 1, -1, lm));
            assert(!self.four_from(col - 1, row + 1, 1, -1, lm));
            assert(!self.four_from(col - 2, row + 2, 1, -1, lm));
            assert(!self.four_from(col - 3, row + 3, 1, -1, lm));
        }
        false
    }

    /// Whether the piece at the top of column `col`, in row `row`, completes
    /// a line of four for the player who placed it.
    fn check_win(&self, col: usize, row: usize) -> (r: bool)
        requires
            self.wf(),
            col < WIDTH,
            row < HEIGHT,
            row + 1 == self.height(col as int),
        ensures
            r == self.wins_at(col as int, row as int, self.last_mover()),
    {
        reveal(Board::wins_at);
        self.check_vertical_win(col, row) || self.check_horizontal_win(col, row)
            || self.check_upper_diagonal_win(col, row) || self.check_lower_diagonal_win(col, row)
    }

    /// Number of pieces in column `col`, read from its lane.
    fn column_height(&self, col: usize) -> (r: usize)
        requires
            self.wf(),
            col < WIDTH,
        ensures
            r == self.height(col as int),
    {
        let lane: u64 = (self.mask >> ((col * PADDED_HEIGHT) as u64)) & 0xffu64;
        assert(self.height(col as int) <= 6);
        if lane == 0 {
            0
        } else if lane == 1 {
            1
        } else if lane == 3 {
            2
        } else if lane == 7 {
            3
        } else if lane == 15 {
            4
        } else if lane == 31 {
            5
        } else {
            6
        }
    }

    /// Sets the lowest free position of column `col` and hands the turn
    /// over; returns the row of the new piece.
    fn place(&mut self, col: usize) -> (row: usize)
        requires
            old(self).wf(),
            old(self).is_legal(col as int),
        ensures
            *final(self) == old(self).play(col as int),
            row == old(self).height(col as int),
            row < HEIGHT,
    {
        let ghost prev = *self;
        let row = self.column_height(col);
        let base: u64 = (col * PADDED_HEIGHT) as u64;
        proof {
            prev.lemma_play_bits(col as int);
            lemma_lane_rows(lane_at(prev.mask, base), 0);
            lemma_next_free(prev.mask, base, row as u64);
        }
        let bit = ((self.mask + (1u64 << base)) | self.mask) ^ self.mask;
        self.mask = self.mask | bit;
        self.bitmap = self.bitmap ^ self.mask;
        self.moves = self.moves + 1;
        row
    }

    /// Drops a piece of the player to move into column `col`. An illegal
    /// move changes nothing and returns `Illegal`; otherwise the result says
    /// whether the new piece completed four in a row for its player, or else
    /// filled the board.
    pub fn make_move(&mut self, col: usize) -> (r: MoveResult)
        requires
            old(self).wf(),
        ensures
            final(self).wf(),
            *final(self) == old(self).play(col as int),
            r == old(self).outcome(col as int),
            !old(self).is_legal(col as int) ==> *final(self) == *old(self),
            old(self).is_legal(col as int) ==> final(self).move_count() == old(self).move_count()
                + 1,
            old(self).is_legal(col as int) ==> forall|c: int, y: int|
                in_bounds(c, y) ==> #[trigger] final(self).cell(c, y) == if c == col && y == old(
                    self,
                ).height(col as int) {
                    old(self).player_to_move()
                } else {
                    old(self).cell(c, y)
                },
    {
        if !self.is_valid_move(col) {
            proof {
                reveal(Board::play);
            }
            return MoveResult::Illegal;
        }
        let ghost prev = *self;
        let row = self.place(col);
        proof {
            prev.lemma_play(col as int);
        }
        proof {
            lemma_next_player(prev, *self);
        }
        let won = self.check_win(col, row);
        assert(won == prev.play(col as int).wins_at(col as int, prev.height(col as int), prev.player_to_move()));
        if won {
            match self.get_current_player() {
                Cell::O => MoveResult::WinX,
                _ => MoveResult::WinO,
            }
        } else if self.is_full() {
            MoveResult::Draw
        } else {
            MoveResult::Ongoing
        }
    }

    /// Makes the moves `moves` in order and returns what the last one
    /// returned.
    pub fn make_moves(&mut self, moves: &Vec<usize>) -> (r: MoveResult)
        requires
            old(self).wf(),
        ensures
            final(self).wf(),
            *final(self) == old(self).play_seq(moves@),
            r == old(self).last_outcome(moves@),
    {
        let ghost start = *self;
        let mut last_result = MoveResult::Ongoing;
        let mut i: usize = 0;
        while i < moves.len()
            invariant
                self.wf(),
                i <= moves.len(),
                *self == start.play_seq(moves@.take(i as int)),
                last_result == start.last_outcome(moves@.take(i as int)),
            decreases moves.len() - i,
        {
            assert(moves@.take(i + 1).drop_last() =~= moves@.take(i as int));
            last_result = self.make_move(moves[i]);
            i = i + 1;
        }
        assert(moves@.take(moves.len() as int) =~= moves@);
        last_result
    }

    pub fn new() -> (r: Self)
        ensures
            r.wf(),
            r.move_count() == 0,
            forall|c: int| 0 <= c < WIDTH ==> #[trigger] r.height(c) == 0,
            forall|c: int, r0: int| in_bounds(c, r0) ==> #[trigger] r.cell(c, r0) == Cell::Empty,
            forall|c: int| #[trigger] r.is_legal(c) == (0 <= c < WIDTH),
    {
        let b = Self { bitmap: 0, mask: 0, moves: 0 };
        proof {
            assert forall|c: int| #[trigger] b.height(c) == 0 by {
                lemma_empty(lane_base(c), 0);
            }
            assert forall|c: int, r0: int| in_bounds(c, r0) implies #[trigger] b.cell(c, r0)
                == Cell::Empty by {
                lemma_empty(0, position(c, r0));
            }
            lemma_empty(0, 0);
        }
        b
    }

    pub fn get_move_count(&self) -> (r: usize)
        ensures
            r == self.move_count(),
    {
        self.moves
    }

    /// The piece at column `col`, row `y`.
    pub fn get(&self, col: usize, y: usize) -> (r: Cell)
        requires
            col < WIDTH,
            y < HEIGHT,
        ensures
            r == self.cell(col as int, y as int),
    {
        let pos: u64 = (col * PADDED_HEIGHT + y) as u64;
        proof {
            lemma_test_single(self.mask, pos);
            lemma_test_single(self.bitmap, pos);
        }
        if self.mask & (1u64 << pos) == 0 {
            Cell::Empty
        } else if self.bitmap & (1u64 << pos) == 0 {
            if self.moves % 2 == 0 {
                Cell::X
            } else {
                Cell::O
            }
        } else {
            if self.moves % 2 != 0 {
                Cell::X
            } else {
                Cell::O
            }
        }
    }

    pub fn is_valid_move(&self, col: usize) -> (r: bool)
        requires
            self.wf(),
        ensures
            r == self.is_legal(col as int),
    {
        if col >= WIDTH {
            return false;
        }
        let pos: u64 = (col * PADDED_HEIGHT + HEIGHT - 1) as u64;
        proof {
            lemma_test_single(self.mask, pos);
            self.lemma_occupied(col as int, HEIGHT - 1);
        }
        self.mask & (1u64 << pos) == 0
    }

    pub fn get_current_player(&self) -> (r: Cell)
        ensures
            r == self.player_to_move(),
    {
        if self.moves % 2 == 0 {
            Cell::X
        } else {
            Cell::O
        }
    }

    pub fn is_full(&self) -> (r: bool)
        ensures
            r == self.full(),
    {
        self.moves == HEIGHT * WIDTH
    }
}

/// `k` moves, all into column `c`.
pub open spec fn same_column(c: int, k: nat) -> Seq<usize> {
    Seq::new(k, |i: int| c as usize)
}

/// After `j` moves into one column of an empty board, that column holds
/// `j` pieces of alternating players from the first, and nothing else is
/// on the board.
proof fn lemma_column_stack(b: Board, c: int, j: nat)
    requires
        b.wf(),
        b.move_count() == 0,
        0 <= c < WIDTH,
        j <= HEIGHT,
    ensures
        b.play_seq(same_column(c, j)).wf(),
        b.play_seq(same_column(c, j)).move_count() == j,
        b.play_seq(same_column(c, j)).height(c) == j,
        forall|c2: int, r: int|
            in_bounds(c2, r) ==> #[trigger] b.play_seq(same_column(c, j)).cell(c2, r) == if c2
                == c && r < j {
                if r % 2 == 0 {
                    Cell::X
                } else {
                    Cell::O
                }
            } else {
                Cell::Empty
            },
    decreases j,
{
    let n = b.play_seq(same_column(c, j));
    if j == 0 {
        assert(same_column(c, j) =~= Seq::<usize>::empty());
        lemma_fresh_board_legal(b);
        assert forall|c2: int, r: int| in_bounds(c2, r) implies #[trigger] n.cell(c2, r)
            == Cell::Empty by {
            b.lemma_gravity(c2, r);
            assert(b.is_legal(c2));
            b.lemma_gravity(0, 0);
            b.lemma_gravity(1, 0);
            b.lemma_gravity(2, 0);
            b.lemma_gravity(3, 0);
            b.lemma_gravity(4, 0);
            b.lemma_gravity(5, 0);
            b.lemma_gravity(6, 0);
        }
        b.lemma_gravity(c, 0);
        b.lemma_gravity(0, 0);
        b.lemma_gravity(1, 0);
        b.lemma_gravity(2, 0);
        b.lemma_gravity(3, 0);
        b.lemma_gravity(4, 0);
        b.lemma_gravity(5, 0);
        b.lemma_gravity(6, 0);
    } else {
        lemma_column_stack(b, c, (j - 1) as nat);
        assert(same_column(c, j).drop_last() =~= same_column(c, (j - 1) as nat));
        let p = b.play_seq(same_column(c, (j - 1) as nat));
        assert(n == p.play(c));
        p.lemma_play(c);
    }
}

/// On an empty board, each of the first `HEIGHT` moves into one column
/// goes on with the game, and the next one is illegal.
pub proof fn lemma_filling_one_column(b: Board, c: int, k: nat)
    requires
        b.wf(),
        b.move_count() == 0,
        0 <= c < WIDTH,
        1 <= k <= HEIGHT + 1,
    ensures
        b.last_outcome(same_column(c, k)) == if k <= HEIGHT {
            MoveResult::Ongoing
        } else {
            MoveResult::Illegal
        },
{
    let j = (k - 1) as nat;
    assert(same_column(c, k).drop_last() =~= same_column(c, j));
    lemma_column_stack(b, c, j);
    let p = b.play_seq(same_column(c, j));
    if k <= HEIGHT {
        p.lemma_play(c);
        let n = p.play(c);
        assert forall|c2: int, r: int| in_bounds(c2, r) implies #[trigger] n.cell(c2, r) == if c2
            == c && r <= j {
            if r % 2 == 0 {
                Cell::X
            } else {
                Cell::O
            }
        } else {
            Cell::Empty
        } by {}
        lemma_lone_column_no_line(n, c, j as int, p.player_to_move());
    }
}

/// A board whose only pieces alternate up one column has no line of four
/// through the top one.
proof fn lemma_lone_column_no_line(n: Board, c: int, j: int, who: Cell)
    requires
        0 <= c < WIDTH,
        0 <= j < HEIGHT,
        who != Cell::Empty,
        forall|c2: int, r: int|
            in_bounds(c2, r) ==> #[trigger] n.cell(c2, r) == if c2 == c && r <= j {
                if r % 2 == 0 {
                    Cell::X
                } else {
                    Cell::O
                }
            } else {
                Cell::Empty
            },
    ensures
        !n.wins_at(c, j, who),
{
    reveal(Board::wins_at);
    assert(!n.four_through(c, j, 0, 1, who)) by {
        assert(!n.four_from(c, j, 0, 1, who));
        assert(!n.four_from(c, j - 1, 0, 1, who));
        assert(!n.four_from(c, j - 2, 0, 1, who));
        assert(!n.four_from(c, j - 3, 0, 1, who));
    }
    assert(!n.four_through(c, j, 1, 0, who));
    assert(!n.four_through(c, j, 1, 1, who));
    assert(!n.four_through(c, j, 1, -1, who));
}

/// On a board with no piece every column in range is legal, and no other.
pub proof fn lemma_fresh_board_legal(b: Board)
    requires
        b.wf(),
        b.move_count() == 0,
    ensures
        forall|c: int| #[trigger] b.is_legal(c) == (0 <= c < WIDTH),
{
    assert forall|c: int| #[trigger] b.is_legal(c) == (0 <= c < WIDTH) by {
        if 0 <= c < WIDTH {
            b.lemma_gravity(c, 0);
            b.lemma_gravity(0, 0);
            b.lemma_gravity(1, 0);
            b.lemma_gravity(2, 0);
            b.lemma_gravity(3, 0);
            b.lemma_gravity(4, 0);
            b.lemma_gravity(5, 0);
            b.lemma_gravity(6, 0);
        }
    }
}

/// A move returns a win exactly when the new piece completes a line of four
/// for the player who placed it, and the win is that player's.
pub proof fn lemma_win_iff_line_of_four(b: Board, col: int)
    requires
        b.wf(),
    ensures
        (b.outcome(col) == MoveResult::WinX || b.outcome(col) == MoveResult::WinO) == (
        b.is_legal(col) && b.play(col).wins_at(col, b.height(col), b.player_to_move())),
        b.outcome(col) == MoveResult::WinX || b.outcome(col) == MoveResult::WinO ==> winner_of(
            b.outcome(col),
        ) == b.player_to_move(),
{
}

/// Three pieces of the player to move on top of a column: playing there
/// wins for that player.
pub proof fn lemma_vertical_run_wins(b: Board, col: int)
    requires
        b.wf(),
        b.is_legal(col),
        b.height(col) >= 3,
        b.cell(col, b.height(col) - 1) == b.player_to_move(),
        b.cell(col, b.height(col) - 2) == b.player_to_move(),
        b.cell(col, b.height(col) - 3) == b.player_to_move(),
    ensures
        b.outcome(col) == win_for(b.player_to_move()),
{
    reveal(Board::wins_at);
    let h = b.height(col);
    b.lemma_play(col);
    let n = b.play(col);
    assert(n.four_from(col - 3 * 0, h - 3 * 1, 0, 1, b.player_to_move()));
}

/// A piece that completes four in a row along its row, whatever the
/// window's place between the two edges, wins for the player who placed it.
pub proof fn lemma_horizontal_line_wins(b: Board, col: int, s: int)
    requires
        b.wf(),
        b.is_legal(col),
        0 <= s <= WIDTH - 4,
        s <= col <= s + 3,
        forall|i: int|
            0 <= i < 4 && s + i != col ==> #[trigger] b.cell(s + i, b.height(col))
                == b.player_to_move(),
    ensures
        b.outcome(col) == win_for(b.player_to_move()),
{
    reveal(Board::wins_at);
    let h = b.height(col);
    let p = b.player_to_move();
    b.lemma_play(col);
    let n = b.play(col);
    assert(b.cell(s + 0, h) == p || s + 0 == col);
    assert(b.cell(s + 1, h) == p || s + 1 == col);
    assert(b.cell(s + 2, h) == p || s + 2 == col);
    assert(b.cell(s + 3, h) == p || s + 3 == col);
    assert(n.four_from(s, h, 1, 0, p));
    if col - s == 1 {
        assert(n.four_from(col - 1, h - 0, 1, 0, p));
    } else if col - s == 2 {
        assert(n.four_from(col - 2, h - 0, 1, 0, p));
    } else if col - s == 3 {
        assert(n.four_from(col - 3, h - 0, 1, 0, p));
    }
}

/// A piece that completes four in a row on a diagonal rising to the right
/// wins for the player who placed it.
pub proof fn lemma_rising_diagonal_wins(b: Board, col: int, s: int)
    requires
        b.wf(),
        b.is_legal(col),
        0 <= s <= WIDTH - 4,
        s <= col <= s + 3,
        0 <= b.height(col) - (col - s),
        b.height(col) - (col - s) + 3 < HEIGHT,
        forall|i: int|
            0 <= i < 4 && s + i != col ==> #[trigger] b.cell(
                s + i,
                b.height(col) - (col - s) + i,
            ) == b.player_to_move(),
    ensures
        b.outcome(col) == win_for(b.player_to_move()),
{
    reveal(Board::wins_at);
    let h = b.height(col);
    let t = h - (col - s);
    let p = b.player_to_move();
    b.lemma_play(col);
    let n = b.play(col);
    assert(b.cell(s + 0, t + 0) == p || s + 0 == col);
    assert(b.cell(s + 1, t + 1) == p || s + 1 == col);
    assert(b.cell(s + 2, t + 2) == p || s + 2 == col);
    assert(b.cell(s + 3, t + 3) == p || s + 3 == col);
    assert(n.four_from(s, t, 1, 1, p));
    if col - s == 1 {
        assert(n.four_from(col - 1, h - 1, 1, 1, p));
    } else if col - s == 2 {
        assert(n.four_from(col - 2, h - 2, 1, 1, p));
    } else if col - s == 3 {
        assert(n.four_from(col - 3, h - 3, 1, 1, p));
    }
}

/// A piece that completes four in a row on a diagonal falling to the right
/// wins for the player who placed it.
pub proof fn lemma_falling_diagonal_wins(b: Board, col: int, s: int)
    requires
        b.wf(),
        b.is_legal(col),
        0 <= s <= WIDTH - 4,
        s <= col <= s + 3,
        b.height(col) + (col - s) < HEIGHT,
        0 <= b.height(col) + (col - s) - 3,
        forall|i: int|
            0 <= i < 4 && s + i != col ==> #[trigger] b.cell(
                s + i,
                b.height(col) + (col - s) - i,
            ) == b.player_to_move(),
    ensures
        b.outcome(col) == win_for(b.player_to_move()),
{
    reveal(Board::wins_at);
    let h = b.height(col);
    let t = h + (col - s);
    let p = b.player_to_move();
    b.lemma_play(col);
    let n = b.play(col);
    assert(b.cell(s + 0, t - 0) == p || s + 0 == col);
    assert(b.cell(s + 1, t - 1) == p || s + 1 == col);
    assert(b.cell(s + 2, t - 2) == p || s + 2 == col);
    assert(b.cell(s + 3, t - 3) == p || s + 3 == col);
    assert(n.four_from(s, t, 1, -1, p));
    if col - s == 1 {
        assert(n.four_from(col - 1, h + 1, 1, -1, p));
    } else if col - s == 2 {
        assert(n.four_from(col - 2, h + 2, 1, -1, p));
    } else if col - s == 3 {
        assert(n.four_from(col - 3, h + 3, 1, -1, p));
    }
}

/// The move that fills the board without completing a line of four is a
/// draw, and the board is then full.
pub proof fn lemma_last_move_draws(b: Board, col: int)
    requires
        b.wf(),
        b.is_legal(col),
        b.move_count() == WIDTH * HEIGHT - 1,
        !b.play(col).wins_at(col, b.height(col), b.player_to_move()),
    ensures
        b.outcome(col) == MoveResult::Draw,
        b.play(col).full(),
{
    b.lemma_play(col);
}

/// The player to move is fixed by the parity of the move count, and each
/// legal move hands the turn to the other player.
pub proof fn lemma_turns_alternate(b: Board, col: int)
    requires
        b.wf(),
        b.is_legal(col),
    ensures
        b.player_to_move() == if b.move_count() % 2 == 0 {
            Cell::X
        } else {
            Cell::O
        },
        b.play(col).player_to_move() == b.player_to_move().opponent(),
        b.player_to_move() != Cell::Empty,
{
    b.lemma_play(col);
    lemma_next_player(b, b.play(col));
}

/// With no legal column left, the board is full.
pub proof fn lemma_no_legal_move_full(b: Board)
    requires
        b.wf(),
        forall|c: int| 0 <= c < WIDTH ==> !#[trigger] b.is_legal(c),
    ensures
        b.full(),
{
    assert(!b.is_legal(0) && !b.is_legal(1) && !b.is_legal(2) && !b.is_legal(3));
    assert(!b.is_legal(4) && !b.is_legal(5) && !b.is_legal(6));
}

/// At most `WIDTH * HEIGHT` pieces fit on the board.
pub proof fn lemma_move_count_bound(b: Board)
    requires
        b.wf(),
    ensures
        0 <= b.move_count() <= WIDTH * HEIGHT,
{
    assert(b.height(0) <= 6 && b.height(1) <= 6 && b.height(2) <= 6 && b.height(3) <= 6);
    assert(b.height(4) <= 6 && b.height(5) <= 6 && b.height(6) <= 6);
}

/// One more move hands the turn to the other player.
proof fn lemma_next_player(b: Board, n: Board)
    requires
        n.move_count() == b.move_count() + 1,
    ensures
        n.player_to_move() == b.player_to_move().opponent(),
        n.last_mover() == b.player_to_move(),
{
}

} // verus!
