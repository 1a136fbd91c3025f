//! Falling-block game: pieces, rotation, collision, line clearing, scoring.

use std::time::{Duration, Instant};
use vstd::prelude::*;

verus! {

#[verifier::external_type_specification]
#[verifier::external_body]
pub struct ExInstant(Instant);

/// The current time (`Instant::now`).
#[verifier::external_body]
fn instant_now() -> Instant {
    Instant::now()
}

/// The time passed since `t` (`Instant::elapsed`).
#[verifier::external_body]
fn instant_elapsed(t: &Instant) -> Duration {
    t.elapsed()
}

/// Whole milliseconds of a duration (`Duration::as_millis`).
#[verifier::external_body]
fn duration_millis(d: &Duration) -> u128 {
    d.as_millis()
}

/// Board width in cells.
pub const BOARD_WIDTH: usize = 10;
/// Board height in cells.
pub const BOARD_HEIGHT: usize = 20;

/// The seven tetromino shapes.
#[derive(Debug, Clone, Copy, PartialEq, Eq, Structural)]
pub enum Piece {
    I,
    O,
    T,
    S,
    Z,
    J,
    L,
}

/// Whether cell (`r`, `c`) of the unrotated 4x4 grid of `p` is filled.
pub open spec fn base_cell(p: Piece, r: int, c: int) -> bool {
    0 <= r < 4 && 0 <= c < 4 && match p {
        Piece::I => r == 1,
        Piece::O => (r == 0 || r == 1) && (c == 1 || c == 2),
        Piece::T => (r == 0 && c == 1) || (r == 1 && c <= 2),
        Piece::S => (r == 0 && (c == 1 || c == 2)) || (r == 1 && (c == 0 || c == 1)),
        Piece::Z => (r == 0 && (c == 0 || c == 1)) || (r == 1 && (c == 1 || c == 2)),
        Piece::J => (r == 0 && c == 0) || (r == 1 && c <= 2),
        Piece::L => (r == 0 && c == 2) || (r == 1 && c <= 2),
    }
}

/// Whether cell (`r`, `c`) of `p` turned clockwise `k` times is filled: a
/// clockwise turn moves cell (r, c) to (c, 3 - r).
pub open spec fn rot_cell(p: Piece, k: nat, r: int, c: int) -> bool
    decreases k,
{
    if k == 0 {
        base_cell(p, r, c)
    } else {
        rot_cell(p, (k - 1) as nat, 3 - c, r)
    }
}

/// Whether cell (`r`, `c`) of `p` at rotation `rotation` is filled.
pub open spec fn shape_cell(p: Piece, rotation: u8, r: int, c: int) -> bool {
    rot_cell(p, (rotation % 4) as nat, r, c)
}

/// The colour index of each piece, 1 to 7.
pub open spec fn color_of(p: Piece) -> u8 {
    match p {
        Piece::I => 1,
        Piece::O => 2,
        Piece::T => 3,
        Piece::S => 4,
        Piece::Z => 5,
        Piece::J => 6,
        Piece::L => 7,
    }
}

/// A 4x4 grid holds `f`.
pub open spec fn grid_is(g: [[bool; 4]; 4], f: spec_fn(int, int) -> bool) -> bool {
    forall|r: int, c: int| 0 <= r < 4 && 0 <= c < 4 ==> g@[r]@[c] == f(r, c)
}

/// A clockwise quarter turn of a 4x4 grid.
fn rotate_cw(grid: [[bool; 4]; 4]) -> (res: [[bool; 4]; 4])
    ensures
        forall|r: int, c: int| 0 <= r < 4 && 0 <= c < 4 ==> res@[r]@[c] == grid@[3 - c]@[r],
{
    let mut result = [[false; 4]; 4];
    let mut r: usize = 0;
    while r < 4
        invariant
            r <= 4,
            forall|a: int, b: int| 0 <= a < r && 0 <= b < 4 ==> result@[b]@[3 - a] == grid@[a]@[b],
        decreases 4 - r,
    {
        let mut c: usize = 0;
        while c < 4
            invariant
                r < 4,
                c <= 4,
                forall|a: int, b: int| (0 <= a < r && 0 <= b < 4) || (a == r && 0 <= b < c) ==> result@[b]@[3 - a] == grid@[a]@[b],
            decreases 4 - c,
        {
            result[c][3 - r] = grid[r][c];
            c += 1;
        }
        r += 1;
    }
    result
}

/// Draws a number below `n` at random (`Rng::random_range(0..n)` on the
/// thread-local generator). Only the range is known of the result.
#[verifier::external_body]
fn random_below(n: u32) -> (r: u32)
    requires
        n > 0,
    ensures
        r < n,
{
    rand::Rng::random_range(&mut rand::rng(), 0..n)
}

impl Piece {
    /// The 4x4 grid of the piece turned clockwise `rotation` times (modulo 4).
    pub fn shape(&self, rotation: u8) -> (g: [[bool; 4]; 4])
        ensures
            forall|r: int, c: int| 0 <= r < 4 && 0 <= c < 4 ==> g@[r]@[c] == shape_cell(*self, rotation, r, c),
    {
        let base = match self {
            Piece::I => [
                [false, false, false, false],
                [true, true, true, true],
                [false, false, false, false],
                [false, false, false, false],
            ],
            Piece::O => [
                [false, true, true, false],
                [false, true, true, false],
                [false, false, false, false],
                [false, false, false, false],
            ],
            Piece::T => [
                [false, true, false, false],
                [true, true, true, false],
                [false, false, false, false],
                [false, false, false, false],
            ],
            Piece::S => [
                [false, true, true, false],
                [true, true, false, false],
                [false, false, false, false],
                [false, false, false, false],
            ],
            Piece::Z => [
                [true, true, false, false],
                [false, true, true, false],
                [false, false, false, false],
                [false, false, false, false],
            ],
            Piece::J => [
                [true, false, false, false],
                [true, true, true, false],
                [false, false, false, false],
                [false, false, false, false],
            ],
            Piece::L => [
                [false, false, true, false],
                [true, true, true, false],
                [false, false, false, false],
                [false, false, false, false],
            ],
        };
        assert(forall|r: int, c: int| 0 <= r < 4 && 0 <= c < 4 ==> base@[r]@[c] == base_cell(*self, r, c)) by {
            assert forall|r: int, c: int| 0 <= r < 4 && 0 <= c < 4 implies base@[r]@[c] == base_cell(*self, r, c) by {
                assert(0 <= r < 4 && 0 <= c < 4);
            }
        }
        let turns = rotation % 4;
        let mut result = base;
        let mut k: u8 = 0;
        while k < turns
            invariant
                k <= turns,
                turns == rotation % 4,
                forall|r: int, c: int| 0 <= r < 4 && 0 <= c < 4 ==> result@[r]@[c] == rot_cell(*self, k as nat, r, c),
            decreases turns - k,
        {
            let ghost prev = result;
            result = rotate_cw(result);
            assert forall|r: int, c: int| 0 <= r < 4 && 0 <= c < 4 implies result@[r]@[c] == rot_cell(*self, (k + 1) as nat, r, c) by {
                assert(result@[r]@[c] == prev@[3 - c]@[r]);
                assert(prev@[3 - c]@[r] == rot_cell(*self, k as nat, 3 - c, r));
            }
            k += 1;
        }
        result
    }

    /// Colour index for each piece type (1-7).
    pub fn color_index(&self) -> (r: u8)
        ensures
            r == color_of(*self),
    {
        match self {
            Piece::I => 1,
            Piece::O => 2,
            Piece::T => 3,
            Piece::S => 4,
            Piece::Z => 5,
            Piece::J => 6,
            Piece::L => 7,
        }
    }

    /// The piece numbered `k` (0 to 6): I, O, T, S, Z, J, L in that order.
    fn numbered(k: u32) -> (p: Piece)
        requires
            k < 7,
        ensures
            p == piece_numbered(k as int),
    {
        match k {
            0 => Piece::I,
            1 => Piece::O,
            2 => Piece::T,
            3 => Piece::S,
            4 => Piece::Z,
            5 => Piece::J,
            _ => Piece::L,
        }
    }

    /// A piece drawn at random: the piece numbered by a random number
    /// below 7. Which number comes up is chance, so any of the seven
    /// pieces can be the result.
    fn random() -> (p: Piece)
        ensures
            exists|k: int| 0 <= k < 7 && p == #[trigger] piece_numbered(k),
    {
        let k = random_below(7);
        let p = Piece::numbered(k);
        assert(0 <= k < 7 && p == piece_numbered(k as int));
        p
    }
}

/// The piece numbered `k` (0 to 6): I, O, T, S, Z, J, L in that order.
pub open spec fn piece_numbered(k: int) -> Piece {
    if k == 0 {
        Piece::I
    } else if k == 1 {
        Piece::O
    } else if k == 2 {
        Piece::T
    } else if k == 3 {
        Piece::S
    } else if k == 4 {
        Piece::Z
    } else if k == 5 {
        Piece::J
    } else {
        Piece::L
    }
}

/// Active falling piece: its kind, rotation, and the board column and row
/// of its 4x4 grid's top-left corner (row 0 at the top).
#[derive(Debug, Clone, Copy)]
pub struct FallingPiece {
    pub piece: Piece,
    pub rotation: u8,
    pub x: i32,
    pub y: i32,
}

/// A new piece at the top, centred, unrotated.
pub open spec fn spawn_of(p: Piece) -> FallingPiece {
    FallingPiece { piece: p, rotation: 0, x: 3, y: 0 }
}

/// The board cells a piece covers, row by row, from grid cell `k` on
/// (cell k is row k / 4, column k % 4).
pub open spec fn cells_from(f: FallingPiece, k: int) -> Seq<(i32, i32)>
    decreases 16 - k,
{
    if k < 0 || k >= 16 {
        Seq::empty()
    } else {
        let r = k / 4;
        let c = k % 4;
        let rest = cells_from(f, k + 1);
        if shape_cell(f.piece, f.rotation, r, c) {
            seq![((f.y + r) as i32, (f.x + c) as i32)] + rest
        } else {
            rest
        }
    }
}

impl FallingPiece {
    pub fn new(piece: Piece) -> (r: FallingPiece)
        ensures
            r == spawn_of(piece),
    {
        FallingPiece { piece, rotation: 0, x: (BOARD_WIDTH as i32 - 4) / 2, y: 0 }
    }

    pub fn shape(&self) -> (g: [[bool; 4]; 4])
        ensures
            forall|r: int, c: int| 0 <= r < 4 && 0 <= c < 4 ==> g@[r]@[c] == shape_cell(self.piece, self.rotation, r, c),
    {
        self.piece.shape(self.rotation)
    }

    /// All occupied cell positions (row, column) on the board.
    pub fn cells(&self) -> (v: Vec<(i32, i32)>)
        requires
            self.x <= i32::MAX - 3,
            self.y <= i32::MAX - 3,
        ensures
            v@ == cells_from(*self, 0),
    {
        let shape = self.shape();
        let mut cells: Vec<(i32, i32)> = Vec::new();
        let mut k: usize = 0;
        while k < 16
            invariant
                k <= 16,
                self.x <= i32::MAX - 3,
                self.y <= i32::MAX - 3,
                forall|r: int, c: int| 0 <= r < 4 && 0 <= c < 4 ==> shape@[r]@[c] == shape_cell(self.piece, self.rotation, r, c),
                cells@ + cells_from(*self, k as int) == cells_from(*self, 0),
            decreases 16 - k,
        {
            let r = k / 4;
            let c = k % 4;
            let ghost before = cells@;
            if shape[r][c] {
                cells.push((self.y + r as i32, self.x + c as i32));
                assert(cells@ + cells_from(*self, k + 1) =~= before + cells_from(*self, k as int));
            }
            k += 1;
        }
        assert(cells@ + cells_from(*self, 16) =~= cells@);
        cells
    }
}

/// The board as rows of cells.
pub open spec fn board_of(b: [[u8; 10]; 20]) -> Seq<Seq<u8>> {
    b@.map_values(|row: [u8; 10]| row@)
}

/// A piece cell at board row `br`, column `bc` is allowed: inside the side
/// walls and above the floor, and on an empty cell when it is on the board
/// (a cell above the top is allowed).
pub open spec fn cell_ok(board: Seq<Seq<u8>>, br: int, bc: int) -> bool {
    0 <= bc < 10 && br < 20 && (br >= 0 ==> board[br][bc] == 0)
}

/// The piece `p` at `rotation` with its grid at (`x`, `y`) fits the board.
pub open spec fn fits_at(board: Seq<Seq<u8>>, p: Piece, rotation: u8, x: int, y: int) -> bool {
    forall|r: int, c: int| 0 <= r < 4 && 0 <= c < 4 && shape_cell(p, rotation, r, c) ==> cell_ok(board, y + r, x + c)
}

/// The falling piece fits the board where it is.
pub open spec fn piece_fits(board: Seq<Seq<u8>>, f: FallingPiece) -> bool {
    fits_at(board, f.piece, f.rotation, f.x as int, f.y as int)
}

/// The board with the piece's cells that lie on it set to its colour.
pub open spec fn locked(board: Seq<Seq<u8>>, f: FallingPiece) -> Seq<Seq<u8>> {
    Seq::new(20, |r: int| Seq::new(10, |c: int| {
        let pr = r - f.y;
        let pc = c - f.x;
        if 0 <= pr < 4 && 0 <= pc < 4 && shape_cell(f.piece, f.rotation, pr, pc) {
            color_of(f.piece)
        } else {
            board[r][c]
        }
    }))
}

/// Every cell of the row is occupied.
pub open spec fn row_full(row: Seq<u8>) -> bool {
    forall|c: int| 0 <= c < 10 ==> row[c] != 0
}

/// The rows that are not full, top to bottom.
pub open spec fn open_rows(b: Seq<Seq<u8>>) -> Seq<Seq<u8>>
    decreases b.len(),
{
    if b.len() == 0 {
        Seq::empty()
    } else {
        let r = open_rows(b.drop_first());
        if row_full(b[0]) {
            r
        } else {
            seq![b[0]] + r
        }
    }
}

/// An empty row.
pub open spec fn empty_row() -> Seq<u8> {
    Seq::new(10, |_c: int| 0u8)
}

/// `n` empty rows.
pub open spec fn empty_rows(n: nat) -> Seq<Seq<u8>> {
    Seq::new(n, |_i: int| empty_row())
}

/// The board once full rows are removed: what is left drops to the bottom,
/// empty rows come in at the top.
pub open spec fn cleared(b: Seq<Seq<u8>>) -> Seq<Seq<u8>> {
    empty_rows((b.len() - open_rows(b).len()) as nat) + open_rows(b)
}

/// The number of full rows.
pub open spec fn full_count(b: Seq<Seq<u8>>) -> nat {
    (b.len() - open_rows(b).len()) as nat
}

/// Points for clearing `lines` rows at once: 100, 300, 500, 800 times the level.
pub open spec fn points(lines: nat, level: u32) -> int {
    if lines == 1 {
        100 * level
    } else if lines == 2 {
        300 * level
    } else if lines == 3 {
        500 * level
    } else if lines == 4 {
        800 * level
    } else {
        0
    }
}

/// The scoring table: clearing one, two, three or four rows at once earns
/// 100, 300, 500 or 800 points times the level, nothing otherwise; so at
/// any level from 1 on, more rows at once earn strictly more, and four
/// rows earn more than two pairs or four single rows.
pub proof fn lemma_points_table(level: u32)
    ensures
        points(0, level) == 0,
        points(1, level) == 100 * level,
        points(2, level) == 300 * level,
        points(3, level) == 500 * level,
        points(4, level) == 800 * level,
        level >= 1 ==> forall|a: nat, b: nat| 1 <= a < b <= 4 ==> #[trigger] points(a, level) < #[trigger] points(b, level),
        level >= 1 ==> points(4, level) > 2 * points(2, level) && points(4, level) > 4 * points(1, level),
{
}

/// The level once `n` more lines are cleared with `lines` cleared before:
/// one more than a tenth of the new count when that is higher.
pub open spec fn level_after(level: u32, lines: u32, n: nat) -> int {
    if n > 0 && (lines + n) / 10 + 1 > level {
        (lines + n) / 10 + 1
    } else {
        level as int
    }
}

/// Drop interval in milliseconds at a level: 800 ms shortened by 15% per
/// level above the first, as `800.0 * 0.85f64.powi(level - 1)` truncated,
/// and never below 50 ms.
pub open spec fn interval_for(level: u32) -> u64 {
    let e = level - 1;
    if e <= 0 {
        800
    } else if e == 1 {
        680
    } else if e == 2 {
        577
    } else if e == 3 {
        491
    } else if e == 4 {
        417
    } else if e == 5 {
        354
    } else if e == 6 {
        301
    } else if e == 7 {
        256
    } else if e == 8 {
        217
    } else if e == 9 {
        185
    } else if e == 10 {
        157
    } else if e == 11 {
        133
    } else if e == 12 {
        113
    } else if e == 13 {
        96
    } else if e == 14 {
        82
    } else if e == 15 {
        69
    } else if e == 16 {
        59
    } else {
        50
    }
}

/// Drop interval in milliseconds for a level.
pub fn drop_interval_for_level(level: u32) -> (ms: u64)
    ensures
        ms == interval_for(level),
{
    let e: u32 = if level == 0 { 0 } else { level - 1 };
    if e == 0 {
        800
    } else if e == 1 {
        680
    } else if e == 2 {
        577
    } else if e == 3 {
        491
    } else if e == 4 {
        417
    } else if e == 5 {
        354
    } else if e == 6 {
        301
    } else if e == 7 {
        256
    } else if e == 8 {
        217
    } else if e == 9 {
        185
    } else if e == 10 {
        157
    } else if e == 11 {
        133
    } else if e == 12 {
        113
    } else if e == 13 {
        96
    } else if e == 14 {
        82
    } else if e == 15 {
        69
    } else if e == 16 {
        59
    } else {
        50
    }
}


/// Row of the grid cell that every shape at `rotation` fills.
pub open spec fn anchor_row(rotation: u8) -> int {
    if rotation % 4 == 0 || rotation % 4 == 1 {
        1
    } else {
        2
    }
}

/// Column of the grid cell that every shape at `rotation` fills.
pub open spec fn anchor_col(rotation: u8) -> int {
    if rotation % 4 == 0 || rotation % 4 == 3 {
        1
    } else {
        2
    }
}

/// Every shape fills one of the four middle cells of its grid.
pub proof fn lemma_anchor(p: Piece, rotation: u8)
    ensures
        shape_cell(p, rotation, anchor_row(rotation), anchor_col(rotation)),
{
    reveal_with_fuel(rot_cell, 4);
}

/// A piece that fits has its grid between columns -2 and 8 and its top
/// row at most 18.
pub proof fn lemma_fits_bounds(board: Seq<Seq<u8>>, p: Piece, rotation: u8, x: int, y: int)
    requires
        fits_at(board, p, rotation, x, y),
    ensures
        -2 <= x <= 8,
        y <= 18,
{
    lemma_anchor(p, rotation);
    assert(cell_ok(board, y + anchor_row(rotation), x + anchor_col(rotation)));
}

/// The rows left after removing full ones are never more than the rows
/// given, none of them is full, and each was one of the given rows.
pub proof fn lemma_open_rows(b: Seq<Seq<u8>>)
    ensures
        open_rows(b).len() <= b.len(),
        forall|i: int| 0 <= i < open_rows(b).len() ==> !row_full(#[trigger] open_rows(b)[i]),
        forall|i: int| 0 <= i < open_rows(b).len() ==> b.contains(#[trigger] open_rows(b)[i]),
    decreases b.len(),
{
    if b.len() > 0 {
        lemma_open_rows(b.drop_first());
        let r = open_rows(b.drop_first());
        assert forall|i: int| 0 <= i < open_rows(b).len() implies b.contains(#[trigger] open_rows(b)[i]) by {
            if !row_full(b[0]) && i == 0 {
                assert(b[0] == open_rows(b)[0]);
            } else {
                let j = if row_full(b[0]) { i } else { i - 1 };
                assert(open_rows(b)[i] == r[j]);
                let w = choose|w: int| 0 <= w < b.drop_first().len() && b.drop_first()[w] == r[j];
                assert(b[w + 1] == r[j]);
            }
        }
    }
}

/// Every row is not full.
pub open spec fn no_full_row(b: Seq<Seq<u8>>) -> bool {
    forall|i: int| 0 <= i < b.len() ==> !row_full(#[trigger] b[i])
}

/// After clearing, no row is full.
pub proof fn lemma_cleared_no_full_row(b: Seq<Seq<u8>>)
    requires
        b.len() == 20,
    ensures
        cleared(b).len() == 20,
        no_full_row(cleared(b)),
{
    lemma_open_rows(b);
    let n = (b.len() - open_rows(b).len()) as nat;
    assert forall|i: int| 0 <= i < cleared(b).len() implies !row_full(#[trigger] cleared(b)[i]) by {
        if i < n {
            assert(cleared(b)[i] == empty_row());
            assert(empty_row()[0] == 0);
        } else {
            assert(cleared(b)[i] == open_rows(b)[i - n]);
        }
    }
}

/// Whether every cell of a board row is occupied.
fn row_is_full(row: &[u8; 10]) -> (b: bool)
    ensures
        b == row_full(row@),
{
    let mut c: usize = 0;
    while c < 10
        invariant
            c <= 10,
            forall|j: int| 0 <= j < c ==> row@[j] != 0,
        decreases 10 - c,
    {
        if row[c] == 0 {
            return false;
        }
        c += 1;
    }
    true
}

/// Removes board row `row`: the rows above it move down one and an empty
/// row comes in at the top.
fn remove_row(board: &mut [[u8; 10]; 20], row: usize)
    requires
        row < 20,
    ensures
        board_of(*final(board)) == seq![empty_row()] + board_of(*old(board)).take(row as int)
            + board_of(*old(board)).skip(row + 1),
{
    let ghost orig = *board;
    let mut r: usize = row;
    while r > 0
        invariant
            r <= row < 20,
            forall|j: int| 0 <= j <= r ==> board@[j] == orig@[j],
            forall|j: int| r < j <= row ==> board@[j] == orig@[j - 1],
            forall|j: int| row < j < 20 ==> board@[j] == orig@[j],
        decreases r,
    {
        board[r] = board[r - 1];
        r -= 1;
    }
    board[0] = [0u8; 10];
    assert(board@[0]@ =~= empty_row());
    let ghost lhs = board_of(*board);
    let ghost rhs = seq![empty_row()] + board_of(orig).take(row as int) + board_of(orig).skip(row + 1);
    assert forall|j: int| 0 <= j < 20 implies lhs[j] == rhs[j] by {
        if j == 0 {
        } else if j <= row {
            assert(rhs[j] == board_of(orig)[j - 1]);
        } else {
            assert(rhs[j] == board_of(orig)[j]);
        }
    }
    assert(lhs =~= rhs);
}


/// Tetris game state.
pub struct Tetris {
    /// Board cells: 0 = empty, 1-7 = piece colour.
    pub board: [[u8; 10]; 20],
    pub current: FallingPiece,
    pub next: Piece,
    pub score: u32,
    pub lines_cleared: u32,
    pub level: u32,
    pub game_over: bool,
    pub paused: bool,
    pub last_tick: Instant,
    /// Gravity interval in milliseconds.
    pub drop_interval: u64,
}

/// The piece's position and rotation leave room for the arithmetic of a
/// move: a rotation below 255 and coordinates far from the `i32` limits.
pub open spec fn in_range(f: FallingPiece) -> bool {
    &&& f.rotation < 255
    &&& i32::MIN + 2 <= f.x <= i32::MAX - 6
    &&& f.y <= i32::MAX - 5
}

/// The piece moved to row `y`.
pub open spec fn at_row(f: FallingPiece, y: int) -> FallingPiece {
    FallingPiece { y: y as i32, ..f }
}

/// The row the piece drops to from its row: it keeps falling while it fits
/// one row lower, `steps` times at most.
pub open spec fn fall(board: Seq<Seq<u8>>, f: FallingPiece, steps: nat) -> int
    decreases steps,
{
    if steps > 0 && fits_at(board, f.piece, f.rotation, f.x as int, f.y + 1) {
        fall(board, at_row(f, f.y + 1), (steps - 1) as nat)
    } else {
        f.y as int
    }
}

/// The row where the piece lands when dropped: a fitting piece never goes
/// below row 18, so `20 - y` steps are enough.
pub open spec fn landing_y(board: Seq<Seq<u8>>, f: FallingPiece) -> int {
    fall(board, f, if f.y < 20 { (20 - f.y) as nat } else { 0 })
}

/// Score for a hard drop from the piece's row: two points a row.
pub open spec fn drop_bonus(board: Seq<Seq<u8>>, f: FallingPiece) -> int {
    2 * (landing_y(board, f) - f.y)
}

/// The rotation one quarter turn clockwise from `rotation`.
pub open spec fn next_rotation(rotation: u8) -> u8 {
    ((rotation + 1) % 4) as u8
}

/// Sideways shift tried by the `i`-th wall kick.
pub open spec fn kick(i: int) -> int {
    if i == 0 {
        -1
    } else if i == 1 {
        1
    } else if i == 2 {
        -2
    } else {
        2
    }
}

/// The piece turned and moved `dx` columns.
pub open spec fn turned(f: FallingPiece, dx: int) -> FallingPiece {
    FallingPiece { rotation: next_rotation(f.rotation), x: (f.x + dx) as i32, ..f }
}

/// The piece after a clockwise turn: turned in place if it fits there,
/// else shifted by the first of the kicks -1, 1, -2, 2 that fits, else
/// left as it is.
pub open spec fn rotated(board: Seq<Seq<u8>>, f: FallingPiece) -> FallingPiece {
    let nr = next_rotation(f.rotation);
    if fits_at(board, f.piece, nr, f.x as int, f.y as int) {
        turned(f, 0)
    } else if fits_at(board, f.piece, nr, f.x + kick(0), f.y as int) {
        turned(f, kick(0))
    } else if fits_at(board, f.piece, nr, f.x + kick(1), f.y as int) {
        turned(f, kick(1))
    } else if fits_at(board, f.piece, nr, f.x + kick(2), f.y as int) {
        turned(f, kick(2))
    } else if fits_at(board, f.piece, nr, f.x + kick(3), f.y as int) {
        turned(f, kick(3))
    } else {
        f
    }
}

/// The piece moved `dx` columns.
pub open spec fn shifted(f: FallingPiece, dx: int) -> FallingPiece {
    FallingPiece { x: (f.x + dx) as i32, ..f }
}

/// The game `s` with the falling piece replaced by `f`.
pub open spec fn with_piece(s: Tetris, f: FallingPiece) -> Tetris {
    Tetris { current: f, ..s }
}

/// The game `s` with its gravity clock set to `t`.
pub open spec fn with_clock(s: Tetris, t: Instant) -> Tetris {
    Tetris { last_tick: t, ..s }
}

/// The game `s` with its pause flag set to `p`.
pub open spec fn with_pause(s: Tetris, p: bool) -> Tetris {
    Tetris { paused: p, ..s }
}

/// One step of gravity from `s` to `t`: the piece moves a row down if it
/// fits there, else it settles.
pub open spec fn falls(s: Tetris, t: Tetris) -> bool {
    let down = at_row(s.current, s.current.y + 1);
    if piece_fits(s.rows(), down) {
        t == with_piece(s, down)
    } else {
        settles(s, s.current, 0, t)
    }
}

/// What follows when the falling piece `f` comes to rest in game `s` with
/// `bonus` points: it is locked into the board, full rows are cleared and
/// scored at the current level, the level rises every ten lines with the
/// drop interval to match, the next piece enters at the top, and the game
/// ends if it does not fit there. The piece after it is drawn at random.
pub open spec fn settles(s: Tetris, f: FallingPiece, bonus: int, t: Tetris) -> bool {
    let b = locked(s.rows(), f);
    let n = full_count(b);
    let lvl = level_after(s.level, s.lines_cleared, n);
    &&& t.rows() == cleared(b)
    &&& t.lines_cleared == s.lines_cleared + n
    &&& t.score == s.score + bonus + points(n, s.level)
    &&& t.level == lvl
    &&& t.drop_interval == if lvl == s.level { s.drop_interval } else { interval_for(t.level) }
    &&& t.current == spawn_of(s.next)
    &&& t.game_over == (s.game_over || !piece_fits(t.rows(), t.current))
    &&& t.paused == s.paused
    &&& t.last_tick == s.last_tick
}

/// A game as it starts: an empty board, no score, level 1, 800 ms between
/// drops, an unrotated piece at the top centre.
pub open spec fn fresh(t: Tetris) -> bool {
    &&& t.rows() == empty_rows(20)
    &&& t.current.rotation == 0
    &&& t.current.x == 3
    &&& t.current.y == 0
    &&& t.score == 0
    &&& t.lines_cleared == 0
    &&& t.level == 1
    &&& !t.game_over
    &&& !t.paused
    &&& t.drop_interval == 800
}

/// Whether a hard drop (or a row's fall) cannot overflow the counters:
/// room for `bonus` points and a clear of every row at the current level.
pub open spec fn has_room(t: Tetris, bonus: int) -> bool {
    &&& t.lines_cleared + 20 <= u32::MAX
    &&& t.score + bonus + 800 * t.level <= u32::MAX
}

/// A piece falling from a row above the floor lands at the row its fall
/// reaches from there.
pub proof fn lemma_fall_step(board: Seq<Seq<u8>>, f: FallingPiece, y: int)
    requires
        f.y <= y < 20,
        y <= i32::MAX,
        fits_at(board, f.piece, f.rotation, f.x as int, y + 1),
    ensures
        fall(board, at_row(f, y), (20 - y) as nat) == fall(board, at_row(f, y + 1), (20 - (y + 1)) as nat),
{
    lemma_fits_bounds(board, f.piece, f.rotation, f.x as int, y + 1);
    assert(at_row(at_row(f, y), y + 1) == at_row(f, y + 1));
}

/// The landing row: for a piece that fits, it is at or below the piece,
/// the piece fits there, and it would not fit one row lower.
pub proof fn lemma_landing(board: Seq<Seq<u8>>, f: FallingPiece)
    requires
        piece_fits(board, f),
    ensures
        landing_y(board, f) >= f.y,
        fits_at(board, f.piece, f.rotation, f.x as int, landing_y(board, f)),
        !fits_at(board, f.piece, f.rotation, f.x as int, landing_y(board, f) + 1),
{
    lemma_fits_bounds(board, f.piece, f.rotation, f.x as int, f.y as int);
    lemma_fall_fits(board, f, (20 - f.y) as nat);
}

/// A fall from a fitting position ends at or below it, on a fitting row, and
/// with fuel left over it ends where one row lower no longer fits.
pub proof fn lemma_fall_fits(board: Seq<Seq<u8>>, f: FallingPiece, steps: nat)
    requires
        piece_fits(board, f),
        f.y + steps >= 20,
    ensures
        fall(board, f, steps) >= f.y,
        fits_at(board, f.piece, f.rotation, f.x as int, fall(board, f, steps)),
        !fits_at(board, f.piece, f.rotation, f.x as int, fall(board, f, steps) + 1),
        forall|k: int| f.y <= k <= fall(board, f, steps) ==> #[trigger] fits_at(board, f.piece, f.rotation, f.x as int, k),
    decreases steps,
{
    lemma_fits_bounds(board, f.piece, f.rotation, f.x as int, f.y as int);
    if steps > 0 && fits_at(board, f.piece, f.rotation, f.x as int, f.y + 1) {
        lemma_fits_bounds(board, f.piece, f.rotation, f.x as int, f.y + 1);
        lemma_fall_fits(board, at_row(f, f.y + 1), (steps - 1) as nat);
    } else if steps == 0 {
        assert(f.y >= 20);
    }
}

/// The game after `k` moves of the piece one row down, the rest as it was.
pub open spec fn after_downs(s: Tetris, k: nat) -> Tetris
    decreases k,
{
    if k == 0 {
        s
    } else {
        let t = after_downs(s, (k - 1) as nat);
        with_piece(t, at_row(t.current, t.current.y + 1))
    }
}

/// Below the landing row, `k` moves down bring the piece `k` rows lower.
proof fn lemma_after_downs(s: Tetris, k: nat)
    requires
        s.current.y + k <= 19,
    ensures
        after_downs(s, k) == with_piece(s, at_row(s.current, s.current.y + k)),
    decreases k,
{
    if k > 0 {
        lemma_after_downs(s, (k - 1) as nat);
        let t = after_downs(s, (k - 1) as nat);
        assert(t.current == at_row(s.current, s.current.y + k - 1));
        assert(at_row(t.current, t.current.y + 1) == at_row(s.current, s.current.y + k));
    } else {
        assert(at_row(s.current, s.current.y as int) == s.current);
    }
}

/// A hard drop is the piece moved down one row at a time until it no
/// longer fits one row lower, then settled, with two points a row added:
/// each of the moves down to the landing row finds room, the game after
/// them has the piece at the landing row, there it finds no room, and
/// settling it there gives what the hard drop gives less the drop bonus.
pub proof fn lemma_hard_drop_as_moves(s: Tetris)
    requires
        piece_fits(s.rows(), s.current),
    ensures
        ({
            let f = s.current;
            let land = landing_y(s.rows(), f);
            let n = (land - f.y) as nat;
            let t = after_downs(s, n);
            &&& land >= f.y
            &&& drop_bonus(s.rows(), f) == 2 * n
            &&& forall|k: nat| k < n ==> #[trigger] piece_fits(
                after_downs(s, k).rows(),
                at_row(after_downs(s, k).current, after_downs(s, k).current.y + 1),
            )
            &&& t == with_piece(s, at_row(f, land))
            &&& !piece_fits(t.rows(), at_row(t.current, t.current.y + 1))
            &&& forall|u: Tetris| #[trigger] settles(s, at_row(f, land), drop_bonus(s.rows(), f), u) ==> settles(
                t,
                t.current,
                0,
                Tetris { score: (u.score - drop_bonus(s.rows(), f)) as u32, ..u },
            )
        }),
{
    let f = s.current;
    let board = s.rows();
    lemma_fits_bounds(board, f.piece, f.rotation, f.x as int, f.y as int);
    lemma_fall_fits(board, f, (20 - f.y) as nat);
    let land = landing_y(board, f);
    let n = (land - f.y) as nat;
    lemma_fits_bounds(board, f.piece, f.rotation, f.x as int, land);
    assert forall|k: nat| k < n implies #[trigger] piece_fits(
        after_downs(s, k).rows(),
        at_row(after_downs(s, k).current, after_downs(s, k).current.y + 1),
    ) by {
        lemma_after_downs(s, k);
        assert(fits_at(board, f.piece, f.rotation, f.x as int, f.y + k + 1));
    }
    lemma_after_downs(s, n);
    let t = after_downs(s, n);
    assert(t.current == at_row(f, land));
    assert forall|u: Tetris| #[trigger] settles(s, at_row(f, land), drop_bonus(board, f), u) implies settles(
        t,
        t.current,
        0,
        Tetris { score: (u.score - drop_bonus(board, f)) as u32, ..u },
    ) by {
        let v = Tetris { score: (u.score - drop_bonus(board, f)) as u32, ..u };
        assert(v.rows() == u.rows());
    }
}

/// The cells of the 4x4 grid that piece `p` at `rotation` fills.
pub open spec fn cells_of(p: Piece, rotation: u8) -> Set<(int, int)> {
    Set::new(|rc: (int, int)| 0 <= rc.0 < 4 && 0 <= rc.1 < 4 && shape_cell(p, rotation, rc.0, rc.1))
}

/// Every piece, at every rotation, fills exactly four cells of its grid.
pub proof fn lemma_four_cells(p: Piece, rotation: u8)
    ensures
        cells_of(p, rotation).len() == 4,
{
    reveal_with_fuel(rot_cell, 5);
    let k = rotation % 4;
    match p {
        Piece::I => {
            if k == 0 {
                let e = set![(1int, 0int), (1int, 1int), (1int, 2int), (1int, 3int)];
                assert(cells_of(p, rotation) =~= e);
                assert(e.len() == 4);
            } else if k == 1 {
                let e = set![(0int, 2int), (1int, 2int), (2int, 2int), (3int, 2int)];
                assert(cells_of(p, rotation) =~= e);
                assert(e.len() == 4);
            } else if k == 2 {
                let e = set![(2int, 3int), (2int, 2int), (2int, 1int), (2int, 0int)];
                assert(cells_of(p, rotation) =~= e);
                assert(e.len() == 4);
            } else {
                let e = set![(3int, 1int), (2int, 1int), (1int, 1int), (0int, 1int)];
                assert(cells_of(p, rotation) =~= e);
                assert(e.len() == 4);
            }
        },
        Piece::O => {
            if k == 0 {
                let e = set![(0int, 1int), (0int, 2int), (1int, 1int), (1int, 2int)];
                assert(cells_of(p, rotation) =~= e);
                assert(e.len() == 4);
            } else if k == 1 {
                let e = set![(1int, 3int), (2int, 3int), (1int, 2int), (2int, 2int)];
                assert(cells_of(p, rotation) =~= e);
                assert(e.len() == 4);
            } else if k == 2 {
                let e = set![(3int, 2int), (3int, 1int), (2int, 2int), (2int, 1int)];
                assert(cells_of(p, rotation) =~= e);
                assert(e.len() == 4);
            } else {
                let e = set![(2int, 0int), (1int, 0int), (2int, 1int), (1int, 1int)];
                assert(cells_of(p, rotation) =~= e);
                assert(e.len() == 4);
            }
        },
        Piece::T => {
            if k == 0 {
                let e = set![(0int, 1int), (1int, 0int), (1int, 1int), (1int, 2int)];
                assert(cells_of(p, rotation) =~= e);
                assert(e.len() == 4);
            } else if k == 1 {
                let e = set![(1int, 3int), (0int, 2int), (1int, 2int), (2int, 2int)];
                assert(cells_of(p, rotation) =~= e);
                assert(e.len() == 4);
            } else if k == 2 {
                let e = set![(3int, 2int), (2int, 3int), (2int, 2int), (2int, 1int)];
                assert(cells_of(p, rotation) =~= e);
                assert(e.len() == 4);
            } else {
                let e = set![(2int, 0int), (3int, 1int), (2int, 1int), (1int, 1int)];
                assert(cells_of(p, rotation) =~= e);
                assert(e.len() == 4);
            }
        },
        Piece::S => {
            if k == 0 {
                let e = set![(0int, 1int), (0int, 2int), (1int, 0int), (1int, 1int)];
                assert(cells_of(p, rotation) =~= e);
                assert(e.len() == 4);
            } else if k == 1 {
                let e = set![(1int, 3int), (2int, 3int), (0int, 2int), (1int, 2int)];
                assert(cells_of(p, rotation) =~= e);
                assert(e.len() == 4);
            } else if k == 2 {
                let e = set![(3int, 2int), (3int, 1int), (2int, 3int), (2int, 2int)];
                assert(cells_of(p, rotation) =~= e);
                assert(e.len() == 4);
            } else {
                let e = set![(2int, 0int), (1int, 0int), (3int, 1int), (2int, 1int)];
                assert(cells_of(p, rotation) =~= e);
                assert(e.len() == 4);
            }
        },
        Piece::Z => {
            if k == 0 {
                let e = set![(0int, 0int), (0int, 1int), (1int, 1int), (1int, 2int)];
                assert(cells_of(p, rotation) =~= e);
                assert(e.len() == 4);
            } else if k == 1 {
                let e = set![(0int, 3int), (1int, 3int), (1int, 2int), (2int, 2int)];
                assert(cells_of(p, rotation) =~= e);
                assert(e.len() == 4);
            } else if k == 2 {
                let e = set![(3int, 3int), (3int, 2int), (2int, 2int), (2int, 1int)];
                assert(cells_of(p, rotation) =~= e);
                assert(e.len() == 4);
            } else {
                let e = set![(3int, 0int), (2int, 0int), (2int, 1int), (1int, 1int)];
                assert(cells_of(p, rotation) =~= e);
                assert(e.len() == 4);
            }
        },
        Piece::J => {
            if k == 0 {
                let e = set![(0int, 0int), (1int, 0int), (1int, 1int), (1int, 2int)];
                assert(cells_of(p, rotation) =~= e);
                assert(e.len() == 4);
            } else if k == 1 {
                let e = set![(0int, 3int), (0int, 2int), (1int, 2int), (2int, 2int)];
                assert(cells_of(p, rotation) =~= e);
                assert(e.len() == 4);
            } else if k == 2 {
                let e = set![(3int, 3int), (2int, 3int), (2int, 2int), (2int, 1int)];
                assert(cells_of(p, rotation) =~= e);
                assert(e.len() == 4);
            } else {
                let e = set![(3int, 0int), (3int, 1int), (2int, 1int), (1int, 1int)];
                assert(cells_of(p, rotation) =~= e);
                assert(e.len() == 4);
            }
        },
        Piece::L => {
            if k == 0 {
                let e = set![(0int, 2int), (1int, 0int), (1int, 1int), (1int, 2int)];
                assert(cells_of(p, rotation) =~= e);
                assert(e.len() == 4);
            } else if k == 1 {
                let e = set![(2int, 3int), (0int, 2int), (1int, 2int), (2int, 2int)];
                assert(cells_of(p, rotation) =~= e);
                assert(e.len() == 4);
            } else if k == 2 {
                let e = set![(3int, 1int), (2int, 3int), (2int, 2int), (2int, 1int)];
                assert(cells_of(p, rotation) =~= e);
                assert(e.len() == 4);
            } else {
                let e = set![(1int, 0int), (3int, 1int), (2int, 1int), (1int, 1int)];
                assert(cells_of(p, rotation) =~= e);
                assert(e.len() == 4);
            }
        },
    }
}

impl Tetris {
    /// The board as rows of cells.
    pub open spec fn rows(&self) -> Seq<Seq<u8>> {
        board_of(self.board)
    }

    /// The game invariant: a falling piece in range, fitting the board
    /// while the game runs, and no full row left on the board.
    pub open spec fn inv(&self) -> bool {
        &&& self.current.rotation < 4
        &&& -2 <= self.current.x <= 8
        &&& 0 <= self.current.y <= 18
        &&& !self.game_over ==> piece_fits(self.rows(), self.current)
        &&& no_full_row(self.rows())
    }

    /// Whether `piece` at `rotation` fits with its grid at (`x`, `y`).
    fn fits(&self, piece: &Piece, rotation: u8, x: i32, y: i32) -> (b: bool)
        requires
            x <= i32::MAX - 4,
            y <= i32::MAX - 4,
        ensures
            b == fits_at(self.rows(), *piece, rotation, x as int, y as int),
    {
        let shape = piece.shape(rotation);
        let mut r: usize = 0;
        while r < 4
            invariant
                r <= 4,
                x <= i32::MAX - 4,
                y <= i32::MAX - 4,
                forall|a: int, b: int| 0 <= a < 4 && 0 <= b < 4 ==> shape@[a]@[b] == shape_cell(*piece, rotation, a, b),
                forall|a: int, b: int| 0 <= a < r && 0 <= b < 4 && shape_cell(*piece, rotation, a, b)
                    ==> cell_ok(self.rows(), y + a, x + b),
            decreases 4 - r,
        {
            let mut c: usize = 0;
            while c < 4
                invariant
                    r < 4,
                    c <= 4,
                    x <= i32::MAX - 4,
                    y <= i32::MAX - 4,
                    forall|a: int, b: int| 0 <= a < 4 && 0 <= b < 4 ==> shape@[a]@[b] == shape_cell(*piece, rotation, a, b),
                    forall|a: int, b: int| ((0 <= a < r && 0 <= b < 4) || (a == r && 0 <= b < c))
                        && shape_cell(*piece, rotation, a, b) ==> cell_ok(self.rows(), y + a, x + b),
                decreases 4 - c,
            {
                if shape[r][c] {
                    let br = y + r as i32;
                    let bc = x + c as i32;
                    if bc < 0 || bc >= 10 || br >= 20 {
                        assert(shape_cell(*piece, rotation, r as int, c as int));
                        assert(!cell_ok(self.rows(), y + r, x + c));
                        assert(!fits_at(self.rows(), *piece, rotation, x as int, y as int));
                        return false;
                    }
                    if br >= 0 && self.board[br as usize][bc as usize] != 0 {
                        assert(self.rows()[br as int][bc as int] == self.board@[br as int]@[bc as int]);
                        assert(shape_cell(*piece, rotation, r as int, c as int));
                        assert(!cell_ok(self.rows(), y + r, x + c));
                        assert(!fits_at(self.rows(), *piece, rotation, x as int, y as int));
                        return false;
                    }
                }
                c += 1;
            }
            r += 1;
        }
        true
    }

    /// Writes the current piece's colour into the board cells it covers.
    fn lock_piece(&mut self)
        requires
            in_range(old(self).current),
        ensures
            final(self).rows() == locked(old(self).rows(), old(self).current),
            final(self).current == old(self).current,
            final(self).next == old(self).next,
            final(self).score == old(self).score,
            final(self).lines_cleared == old(self).lines_cleared,
            final(self).level == old(self).level,
            final(self).game_over == old(self).game_over,
            final(self).paused == old(self).paused,
            final(self).last_tick == old(self).last_tick,
            final(self).drop_interval == old(self).drop_interval,
    {
        let ghost orig = self.board;
        let f = self.current;
        let color = f.piece.color_index();
        let shape = f.shape();
        let mut r: usize = 0;
        while r < 4
            invariant
                r <= 4,
                f == old(self).current,
                in_range(f),
                color == color_of(f.piece),
                orig == old(self).board,
                self.current == old(self).current,
                self.next == old(self).next,
                self.score == old(self).score,
                self.lines_cleared == old(self).lines_cleared,
                self.level == old(self).level,
                self.game_over == old(self).game_over,
                self.paused == old(self).paused,
                self.last_tick == old(self).last_tick,
                self.drop_interval == old(self).drop_interval,
                forall|a: int, b: int| 0 <= a < 4 && 0 <= b < 4 ==> shape@[a]@[b] == shape_cell(f.piece, f.rotation, a, b),
                forall|i: int, j: int| 0 <= i < 20 && 0 <= j < 10 ==> self.board@[i]@[j] == {
                    let pr = i - f.y;
                    let pc = j - f.x;
                    if 0 <= pr < r && 0 <= pc < 4 && shape_cell(f.piece, f.rotation, pr, pc) {
                        color_of(f.piece)
                    } else {
                        orig@[i]@[j]
                    }
                },
            decreases 4 - r,
        {
            let mut c: usize = 0;
            while c < 4
                invariant
                    r < 4,
                    c <= 4,
                    f == old(self).current,
                    in_range(f),
                    color == color_of(f.piece),
                    orig == old(self).board,
                    self.current == old(self).current,
                    self.next == old(self).next,
                    self.score == old(self).score,
                    self.lines_cleared == old(self).lines_cleared,
                    self.level == old(self).level,
                    self.game_over == old(self).game_over,
                    self.paused == old(self).paused,
                    self.last_tick == old(self).last_tick,
                    self.drop_interval == old(self).drop_interval,
                    forall|a: int, b: int| 0 <= a < 4 && 0 <= b < 4 ==> shape@[a]@[b] == shape_cell(f.piece, f.rotation, a, b),
                    forall|i: int, j: int| 0 <= i < 20 && 0 <= j < 10 ==> self.board@[i]@[j] == {
                        let pr = i - f.y;
                        let pc = j - f.x;
                        if ((0 <= pr < r && 0 <= pc < 4) || (pr == r && 0 <= pc < c)) && shape_cell(f.piece, f.rotation, pr, pc) {
                            color_of(f.piece)
                        } else {
                            orig@[i]@[j]
                        }
                    },
                decreases 4 - c,
            {
                if shape[r][c] {
                    let br = f.y + r as i32;
                    let bc = f.x + c as i32;
                    if br >= 0 && br < 20 && bc >= 0 && bc < 10 {
                        self.board[br as usize][bc as usize] = color;
                    }
                }
                c += 1;
            }
            r += 1;
        }
        assert(self.rows() =~= locked(board_of(orig), f)) by {
            assert forall|i: int| 0 <= i < 20 implies #[trigger] self.rows()[i] =~= locked(board_of(orig), f)[i] by {
                assert forall|j: int| 0 <= j < 10 implies self.rows()[i][j] == locked(board_of(orig), f)[i][j] by {
                    assert(self.rows()[i][j] == self.board@[i]@[j]);
                    assert(board_of(orig)[i][j] == orig@[i]@[j]);
                }
            }
        }
    }

    /// Removes full rows, adds them to the line count, scores them at the
    /// current level and raises the level every ten lines.
    fn clear_lines(&mut self)
        requires
            old(self).lines_cleared + 20 <= u32::MAX,
            old(self).score + 800 * old(self).level <= u32::MAX,
        ensures
            final(self).rows() == cleared(old(self).rows()),
            final(self).lines_cleared == old(self).lines_cleared + full_count(old(self).rows()),
            final(self).score == old(self).score + points(full_count(old(self).rows()), old(self).level),
            final(self).level == level_after(old(self).level, old(self).lines_cleared, full_count(old(self).rows())),
            final(self).drop_interval == if level_after(old(self).level, old(self).lines_cleared, full_count(old(self).rows())) == old(self).level {
                old(self).drop_interval
            } else {
                interval_for(final(self).level)
            },
            final(self).current == old(self).current,
            final(self).next == old(self).next,
            final(self).game_over == old(self).game_over,
            final(self).paused == old(self).paused,
            final(self).last_tick == old(self).last_tick,
    {
        let ghost orig = self.rows();
        proof {
            lemma_open_rows(orig);
        }
        let mut lines: u32 = 0;
        let mut row: i32 = 19;
        let ghost mut k: int = 20;
        assert(orig.skip(20) =~= Seq::<Seq<u8>>::empty());
        assert(self.rows() =~= empty_rows(0) + orig.take(20) + open_rows(orig.skip(20)));
        while row >= 0
            invariant
                orig == old(self).rows(),
                orig.len() == 20,
                0 <= k <= 20,
                open_rows(orig.skip(k)).len() <= 20 - k,
                lines == (20 - k) - open_rows(orig.skip(k)).len(),
                (k > 0 && row + 1 == lines + k) || (k == 0 && -1 <= row && row + 1 <= lines),
                self.rows() == empty_rows(lines as nat) + orig.take(k) + open_rows(orig.skip(k)),
                self.current == old(self).current,
                self.next == old(self).next,
                self.score == old(self).score,
                self.lines_cleared == old(self).lines_cleared,
                self.level == old(self).level,
                self.game_over == old(self).game_over,
                self.paused == old(self).paused,
                self.last_tick == old(self).last_tick,
                self.drop_interval == old(self).drop_interval,
            decreases k + row + 1,
        {
            let ghost before = self.rows();
            assert(before[row as int] == self.board@[row as int]@);
            let full = row_is_full(&self.board[row as usize]);
            proof {
                if k > 0 {
                    assert(before[row as int] == orig[k - 1]);
                    lemma_open_rows(orig.skip(k - 1));
                    assert(orig.skip(k - 1).drop_first() =~= orig.skip(k));
                } else {
                    assert(before[row as int] == empty_row());
                    assert(empty_row()[0] == 0);
                }
            }
            if full {
                remove_row(&mut self.board, row as usize);
                proof {
                    assert(self.rows() =~= empty_rows((lines + 1) as nat) + orig.take(k - 1) + open_rows(orig.skip(k - 1))) by {
                        assert(before.take(row as int) =~= empty_rows(lines as nat) + orig.take(k - 1));
                        assert(before.skip(row + 1) =~= open_rows(orig.skip(k)));
                    }
                    k = k - 1;
                }
                lines = lines + 1;
            } else {
                proof {
                    if k > 0 {
                        assert(before =~= empty_rows(lines as nat) + orig.take(k - 1) + open_rows(orig.skip(k - 1)));
                        k = k - 1;
                    }
                }
                row = row - 1;
            }
        }
        assert(orig.skip(0) =~= orig);
        assert(self.rows() =~= cleared(orig));
        if lines > 0 {
            self.lines_cleared = self.lines_cleared + lines;
            let gained: u32 = if lines == 1 {
                100 * self.level
            } else if lines == 2 {
                300 * self.level
            } else if lines == 3 {
                500 * self.level
            } else if lines == 4 {
                800 * self.level
            } else {
                0
            };
            self.score = self.score + gained;
            let new_level = self.lines_cleared / 10 + 1;
            if new_level > self.level {
                self.level = new_level;
                self.drop_interval = drop_interval_for_level(self.level);
            }
        }
    }

    /// Brings in the next piece, draws a new next piece, and ends the game
    /// if the new piece does not fit.
    fn spawn_next(&mut self)
        ensures
            final(self).current == spawn_of(old(self).next),
            final(self).game_over == (old(self).game_over || !piece_fits(old(self).rows(), final(self).current)),
            final(self).board == old(self).board,
            final(self).score == old(self).score,
            final(self).lines_cleared == old(self).lines_cleared,
            final(self).level == old(self).level,
            final(self).paused == old(self).paused,
            final(self).last_tick == old(self).last_tick,
            final(self).drop_interval == old(self).drop_interval,
    {
        self.current = FallingPiece::new(self.next);
        self.next = Piece::random();
        if !self.fits(&self.current.piece, self.current.rotation, self.current.x, self.current.y) {
            self.game_over = true;
        }
    }

    /// Locks the falling piece, clears full rows and brings in the next one.
    fn settle(&mut self)
        requires
            in_range(old(self).current),
            has_room(*old(self), 0),
        ensures
            settles(*old(self), old(self).current, 0, *final(self)),
    {
        self.lock_piece();
        self.clear_lines();
        self.spawn_next();
    }

    /// Moves the piece down a row if it fits there (returns true); else
    /// locks it, clears full rows and brings in the next piece (returns
    /// false). Does nothing once the game is over.
    pub fn move_down(&mut self) -> (moved: bool)
        requires
            in_range(old(self).current),
            has_room(*old(self), 0),
        ensures
            old(self).game_over ==> !moved && *final(self) == *old(self),
            !old(self).game_over && piece_fits(old(self).rows(), at_row(old(self).current, old(self).current.y + 1))
                ==> moved && *final(self) == with_piece(*old(self), at_row(old(self).current, old(self).current.y + 1)),
            !old(self).game_over && !piece_fits(old(self).rows(), at_row(old(self).current, old(self).current.y + 1))
                ==> !moved && settles(*old(self), old(self).current, 0, *final(self)),
            old(self).inv() ==> final(self).inv(),
    {
        if self.game_over {
            return false;
        }
        if self.fits(&self.current.piece, self.current.rotation, self.current.x, self.current.y + 1) {
            proof {
                lemma_fits_bounds(self.rows(), self.current.piece, self.current.rotation, self.current.x as int, self.current.y + 1);
            }
            self.current.y = self.current.y + 1;
            assert(self.current == at_row(old(self).current, old(self).current.y + 1));
            true
        } else {
            self.settle();
            proof {
                lemma_cleared_no_full_row(locked(old(self).rows(), old(self).current));
            }
            false
        }
    }

    /// Drops the piece to where it lands, scores two points a row for the
    /// drop, locks it, clears full rows and brings in the next piece. Does
    /// nothing once the game is over.
    pub fn hard_drop(&mut self)
        requires
            in_range(old(self).current),
            !old(self).game_over ==> has_room(*old(self), drop_bonus(old(self).rows(), old(self).current)),
        ensures
            old(self).game_over ==> *final(self) == *old(self),
            !old(self).game_over ==> settles(
                *old(self),
                at_row(old(self).current, landing_y(old(self).rows(), old(self).current)),
                drop_bonus(old(self).rows(), old(self).current),
                *final(self),
            ),
            old(self).inv() ==> final(self).inv(),
    {
        if self.game_over {
            return;
        }
        let ghost f0 = self.current;
        let ghost board = self.rows();
        let mut rows: u32 = 0;
        if self.current.y < 20 {
            while self.fits(&self.current.piece, self.current.rotation, self.current.x, self.current.y + 1)
                invariant
                    board == old(self).rows(),
                    f0 == old(self).current,
                    self.board == old(self).board,
                    self.current == at_row(f0, self.current.y as int),
                    f0.y <= self.current.y < 20,
                    rows == self.current.y - f0.y,
                    in_range(f0),
                    fall(board, self.current, (20 - self.current.y) as nat) == landing_y(board, f0),
                    has_room(*old(self), drop_bonus(board, f0)),
                    self.next == old(self).next,
                    self.score == old(self).score,
                    self.lines_cleared == old(self).lines_cleared,
                    self.level == old(self).level,
                    self.game_over == old(self).game_over,
                    self.paused == old(self).paused,
                    self.last_tick == old(self).last_tick,
                    self.drop_interval == old(self).drop_interval,
                decreases 20 - self.current.y,
            {
                proof {
                    lemma_fits_bounds(board, f0.piece, f0.rotation, f0.x as int, self.current.y + 1);
                    lemma_fall_step(board, f0, self.current.y as int);
                }
                self.current.y = self.current.y + 1;
                rows = rows + 1;
            }
        }
        assert(self.current.y == landing_y(board, f0));
        self.score = self.score + rows * 2;
        let ghost landed = self.current;
        self.settle();
        proof {
            lemma_cleared_no_full_row(locked(board, landed));
        }
    }

    /// Moves the piece one column left if it fits there.
    pub fn move_left(&mut self)
        requires
            in_range(old(self).current),
        ensures
            *final(self) == if !old(self).game_over && piece_fits(old(self).rows(), shifted(old(self).current, -1)) {
                with_piece(*old(self), shifted(old(self).current, -1))
            } else {
                *old(self)
            },
            old(self).inv() ==> final(self).inv(),
    {
        if self.game_over {
            return;
        }
        if self.fits(&self.current.piece, self.current.rotation, self.current.x - 1, self.current.y) {
            proof {
                lemma_fits_bounds(self.rows(), self.current.piece, self.current.rotation, self.current.x - 1, self.current.y as int);
            }
            self.current.x = self.current.x - 1;
            assert(self.current == shifted(old(self).current, -1));
        }
    }

    /// Moves the piece one column right if it fits there.
    pub fn move_right(&mut self)
        requires
            in_range(old(self).current),
        ensures
            *final(self) == if !old(self).game_over && piece_fits(old(self).rows(), shifted(old(self).current, 1)) {
                with_piece(*old(self), shifted(old(self).current, 1))
            } else {
                *old(self)
            },
            old(self).inv() ==> final(self).inv(),
    {
        if self.game_over {
            return;
        }
        if self.fits(&self.current.piece, self.current.rotation, self.current.x + 1, self.current.y) {
            proof {
                lemma_fits_bounds(self.rows(), self.current.piece, self.current.rotation, self.current.x + 1, self.current.y as int);
            }
            self.current.x = self.current.x + 1;
            assert(self.current == shifted(old(self).current, 1));
        }
    }

    /// Turns the piece clockwise, in place or with a wall kick.
    pub fn rotate(&mut self)
        requires
            in_range(old(self).current),
        ensures
            *final(self) == if old(self).game_over {
                *old(self)
            } else {
                with_piece(*old(self), rotated(old(self).rows(), old(self).current))
            },
            old(self).inv() ==> final(self).inv(),
    {
        if self.game_over {
            return;
        }
        let ghost f = self.current;
        let new_rot = (self.current.rotation + 1) % 4;
        if self.fits(&self.current.piece, new_rot, self.current.x, self.current.y) {
            proof {
                lemma_fits_bounds(self.rows(), f.piece, new_rot, f.x as int, f.y as int);
            }
            self.current.rotation = new_rot;
            assert(self.current == turned(f, 0));
            return;
        }
        let kicks: [i32; 4] = [-1, 1, -2, 2];
        let mut i: usize = 0;
        while i < 4
            invariant
                i <= 4,
                f == old(self).current,
                *self == *old(self),
                !self.game_over,
                in_range(f),
                new_rot == next_rotation(f.rotation),
                forall|j: int| 0 <= j < 4 ==> kicks@[j] == kick(j),
                !fits_at(self.rows(), f.piece, new_rot, f.x as int, f.y as int),
                forall|j: int| 0 <= j < i ==> !fits_at(self.rows(), f.piece, new_rot, f.x + kick(j), f.y as int),
            decreases 4 - i,
        {
            let dx = kicks[i];
            if self.fits(&self.current.piece, new_rot, self.current.x + dx, self.current.y) {
                proof {
                    lemma_fits_bounds(self.rows(), f.piece, new_rot, f.x + dx, f.y as int);
                }
                self.current.x = self.current.x + dx;
                self.current.rotation = new_rot;
                assert(self.current == turned(f, kick(i as int)));
                return;
            }
            i += 1;
        }
    }

    /// Pauses or resumes the game; resuming restarts the gravity clock.
    pub fn toggle_pause(&mut self)
        ensures
            final(self).paused == !old(self).paused,
            *final(self) == with_clock(with_pause(*old(self), final(self).paused), final(self).last_tick),
            final(self).paused ==> final(self).last_tick == old(self).last_tick,
    {
        self.paused = !self.paused;
        if !self.paused {
            self.last_tick = instant_now();
        }
    }

    /// The row where the falling piece would land if dropped.
    pub fn ghost_y(&self) -> (gy: i32)
        requires
            in_range(self.current),
        ensures
            gy == landing_y(self.rows(), self.current),
    {
        let ghost board = self.rows();
        let f = self.current;
        let mut gy = f.y;
        if gy < 20 {
            while self.fits(&f.piece, f.rotation, f.x, gy + 1)
                invariant
                    board == self.rows(),
                    f == self.current,
                    in_range(f),
                    f.y <= gy < 20,
                    fall(board, at_row(f, gy as int), (20 - gy) as nat) == landing_y(board, f),
                decreases 20 - gy,
            {
                proof {
                    lemma_fits_bounds(board, f.piece, f.rotation, f.x as int, gy + 1);
                    lemma_fall_step(board, f, gy as int);
                }
                gy = gy + 1;
            }
        }
        gy
    }

    /// Gravity after `elapsed_ms` milliseconds since the last drop: once the
    /// drop interval has passed in a running game the piece moves down
    /// (returns true, and the caller restarts the clock).
    pub fn gravity(&mut self, elapsed_ms: u128) -> (due: bool)
        requires
            in_range(old(self).current),
            has_room(*old(self), 0),
        ensures
            due == (!old(self).game_over && !old(self).paused && elapsed_ms >= old(self).drop_interval),
            !due ==> *final(self) == *old(self),
            due && piece_fits(old(self).rows(), at_row(old(self).current, old(self).current.y + 1))
                ==> *final(self) == with_piece(*old(self), at_row(old(self).current, old(self).current.y + 1)),
            due && !piece_fits(old(self).rows(), at_row(old(self).current, old(self).current.y + 1))
                ==> settles(*old(self), old(self).current, 0, *final(self)),
            old(self).inv() ==> final(self).inv(),
    {
        if self.game_over || self.paused {
            return false;
        }
        if elapsed_ms >= self.drop_interval as u128 {
            self.move_down();
            true
        } else {
            false
        }
    }

    /// Called on each tick: applies gravity with the time since the last
    /// drop and restarts the clock when the piece was moved.
    pub fn tick(&mut self)
        requires
            in_range(old(self).current),
            has_room(*old(self), 0),
        ensures
            old(self).game_over || old(self).paused ==> *final(self) == *old(self),
            *final(self) == *old(self) || falls(with_clock(*old(self), final(self).last_tick), *final(self)),
            old(self).inv() ==> final(self).inv(),
    {
        if self.game_over || self.paused {
            return;
        }
        let elapsed = instant_elapsed(&self.last_tick);
        let ms = duration_millis(&elapsed);
        if self.gravity(ms) {
            self.last_tick = instant_now();
        }
    }

    /// A new game with a random piece falling and a random piece next.
    pub fn new() -> (t: Tetris)
        ensures
            fresh(t),
            t.inv(),
    {
        let current_piece = Piece::random();
        let next_piece = Piece::random();
        let t = Tetris {
            board: [[0u8; 10]; 20],
            current: FallingPiece::new(current_piece),
            next: next_piece,
            score: 0,
            lines_cleared: 0,
            level: 1,
            game_over: false,
            paused: false,
            last_tick: instant_now(),
            drop_interval: 800,
        };
        assert(t.rows() =~= empty_rows(20)) by {
            assert forall|i: int| 0 <= i < 20 implies #[trigger] t.rows()[i] =~= empty_row() by {
                assert(t.board@[i]@[0] == 0);
            }
        }
        assert(no_full_row(t.rows())) by {
            assert forall|i: int| 0 <= i < 20 implies !row_full(#[trigger] t.rows()[i]) by {
                assert(t.rows()[i][0] == 0);
            }
        }
        assert(piece_fits(t.rows(), t.current));
        t
    }

    /// Starts a new game in place.
    pub fn restart(&mut self)
        ensures
            fresh(*final(self)),
            final(self).inv(),
    {
        *self = Tetris::new();
    }
}

} // verus!