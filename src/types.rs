use vstd::prelude::*;

verus! {

/// Number of distinct tile colors.
pub const COLOR_COUNT: usize = 6;

/// Number of tiles of each color on a board.
pub const TILES_PER_COLOR: usize = 4;

/// Side length of a board.
pub const BOARD_SIZE: usize = 5;

/// Side length of a target.
pub const TARGET_SIZE: usize = 3;

/// A tile color.
#[derive(Debug, Clone, Copy, PartialEq, Eq, Structural)]
pub enum Color {
    White,
    Yellow,
    Orange,
    Red,
    Green,
    Blue,
}

/// The position of a color in the order White, Yellow, Orange, Red, Green, Blue.
pub open spec fn color_index(c: Color) -> int {
    match c {
        Color::White => 0,
        Color::Yellow => 1,
        Color::Orange => 2,
        Color::Red => 3,
        Color::Green => 4,
        Color::Blue => 5,
    }
}

impl Color {
    /// The color at position `value` in the order White, Yellow, Orange, Red,
    /// Green, Blue.
    pub fn from_index(value: usize) -> (c: Color)
        requires
            value < COLOR_COUNT,
        ensures
            color_index(c) == value,
    {
        match value {
            0 => Color::White,
            1 => Color::Yellow,
            2 => Color::Orange,
            3 => Color::Red,
            4 => Color::Green,
            _ => Color::Blue,
        }
    }

    /// The position of this color in the order of `from_index`.
    pub fn index(&self) -> (i: usize)
        ensures
            i == color_index(*self),
            i < COLOR_COUNT,
    {
        match self {
            Color::White => 0,
            Color::Yellow => 1,
            Color::Orange => 2,
            Color::Red => 3,
            Color::Green => 4,
            Color::Blue => 5,
        }
    }
}

/// The 3×3 pattern that the center of a board must show to win.
pub type Target = [[Color; 3]; 3];

/// A 5×5 grid of cells, each empty or holding a tile.
pub type BoardTiles<T = Color> = [[Option<T>; 5]; 5];

/// A (row, column) coordinate.
pub type Pos = (usize, usize);

/// A board: its cells and the coordinate of its single empty cell.
#[derive(Debug, Copy, PartialEq, Eq)]
pub struct BoardInner<T = Color> {
    pub tiles: BoardTiles<T>,
    pub hole: Pos,
}

impl<T: Copy> Clone for BoardInner<T> {
    fn clone(&self) -> (r: Self)
        ensures
            r == *self,
    {
        *self
    }
}

/// A message from the server to one player.
#[derive(Debug, PartialEq, Eq)]
pub enum ServerMessage {
    /// The session has begun.
    GameStart(GameStart),
    /// The other player has left; the session is over.
    OpponentLeft,
    /// The other player clicked at `pos`, and tiles moved on their board.
    OpponentClick { pos: Pos },
    /// The session is over; `is_win` tells this player whether they won.
    GameEnd { is_win: bool },
}

/// What each player learns when the session begins.
#[derive(Debug, PartialEq, Eq)]
pub struct GameStart {
    pub target: Target,
    pub board: BoardInner,
    pub opponent_board: BoardInner,
}

/// A message from a player to the server.
#[derive(Debug, PartialEq, Eq)]
pub enum ClientMessage {
    /// The player clicked at `pos` (row, column), and tiles moved on their board.
    Click { pos: Pos },
    /// Keepalive; carries nothing.
    Ping,
}

/// The cell at row `r`, column `c`.
pub open spec fn cell<T>(tiles: BoardTiles<T>, r: int, c: int) -> Option<T> {
    tiles[r][c]
}

/// Whether `p` lies on the board.
pub open spec fn in_bounds(p: Pos) -> bool {
    p.0 < BOARD_SIZE && p.1 < BOARD_SIZE
}

/// The board's center 3×3 cells are all occupied and show the target's colors.
pub open spec fn center_matches(tiles: BoardTiles<Color>, target: Target) -> bool {
    forall|i: int, j: int|
        0 <= i < 3 && 0 <= j < 3 ==> #[trigger] cell(tiles, i + 1, j + 1) == Some(target[i][j])
}

/// Matching depends on the board's cells and the target alone: asking twice
/// about a board whose cells have not changed gives the same answer.
pub proof fn lemma_matching_is_stable(b1: BoardInner, b2: BoardInner, target: Target)
    requires
        b1.tiles == b2.tiles,
    ensures
        center_matches(b1.tiles, target) == center_matches(b2.tiles, target),
{
}

impl BoardInner<Color> {
    /// Whether the center 3×3 cells of the board (rows and columns 1 to 3)
    /// are occupied and show the colors of `target`, cell by cell.
    pub fn matches_target(&self, target: &Target) -> (r: bool)
        ensures
            r == center_matches(self.tiles, *target),
    {
        let mut i: usize = 0;
        while i < TARGET_SIZE
            invariant
                i <= TARGET_SIZE,
                forall|a: int, b: int|
                    0 <= a < i && 0 <= b < 3 ==> #[trigger] cell(self.tiles, a + 1, b + 1) == Some(
                        target[a][b],
                    ),
            decreases TARGET_SIZE - i,
        {
            let row = self.tiles[i + 1];
            let want = target[i];
            let mut j: usize = 0;
            while j < TARGET_SIZE
                invariant
                    i < TARGET_SIZE,
                    j <= TARGET_SIZE,
                    row == self.tiles[i + 1],
                    want == target[i as int],
                    forall|a: int, b: int|
                        0 <= a < i && 0 <= b < 3 ==> #[trigger] cell(self.tiles, a + 1, b + 1)
                            == Some(target[a][b]),
                    forall|b: int|
                        0 <= b < j ==> #[trigger] cell(self.tiles, i + 1, b + 1) == Some(
                            target[i as int][b],
                        ),
                decreases TARGET_SIZE - j,
            {
                match row[j + 1] {
                    Some(c) => {
                        if c != want[j] {
                            assert(cell(self.tiles, i + 1, j + 1) != Some(target[i as int][j as int]));
                            return false;
                        }
                    },
                    None => {
                        assert(cell(self.tiles, i + 1, j + 1) != Some(target[i as int][j as int]));
                        return false;
                    },
                }
                j = j + 1;
            }
            i = i + 1;
        }
        true
    }
}

} // verus!
