use vstd::prelude::*;
use vstd::seq_lib::{
    group_to_multiset_ensures, lemma_multiset_commutative, to_multiset_build, to_multiset_update,
};

use crate::types::{
    cell, center_matches, color_index, in_bounds, BoardInner, BoardTiles, Color, Pos, Target,
    COLOR_COUNT, TILES_PER_COLOR,
};
use crate::utils::{click_result, is_slide_move, slid_cell};

verus! {

/// Number of tiles on a board.
pub const TILE_COUNT: usize = 24;

/// The 25 cells of a board in row-major order.
pub open spec fn grid_cells(tiles: BoardTiles<Color>) -> Seq<Option<Color>> {
    Seq::new(25, |k: int| cell(tiles, k / 5, k % 5))
}

/// Each color in `s`, as an occupied cell.
pub open spec fn occupied(s: Seq<Color>) -> Seq<Option<Color>> {
    s.map_values(|x: Color| Some(x))
}

/// How many times `x` occurs in `s`.
pub open spec fn occurrences<A>(s: Seq<A>, x: A) -> nat {
    s.to_multiset().count(x)
}

/// The hole lies on the board, its cell is empty, and every other cell is
/// occupied.
pub open spec fn hole_shape<T>(b: BoardInner<T>) -> bool {
    &&& in_bounds(b.hole)
    &&& forall|r: int, c: int|
        0 <= r < 5 && 0 <= c < 5 ==> (#[trigger] cell(b.tiles, r, c) is None <==> (r == b.hole.0
            && c == b.hole.1))
}

/// Every color occupies exactly four cells.
pub open spec fn color_supply(tiles: BoardTiles<Color>) -> bool {
    forall|c: Color| #[trigger] occurrences(grid_cells(tiles), Some(c)) == TILES_PER_COLOR
}

/// A well-formed board: one empty cell, at the hole, and four tiles of each
/// color.
pub open spec fn board_wf(b: BoardInner<Color>) -> bool {
    hole_shape(b) && color_supply(b.tiles)
}

/// The cell at row `r`, column `c` of a board laid out from `colors` in
/// row-major order around an empty center.
pub open spec fn placed_cell(colors: Seq<Color>, r: int, c: int) -> Option<Color> {
    let k = 5 * r + c;
    if k == 12 {
        None
    } else if k < 12 {
        Some(colors[k])
    } else {
        Some(colors[k - 1])
    }
}

proof fn lemma_occupied_counts(s: Seq<Color>, c: Color)
    ensures
        occurrences(occupied(s), Some(c)) == occurrences(s, c),
        occurrences(occupied(s), None) == 0,
    decreases s.len(),
{
    broadcast use group_to_multiset_ensures;

    if s.len() > 0 {
        let t = s.drop_last();
        lemma_occupied_counts(t, c);
        assert(s =~= t.push(s.last()));
        assert(occupied(s) =~= occupied(t).push(Some(s.last())));
    }
}

/// The grid laid out from `colors` holds each color as often as `colors` does,
/// and one empty cell.
proof fn lemma_placed_counts(tiles: BoardTiles<Color>, colors: Seq<Color>, c: Color)
    requires
        colors.len() == TILE_COUNT,
        forall|r: int, k: int|
            0 <= r < 5 && 0 <= k < 5 ==> #[trigger] cell(tiles, r, k) == placed_cell(colors, r, k),
    ensures
        occurrences(grid_cells(tiles), Some(c)) == occurrences(colors, c),
        occurrences(grid_cells(tiles), None) == 1,
{
    broadcast use group_to_multiset_ensures;

    let front = colors.subrange(0, 12);
    let back = colors.subrange(12, 24);
    let g = grid_cells(tiles);
    assert(g =~= occupied(front) + seq![None] + occupied(back)) by {
        assert forall|k: int| 0 <= k < 25 implies #[trigger] g[k] == (occupied(front) + seq![None]
            + occupied(back))[k] by {
            assert(cell(tiles, k / 5, k % 5) == placed_cell(colors, k / 5, k % 5));
        }
    }
    assert(colors =~= front + back);
    lemma_multiset_commutative(front, back);
    lemma_multiset_commutative(occupied(front) + seq![None], occupied(back));
    lemma_multiset_commutative(occupied(front), seq![None]);
    lemma_occupied_counts(front, c);
    lemma_occupied_counts(back, c);
    assert(seq![None::<Color>] =~= Seq::<Option<Color>>::empty().push(None));
}

/// How often the color at position `ci` of the color order occurs among the
/// first `n` tiles of the unshuffled supply, which holds four of each color in
/// that order.
pub open spec fn supply_prefix_count(n: int, ci: int) -> int {
    if n <= 4 * ci {
        0
    } else if n >= 4 * ci + 4 {
        4
    } else {
        n - 4 * ci
    }
}

/// Four tiles of each color, in color order.
fn color_supply_vec() -> (v: Vec<Color>)
    ensures
        v@.len() == TILE_COUNT,
        forall|c: Color| #[trigger] occurrences(v@, c) == TILES_PER_COLOR,
{
    broadcast use group_to_multiset_ensures;

    let mut v: Vec<Color> = Vec::new();
    let mut ci: usize = 0;
    while ci < COLOR_COUNT
        invariant
            ci <= COLOR_COUNT,
            v@.len() == 4 * ci,
            forall|c: Color| #[trigger] occurrences(v@, c) == supply_prefix_count(v@.len() as int, color_index(c)),
        decreases COLOR_COUNT - ci,
    {
        let color = Color::from_index(ci);
        let mut k: usize = 0;
        while k < TILES_PER_COLOR
            invariant
                ci < COLOR_COUNT,
                k <= TILES_PER_COLOR,
                color_index(color) == ci,
                v@.len() == 4 * ci + k,
                forall|c: Color| #[trigger] occurrences(v@, c) == supply_prefix_count(v@.len() as int, color_index(c)),
            decreases TILES_PER_COLOR - k,
        {
            let ghost before = v@;
            v.push(color);
            assert(v@ =~= before.push(color));
            assert forall|c: Color| #[trigger] occurrences(v@, c) == supply_prefix_count(v@.len() as int, color_index(c)) by {
                to_multiset_build(before, color);
                assert(occurrences(v@, c) == occurrences(before, c) + if c == color { 1int } else { 0int });
                assert(c == color <==> color_index(c) == color_index(color));
            }
            k = k + 1;
        }
        ci = ci + 1;
    }
    v
}

/// Relies on rand's `SliceRandom::shuffle`, which permutes the slice in place
/// by swapping its elements.
#[verifier::external_body]
fn shuffle_colors(colors: &mut Vec<Color>)
    ensures
        final(colors)@.to_multiset() == old(colors)@.to_multiset(),
{
    rand::seq::SliceRandom::shuffle(colors.as_mut_slice(), &mut rand::thread_rng())
}

/// Relies on rand's `Rng::gen_range`, which draws a value from the half-open
/// range it is given.
#[verifier::external_body]
fn random_index(bound: usize) -> (i: usize)
    requires
        bound > 0,
    ensures
        i < bound,
{
    rand::Rng::gen_range(&mut rand::thread_rng(), 0..bound)
}

/// A color drawn at random.
pub(crate) fn random_color() -> Color {
    Color::from_index(random_index(COLOR_COUNT))
}

/// A click that moves tiles keeps a single empty cell, which is the new hole.
pub proof fn lemma_click_keeps_hole_shape<T>(before: BoardInner<T>, pos: Pos, after: BoardInner<T>)
    requires
        hole_shape(before),
        in_bounds(pos),
        is_slide_move(pos, before.hole),
        click_result(before, pos, after),
    ensures
        hole_shape(after),
{
    assert forall|r: int, c: int| 0 <= r < 5 && 0 <= c < 5 implies (#[trigger] cell(after.tiles, r, c) is None <==> (
    r == after.hole.0 && c == after.hole.1)) by {
        assert(cell(after.tiles, r, c) == slid_cell(before.tiles, pos, before.hole, r, c));
        if 0 < c {
            assert(cell(before.tiles, r, c - 1) is None ==> c - 1 == before.hole.1);
        }
        if c < 4 {
            assert(cell(before.tiles, r, c + 1) is None ==> c + 1 == before.hole.1);
        }
        if 0 < r {
            assert(cell(before.tiles, r - 1, c) is None ==> r - 1 == before.hole.0);
        }
        if r < 4 {
            assert(cell(before.tiles, r + 1, c) is None ==> r + 1 == before.hole.0);
        }
    }
}

impl<T: Copy> BoardInner<T> {
    /// Whether the hole lies on the board, its cell is empty and every other
    /// cell is occupied.
    pub fn has_hole_shape(&self) -> (r: bool)
        ensures
            r == hole_shape(*self),
    {
        if self.hole.0 >= 5 || self.hole.1 >= 5 {
            return false;
        }
        let mut i: usize = 0;
        while i < 5
            invariant
                i <= 5,
                in_bounds(self.hole),
                forall|r: int, c: int|
                    0 <= r < i && 0 <= c < 5 ==> (#[trigger] cell(self.tiles, r, c) is None <==> (r
                        == self.hole.0 && c == self.hole.1)),
            decreases 5 - i,
        {
            let mut j: usize = 0;
            while j < 5
                invariant
                    i < 5,
                    j <= 5,
                    in_bounds(self.hole),
                    forall|r: int, c: int|
                        0 <= r < 5 && 0 <= c < 5 && (r < i || (r == i && c < j)) ==> (
                        #[trigger] cell(self.tiles, r, c) is None <==> (r == self.hole.0 && c
                            == self.hole.1)),
                decreases 5 - j,
            {
                let empty = self.tiles[i][j].is_none();
                let at_hole = i == self.hole.0 && j == self.hole.1;
                if empty != at_hole {
                    assert(!(cell(self.tiles, i as int, j as int) is None <==> (i == self.hole.0
                        && j == self.hole.1)));
                    return false;
                }
                j = j + 1;
            }
            i = i + 1;
        }
        true
    }
}

/// The cell at row `r`, column `c` of a grid given in row-major order.
pub open spec fn at<T>(g: Seq<Option<T>>, r: int, c: int) -> Option<T> {
    g[5 * r + c]
}

/// `slid_cell` on a grid given in row-major order.
pub open spec fn slid_at<T>(g: Seq<Option<T>>, pos: Pos, hole: Pos, r: int, c: int) -> Option<T> {
    if r == pos.0 && c == pos.1 {
        None
    } else if pos.0 == hole.0 && r == pos.0 && pos.1 < c <= hole.1 {
        at(g, r, c - 1)
    } else if pos.0 == hole.0 && r == pos.0 && hole.1 <= c < pos.1 {
        at(g, r, c + 1)
    } else if pos.1 == hole.1 && c == pos.1 && pos.0 < r <= hole.0 {
        at(g, r - 1, c)
    } else if pos.1 == hole.1 && c == pos.1 && hole.0 <= r < pos.0 {
        at(g, r + 1, c)
    } else {
        at(g, r, c)
    }
}

/// The row-major grid after a click at `pos` on a grid whose hole is `hole`.
pub open spec fn slid_seq<T>(g: Seq<Option<T>>, pos: Pos, hole: Pos) -> Seq<Option<T>> {
    Seq::new(25, |k: int| slid_at(g, pos, hole, k / 5, k % 5))
}

/// The cell next to `hole`, one step toward `pos` along their common line.
pub open spec fn step_toward(pos: Pos, hole: Pos) -> Pos {
    if pos.0 == hole.0 {
        if pos.1 < hole.1 {
            (hole.0, (hole.1 - 1) as usize)
        } else {
            (hole.0, (hole.1 + 1) as usize)
        }
    } else {
        if pos.0 < hole.0 {
            ((hole.0 - 1) as usize, hole.1)
        } else {
            ((hole.0 + 1) as usize, hole.1)
        }
    }
}

/// How many steps the hole is from `pos`.
pub open spec fn distance(pos: Pos, hole: Pos) -> nat {
    let dr = if pos.0 < hole.0 { hole.0 - pos.0 } else { pos.0 - hole.0 };
    let dc = if pos.1 < hole.1 { hole.1 - pos.1 } else { pos.1 - hole.1 };
    (dr + dc) as nat
}

/// Swapping the empty cell `kh` with cell `k1` keeps the grid's contents.
proof fn lemma_swap_keeps_contents<T>(g: Seq<Option<T>>, kh: int, k1: int)
    requires
        0 <= kh < g.len(),
        0 <= k1 < g.len(),
        kh != k1,
        g[kh] is None,
    ensures
        g.update(kh, g[k1]).update(k1, None).to_multiset() == g.to_multiset(),
{
    broadcast use vstd::multiset::group_multiset_axioms;
    broadcast use group_to_multiset_ensures;

    let g1 = g.update(kh, g[k1]);
    to_multiset_update(g, kh, g[k1]);
    to_multiset_update(g1, k1, None);
    assert(g.contains(g[kh]));
    assert(g1[k1] == g[k1]);
    assert(g.update(kh, g[k1]).update(k1, None).to_multiset() =~= g.to_multiset());
}

/// Moving the hole one step toward `pos`, then clicking `pos`, does what
/// clicking `pos` does.
proof fn lemma_step_then_slide<T>(g: Seq<Option<T>>, pos: Pos, hole: Pos, r: int, c: int)
    requires
        g.len() == 25,
        in_bounds(pos),
        in_bounds(hole),
        is_slide_move(pos, hole),
        step_toward(pos, hole) != pos,
        0 <= r < 5 && 0 <= c < 5,
    ensures
        ({
            let h1 = step_toward(pos, hole);
            let mid = g.update(5 * hole.0 + hole.1, g[5 * h1.0 + h1.1]).update(5 * h1.0 + h1.1, None);
            slid_at(g, pos, hole, r, c) == slid_at(mid, pos, h1, r, c)
        }),
{
}

/// Moving the hole one step onto `pos` does what clicking `pos` does.
proof fn lemma_last_step<T>(g: Seq<Option<T>>, pos: Pos, hole: Pos, r: int, c: int)
    requires
        g.len() == 25,
        in_bounds(pos),
        in_bounds(hole),
        is_slide_move(pos, hole),
        step_toward(pos, hole) == pos,
        0 <= r < 5 && 0 <= c < 5,
    ensures
        ({
            let h1 = step_toward(pos, hole);
            let mid = g.update(5 * hole.0 + hole.1, g[5 * h1.0 + h1.1]).update(5 * h1.0 + h1.1, None);
            slid_at(g, pos, hole, r, c) == at(mid, r, c)
        }),
{
}

/// A click rearranges the cells without adding or losing any: it is the
/// hole swapping places with its neighbor, step by step, up to the clicked
/// cell.
proof fn lemma_slid_seq_permutes<T>(g: Seq<Option<T>>, pos: Pos, hole: Pos)
    requires
        g.len() == 25,
        in_bounds(pos),
        in_bounds(hole),
        is_slide_move(pos, hole),
        at(g, hole.0 as int, hole.1 as int) is None,
    ensures
        slid_seq(g, pos, hole).to_multiset() == g.to_multiset(),
    decreases distance(pos, hole),
{
    let h1 = step_toward(pos, hole);
    let kh = 5 * hole.0 + hole.1;
    let k1 = 5 * h1.0 + h1.1;
    let mid = g.update(kh, g[k1]).update(k1, None);
    lemma_swap_keeps_contents(g, kh, k1);
    if h1 == pos {
        assert forall|k: int| 0 <= k < 25 implies #[trigger] slid_seq(g, pos, hole)[k] == mid[k] by {
            lemma_last_step(g, pos, hole, k / 5, k % 5);
        }
        assert(slid_seq(g, pos, hole) =~= mid);
    } else {
        assert(at(mid, h1.0 as int, h1.1 as int) is None);
        lemma_slid_seq_permutes(mid, pos, h1);
        assert forall|k: int| 0 <= k < 25 implies #[trigger] slid_seq(g, pos, hole)[k] == slid_seq(
            mid,
            pos,
            h1,
        )[k] by {
            lemma_step_then_slide(g, pos, hole, k / 5, k % 5);
        }
        assert(slid_seq(g, pos, hole) =~= slid_seq(mid, pos, h1));
    }
}

proof fn lemma_grid_cell(tiles: BoardTiles<Color>, r: int, c: int)
    requires
        0 <= r < 5 && 0 <= c < 5,
    ensures
        at(grid_cells(tiles), r, c) == cell(tiles, r, c),
{
    assert((5 * r + c) / 5 == r && (5 * r + c) % 5 == c);
}

/// A click that moves tiles keeps every tile, so the board keeps four tiles
/// of each color.
pub proof fn lemma_click_keeps_colors(before: BoardInner, pos: Pos, after: BoardInner)
    requires
        hole_shape(before),
        in_bounds(pos),
        is_slide_move(pos, before.hole),
        click_result(before, pos, after),
    ensures
        grid_cells(after.tiles).to_multiset() == grid_cells(before.tiles).to_multiset(),
        color_supply(before.tiles) ==> color_supply(after.tiles),
{
    let g = grid_cells(before.tiles);
    let hole = before.hole;
    lemma_grid_cell(before.tiles, hole.0 as int, hole.1 as int);
    lemma_slid_seq_permutes(g, pos, hole);
    assert forall|k: int| 0 <= k < 25 implies #[trigger] grid_cells(after.tiles)[k] == slid_seq(
        g,
        pos,
        hole,
    )[k] by {
        let r = k / 5;
        let c = k % 5;
        assert(cell(after.tiles, r, c) == slid_cell(before.tiles, pos, hole, r, c));
        lemma_grid_cell(before.tiles, r, c);
        if 0 < c {
            lemma_grid_cell(before.tiles, r, c - 1);
        }
        if c < 4 {
            lemma_grid_cell(before.tiles, r, c + 1);
        }
        if 0 < r {
            lemma_grid_cell(before.tiles, r - 1, c);
        }
        if r < 4 {
            lemma_grid_cell(before.tiles, r + 1, c);
        }
    }
    assert(grid_cells(after.tiles) =~= slid_seq(g, pos, hole));
    if color_supply(before.tiles) {
        assert forall|c: Color| #[trigger] occurrences(grid_cells(after.tiles), Some(c)) == TILES_PER_COLOR by {
            assert(occurrences(g, Some(c)) == TILES_PER_COLOR);
        }
    }
}

/// The server's view of a player's board: colors only.
pub struct Board(pub BoardInner);

impl Board {
    /// Lays `colors` out in row-major order over every cell but the center
    /// (2, 2), which becomes the hole.
    pub fn from_colors(colors: &Vec<Color>) -> (b: Board)
        requires
            colors@.len() == TILE_COUNT,
        ensures
            b.0.hole == (2usize, 2usize),
            forall|r: int, c: int|
                0 <= r < 5 && 0 <= c < 5 ==> #[trigger] cell(b.0.tiles, r, c) == placed_cell(
                    colors@,
                    r,
                    c,
                ),
    {
        let mut tiles: BoardTiles<Color> = [[None;5];5];
        let mut next: usize = 0;
        let mut i: usize = 0;
        while i < 5
            invariant
                i <= 5,
                colors@.len() == TILE_COUNT,
                next == if i <= 2 { 5 * i } else { 5 * i - 1 },
                forall|r: int, c: int|
                    0 <= r < i && 0 <= c < 5 ==> #[trigger] cell(tiles, r, c) == placed_cell(
                        colors@,
                        r,
                        c,
                    ),
            decreases 5 - i,
        {
            let mut j: usize = 0;
            while j < 5
                invariant
                    i < 5,
                    j <= 5,
                    colors@.len() == TILE_COUNT,
                    next == if 5 * i + j <= 12 { 5 * i + j } else { 5 * i + j - 1 },
                    forall|r: int, c: int|
                        0 <= r < i && 0 <= c < 5 ==> #[trigger] cell(tiles, r, c) == placed_cell(
                            colors@,
                            r,
                            c,
                        ),
                    forall|c: int|
                        0 <= c < j ==> #[trigger] cell(tiles, i as int, c) == placed_cell(
                            colors@,
                            i as int,
                            c,
                        ),
                decreases 5 - j,
            {
                let ghost before = tiles;
                if i == 2 && j == 2 {
                    tiles[i][j] = None;
                } else {
                    tiles[i][j] = Some(colors[next]);
                    next = next + 1;
                }
                assert forall|r: int, c: int|
                    0 <= r <= i && 0 <= c < 5 && (r < i || c < j) implies #[trigger] cell(
                        tiles,
                        r,
                        c,
                    ) == cell(before, r, c) by {
                    assert(r != i ==> tiles[r] == before[r]);
                }
                j = j + 1;
            }
            i = i + 1;
        }
        Board(BoardInner { tiles, hole: (2, 2) })
    }

    /// Handles a click at `pos` as `BoardInner::click_pos` does; a
    /// well-formed board stays well formed.
    pub fn click_tile(&mut self, pos: Pos) -> (moved: bool)
        requires
            in_bounds(pos),
            board_wf(old(self).0),
        ensures
            moved == is_slide_move(pos, old(self).0.hole),
            moved ==> click_result(old(self).0, pos, final(self).0),
            !moved ==> final(self).0 == old(self).0,
            board_wf(final(self).0),
    {
        let moved = self.0.click_pos(pos);
        proof {
            if moved {
                lemma_click_keeps_hole_shape(old(self).0, pos, self.0);
                lemma_click_keeps_colors(old(self).0, pos, self.0);
            }
        }
        moved
    }

    /// Whether the board's center shows `target`, as `BoardInner::matches_target`.
    pub fn matches_target(&self, target: &Target) -> (r: bool)
        ensures
            r == center_matches(self.0.tiles, *target),
    {
        self.0.matches_target(target)
    }

    /// A board with four tiles of each color in a random order, laid out
    /// around an empty center (2, 2), which is its hole.
    pub fn generate() -> (b: Board)
        ensures
            b.0.hole == (2usize, 2usize),
            board_wf(b.0),
            occurrences(grid_cells(b.0.tiles), None) == 1,
    {
        broadcast use group_to_multiset_ensures;

        let mut colors = color_supply_vec();
        let ghost supply = colors@;
        shuffle_colors(&mut colors);
        assert(colors@.len() == colors@.to_multiset().len());
        let b = Board::from_colors(&colors);
        proof {
            assert forall|c: Color| #[trigger] occurrences(grid_cells(b.0.tiles), Some(c)) == TILES_PER_COLOR by {
                lemma_placed_counts(b.0.tiles, colors@, c);
                assert(occurrences(supply, c) == TILES_PER_COLOR);
            }
            lemma_placed_counts(b.0.tiles, colors@, Color::White);
            assert forall|r: int, c: int|
                0 <= r < 5 && 0 <= c < 5 implies (#[trigger] cell(b.0.tiles, r, c) is None <==> (r == 2 && c == 2)) by {
                assert(cell(b.0.tiles, r, c) == placed_cell(colors@, r, c));
            }
        }
        b
    }
}

} // verus!
