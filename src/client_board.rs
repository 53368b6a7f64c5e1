use vstd::prelude::*;

use crate::board::{hole_shape, lemma_click_keeps_hole_shape};
use crate::types::{cell, center_matches, in_bounds, BoardInner, BoardTiles, Color, Pos, Target};
use crate::utils::{click_result, is_slide_move, slid_cell};

verus! {

/// A tile as the client tracks it: a stable identity, given once when the
/// board arrives, and its color.
#[derive(Debug, Clone, Copy, PartialEq, Eq)]
pub struct Tile {
    pub idx: usize,
    pub color: Color,
}

/// The client's mirror of a board: its tiles with their identities, and where
/// each identity currently lies.
pub struct ClientBoard {
    pub locations: [Pos; 24],
    pub inner: BoardInner<Tile>,
}

/// The color view of a cell.
pub open spec fn color_of(t: Option<Tile>) -> Option<Color> {
    match t {
        Some(tile) => Some(tile.color),
        None => None,
    }
}

/// The cell whose old content a click at `pos` brings to row `r`, column `c`.
pub open spec fn source(pos: Pos, hole: Pos, r: int, c: int) -> (int, int) {
    if pos.0 == hole.0 && r == pos.0 && pos.1 < c <= hole.1 {
        (r, c - 1)
    } else if pos.0 == hole.0 && r == pos.0 && hole.1 <= c < pos.1 {
        (r, c + 1)
    } else if pos.1 == hole.1 && c == pos.1 && pos.0 < r <= hole.0 {
        (r - 1, c)
    } else if pos.1 == hole.1 && c == pos.1 && hole.0 <= r < pos.0 {
        (r + 1, c)
    } else {
        (r, c)
    }
}

/// Every cell but the clicked one takes its content from its source cell,
/// which lies on the board and on the clicked cell's line.
proof fn lemma_source<T>(tiles: BoardTiles<T>, pos: Pos, hole: Pos, r: int, c: int)
    requires
        in_bounds(pos),
        in_bounds(hole),
        is_slide_move(pos, hole),
        0 <= r < 5 && 0 <= c < 5,
        !(r == pos.0 && c == pos.1),
    ensures
        ({
            let s = source(pos, hole, r, c);
            &&& 0 <= s.0 < 5 && 0 <= s.1 < 5
            &&& slid_cell(tiles, pos, hole, r, c) == cell(tiles, s.0, s.1)
            &&& (pos.0 == hole.0 ==> (s.0 == pos.0 <==> r == pos.0))
            &&& (pos.0 != hole.0 ==> (s.1 == pos.1 <==> c == pos.1))
        }),
{
}

/// The cell to which a click at `pos` brings the old content of row `r`,
/// column `c`.
pub open spec fn dest(pos: Pos, hole: Pos, r: int, c: int) -> (int, int) {
    if pos.0 == hole.0 && r == pos.0 && pos.1 <= c < hole.1 {
        (r, c + 1)
    } else if pos.0 == hole.0 && r == pos.0 && hole.1 < c <= pos.1 {
        (r, c - 1)
    } else if pos.1 == hole.1 && c == pos.1 && pos.0 <= r < hole.0 {
        (r + 1, c)
    } else if pos.1 == hole.1 && c == pos.1 && hole.0 < r <= pos.0 {
        (r - 1, c)
    } else {
        (r, c)
    }
}

/// Every cell but the hole keeps its content through a click: it lands on
/// the board, away from the clicked cell.
proof fn lemma_dest<T>(tiles: BoardTiles<T>, pos: Pos, hole: Pos, r: int, c: int)
    requires
        in_bounds(pos),
        in_bounds(hole),
        is_slide_move(pos, hole),
        0 <= r < 5 && 0 <= c < 5,
        !(r == hole.0 && c == hole.1),
    ensures
        ({
            let d = dest(pos, hole, r, c);
            &&& 0 <= d.0 < 5 && 0 <= d.1 < 5
            &&& !(d.0 == pos.0 && d.1 == pos.1)
            &&& slid_cell(tiles, pos, hole, d.0, d.1) == cell(tiles, r, c)
        }),
{
}

impl ClientBoard {
    /// Every identity below 24 is located on the board, at a cell holding
    /// the tile of that identity.
    pub open spec fn locates(self) -> bool {
        forall|k: int|
            0 <= k < 24 ==> {
                let l = #[trigger] self.locations[k];
                &&& l.0 < 5 && l.1 < 5
                &&& cell(self.inner.tiles, l.0 as int, l.1 as int) is Some
                &&& cell(self.inner.tiles, l.0 as int, l.1 as int)->Some_0.idx == k
            }
    }

    /// Every tile's identity is below 24 and its location is its cell.
    pub open spec fn tracks(self) -> bool {
        forall|r: int, c: int|
            0 <= r < 5 && 0 <= c < 5 && #[trigger] cell(self.inner.tiles, r, c) is Some ==> {
                let t = cell(self.inner.tiles, r, c)->Some_0;
                t.idx < 24 && self.locations[t.idx as int] == (r as usize, c as usize)
            }
    }

    /// One empty cell, at the hole, and every tile's location known.
    pub open spec fn wf(self) -> bool {
        hole_shape(self.inner) && self.tracks() && self.locates()
    }

    /// The colors of the cells, as on the server's board.
    pub open spec fn shows(self, b: BoardInner) -> bool {
        &&& b.hole == self.inner.hole
        &&& forall|r: int, c: int|
            0 <= r < 5 && 0 <= c < 5 ==> #[trigger] cell(b.tiles, r, c) == color_of(
                cell(self.inner.tiles, r, c),
            )
    }

    /// Mirrors `board`, numbering its tiles 0, 1, ... in row-major order.
    pub fn new(board: BoardInner) -> (b: ClientBoard)
        requires
            hole_shape(board),
        ensures
            b.wf(),
            b.shows(board),
    {
        let mut locations: [Pos; 24] = [(0, 0); 24];
        let mut tiles: BoardTiles<Tile> = [[None;5];5];
        let mut next: usize = 0;
        let mut i: usize = 0;
        while i < 5
            invariant
                i <= 5,
                hole_shape(board),
                next == 5 * i - if board.hole.0 < i { 1int } else { 0int },
                forall|r: int, c: int|
                    0 <= r < i && 0 <= c < 5 ==> #[trigger] color_of(cell(tiles, r, c)) == cell(
                        board.tiles,
                        r,
                        c,
                    ),
                forall|r: int, c: int|
                    0 <= r < i && 0 <= c < 5 && #[trigger] cell(tiles, r, c) is Some ==> {
                        let t = cell(tiles, r, c)->Some_0;
                        t.idx < next && locations[t.idx as int] == (r as usize, c as usize)
                    },
                forall|k: int|
                    0 <= k < next ==> {
                        let l = #[trigger] locations[k];
                        &&& l.0 < 5 && l.1 < 5
                        &&& l.0 < i
                        &&& cell(tiles, l.0 as int, l.1 as int) is Some
                        &&& cell(tiles, l.0 as int, l.1 as int)->Some_0.idx == k
                    },
            decreases 5 - i,
        {
            let mut j: usize = 0;
            while j < 5
                invariant
                    i < 5,
                    j <= 5,
                    hole_shape(board),
                    next == 5 * i + j - if board.hole.0 < i || (board.hole.0 == i && board.hole.1
                        < j) {
                        1int
                    } else {
                        0int
                    },
                    forall|r: int, c: int|
                        0 <= r < 5 && 0 <= c < 5 && (r < i || (r == i && c < j)) ==> #[trigger] color_of(
                            cell(tiles, r, c),
                        ) == cell(board.tiles, r, c),
                    forall|r: int, c: int|
                        0 <= r < 5 && 0 <= c < 5 && (r < i || (r == i && c < j)) && #[trigger] cell(
                            tiles,
                            r,
                            c,
                        ) is Some ==> {
                            let t = cell(tiles, r, c)->Some_0;
                            t.idx < next && locations[t.idx as int] == (r as usize, c as usize)
                        },
                    forall|k: int|
                        0 <= k < next ==> {
                            let l = #[trigger] locations[k];
                            &&& l.0 < 5 && l.1 < 5
                            &&& (l.0 < i || (l.0 == i && l.1 < j))
                            &&& cell(tiles, l.0 as int, l.1 as int) is Some
                            &&& cell(tiles, l.0 as int, l.1 as int)->Some_0.idx == k
                        },
                decreases 5 - j,
            {
                let ghost before = tiles;
                let ghost locs_before = locations;
                let ghost next_before = next;
                assert(cell(board.tiles, i as int, j as int) is None <==> (i == board.hole.0 && j
                    == board.hole.1));
                match board.tiles[i][j] {
                    Some(color) => {
                        tiles[i][j] = Some(Tile { idx: next, color });
                        locations[next] = (i, j);
                        next = next + 1;
                    },
                    None => {
                        tiles[i][j] = None;
                    },
                }
                assert forall|r: int, c: int|
                    0 <= r < 5 && 0 <= c < 5 && (r < i || (r == i && c <= j)) implies {
                        &&& color_of(#[trigger] cell(tiles, r, c)) == cell(board.tiles, r, c)
                        &&& cell(tiles, r, c) is Some ==> {
                            let t = cell(tiles, r, c)->Some_0;
                            t.idx < next && locations[t.idx as int] == (r as usize, c as usize)
                        }
                    } by {
                    if r == i && c == j {
                        assert(cell(tiles, r, c) == match cell(board.tiles, r, c) {
                            Some(color) => Some(Tile { idx: next_before, color }),
                            None => None,
                        });
                    } else {
                        assert(r != i ==> tiles[r] == before[r]);
                        assert(cell(tiles, r, c) == cell(before, r, c));
                        assert(color_of(cell(before, r, c)) == cell(board.tiles, r, c));
                        if cell(before, r, c) is Some {
                            let t = cell(before, r, c)->Some_0;
                            assert(t.idx < next_before);
                            assert(locations[t.idx as int] == locs_before[t.idx as int]);
                        }
                    }
                }
                assert forall|k: int| 0 <= k < next implies {
                    let l = #[trigger] locations[k];
                    &&& l.0 < 5 && l.1 < 5
                    &&& (l.0 < i || (l.0 == i && l.1 <= j))
                    &&& cell(tiles, l.0 as int, l.1 as int) is Some
                    &&& cell(tiles, l.0 as int, l.1 as int)->Some_0.idx == k
                } by {
                    if k < next_before {
                        let l = locs_before[k];
                        assert(locations[k] == l);
                        assert(l.0 != i ==> tiles[l.0 as int] == before[l.0 as int]);
                        assert(cell(tiles, l.0 as int, l.1 as int) == cell(before, l.0 as int, l.1 as int));
                    }
                }
                j = j + 1;
            }
            i = i + 1;
        }
        let b = ClientBoard { locations, inner: BoardInner { tiles, hole: board.hole } };
        assert forall|r: int, c: int| 0 <= r < 5 && 0 <= c < 5 implies (#[trigger] cell(b.inner.tiles, r, c) is None <==> (r == b.inner.hole.0
            && c == b.inner.hole.1)) by {
            assert(color_of(cell(tiles, r, c)) == cell(board.tiles, r, c));
        }
        assert forall|r: int, c: int|
            0 <= r < 5 && 0 <= c < 5 implies #[trigger] cell(board.tiles, r, c) == color_of(
                cell(b.inner.tiles, r, c),
            ) by {
            assert(color_of(cell(tiles, r, c)) == cell(board.tiles, r, c));
        }
        b
    }

    /// Handles a click at `pos` as `BoardInner::click_pos` does, and keeps
    /// the location of every tile up to date.
    pub fn click_pos(&mut self, pos: Pos) -> (moved: bool)
        requires
            old(self).wf(),
            in_bounds(pos),
        ensures
            final(self).wf(),
            moved == is_slide_move(pos, old(self).inner.hole),
            moved ==> click_result(old(self).inner, pos, final(self).inner),
            !moved ==> *final(self) == *old(self),
    {
        let hole = self.inner.hole;
        let moved = self.inner.click_pos(pos);
        if !moved {
            return false;
        }
        let ghost start = *old(self);
        proof {
            lemma_click_keeps_hole_shape(start.inner, pos, self.inner);
        }
        let ghost mid = self.inner;
        let row_move = pos.0 == hole.0;
        let mut k: usize = 0;
        while k < 5
            invariant
                k <= 5,
                self.inner == mid,
                hole == start.inner.hole,
                start.wf(),
                hole_shape(mid),
                in_bounds(pos),
                in_bounds(hole),
                is_slide_move(pos, hole),
                row_move == (pos.0 == hole.0),
                click_result(start.inner, pos, mid),
                forall|r: int, c: int|
                    0 <= r < 5 && 0 <= c < 5 && !(if row_move { r == pos.0 } else { c == pos.1 })
                        && #[trigger] cell(mid.tiles, r, c) is Some ==> {
                        let t = cell(mid.tiles, r, c)->Some_0;
                        t.idx < 24 && self.locations[t.idx as int] == (r as usize, c as usize)
                    },
                forall|r: int, c: int|
                    0 <= r < 5 && 0 <= c < 5 && (if row_move {
                        r == pos.0 && c < k
                    } else {
                        c == pos.1 && r < k
                    }) && #[trigger] cell(mid.tiles, r, c) is Some ==> {
                        let t = cell(mid.tiles, r, c)->Some_0;
                        t.idx < 24 && self.locations[t.idx as int] == (r as usize, c as usize)
                    },
            decreases 5 - k,
        {
            let (r, c) = if row_move {
                (pos.0, k)
            } else {
                (k, pos.1)
            };
            match self.inner.tiles[r][c] {
                Some(t) => {
                    let ghost src = source(pos, hole, r as int, c as int);
                    proof {
                        assert(cell(mid.tiles, r as int, c as int) == slid_cell(
                            start.inner.tiles,
                            pos,
                            hole,
                            r as int,
                            c as int,
                        ));
                        lemma_source(start.inner.tiles, pos, hole, r as int, c as int);
                        assert(cell(start.inner.tiles, src.0, src.1) == Some(t));
                    }
                    let ghost locs_before = self.locations;
                    self.locations[t.idx] = (r, c);
                    assert forall|y0: int, y1: int|
                        0 <= y0 < 5 && 0 <= y1 < 5 && (y0 != r || y1 != c) && #[trigger] cell(
                            mid.tiles,
                            y0,
                            y1,
                        ) is Some && (!(if row_move { y0 == pos.0 } else { y1 == pos.1 }) || (if row_move {
                            y0 == pos.0 && y1 < k
                        } else {
                            y1 == pos.1 && y0 < k
                        })) implies cell(mid.tiles, y0, y1)->Some_0.idx != t.idx by {
                        let u = cell(mid.tiles, y0, y1)->Some_0;
                        assert(cell(mid.tiles, y0, y1) == slid_cell(
                            start.inner.tiles,
                            pos,
                            hole,
                            y0,
                            y1,
                        ));
                        lemma_source(start.inner.tiles, pos, hole, y0, y1);
                        let sy = source(pos, hole, y0, y1);
                        assert(cell(start.inner.tiles, sy.0, sy.1) == Some(u));
                    }
                },
                None => {},
            }
            k = k + 1;
        }
        proof {
            assert forall|r: int, c: int|
                0 <= r < 5 && 0 <= c < 5 && #[trigger] cell(self.inner.tiles, r, c) is Some implies {
                    let t = cell(self.inner.tiles, r, c)->Some_0;
                    t.idx < 24 && self.locations[t.idx as int] == (r as usize, c as usize)
                } by {
                assert(cell(mid.tiles, r, c) is Some);
            }
            assert forall|k: int| 0 <= k < 24 implies {
                let l = #[trigger] self.locations[k];
                &&& l.0 < 5 && l.1 < 5
                &&& cell(self.inner.tiles, l.0 as int, l.1 as int) is Some
                &&& cell(self.inner.tiles, l.0 as int, l.1 as int)->Some_0.idx == k
            } by {
                let l = start.locations[k];
                let t = cell(start.inner.tiles, l.0 as int, l.1 as int)->Some_0;
                lemma_dest(start.inner.tiles, pos, hole, l.0 as int, l.1 as int);
                let d = dest(pos, hole, l.0 as int, l.1 as int);
                assert(cell(self.inner.tiles, d.0, d.1) == slid_cell(start.inner.tiles, pos, hole, d.0, d.1));
                assert(cell(self.inner.tiles, d.0, d.1) == Some(t));
            }
        }
        true
    }

    /// The server's view of this board: the same cells, colors only.
    pub fn colors(&self) -> (b: BoardInner)
        ensures
            self.shows(b),
    {
        let mut tiles: BoardTiles<Color> = [[None;5];5];
        let mut i: usize = 0;
        while i < 5
            invariant
                i <= 5,
                forall|r: int, c: int|
                    0 <= r < i && 0 <= c < 5 ==> #[trigger] cell(tiles, r, c) == color_of(
                        cell(self.inner.tiles, r, c),
                    ),
            decreases 5 - i,
        {
            let mut j: usize = 0;
            while j < 5
                invariant
                    i < 5,
                    j <= 5,
                    forall|r: int, c: int|
                        0 <= r < 5 && 0 <= c < 5 && (r < i || (r == i && c < j)) ==> #[trigger] cell(
                            tiles,
                            r,
                            c,
                        ) == color_of(cell(self.inner.tiles, r, c)),
                decreases 5 - j,
            {
                let ghost before = tiles;
                tiles[i][j] = match self.inner.tiles[i][j] {
                    Some(t) => Some(t.color),
                    None => None,
                };
                assert forall|r: int, c: int|
                    0 <= r < 5 && 0 <= c < 5 && (r < i || (r == i && c < j)) implies #[trigger] cell(
                        tiles,
                        r,
                        c,
                    ) == cell(before, r, c) by {
                    assert(r != i ==> tiles[r] == before[r]);
                }
                j = j + 1;
            }
            i = i + 1;
        }
        BoardInner { tiles, hole: self.inner.hole }
    }

    /// The board's center 3×3 cells are all occupied and show the target's
    /// colors.
    pub open spec fn center_shows(self, target: Target) -> bool {
        forall|i: int, j: int|
            0 <= i < 3 && 0 <= j < 3 ==> color_of(#[trigger] cell(self.inner.tiles, i + 1, j + 1))
                == Some(target[i][j])
    }

    /// Whether the board's center shows `target`, cell by cell.
    pub fn matches_target(&self, target: &Target) -> (r: bool)
        ensures
            r == self.center_shows(*target),
    {
        let b = self.colors();
        let r = b.matches_target(target);
        proof {
            if r {
                assert forall|i: int, j: int| 0 <= i < 3 && 0 <= j < 3 implies color_of(
                    #[trigger] cell(self.inner.tiles, i + 1, j + 1),
                ) == Some(target[i][j]) by {
                    assert(cell(b.tiles, i + 1, j + 1) == Some(target[i][j]));
                }
            } else {
                let (i, j) = choose|i: int, j: int|
                    0 <= i < 3 && 0 <= j < 3 && cell(b.tiles, i + 1, j + 1) != Some(target[i][j]);
                assert(cell(b.tiles, i + 1, j + 1) == color_of(cell(self.inner.tiles, i + 1, j + 1)));
            }
        }
        r
    }
}

} // verus!
