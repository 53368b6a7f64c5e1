use vstd::prelude::*;

use crate::types::{cell, in_bounds, BoardInner, BoardTiles, Pos};

verus! {

/// A line of five cells: one row or one column of a board.
pub type Line<T> = [Option<T>; 5];

/// A click at `pos` moves tiles when it shares exactly one of row and column
/// with the hole.
pub open spec fn is_slide_move(pos: Pos, hole: Pos) -> bool {
    (pos.0 == hole.0) != (pos.1 == hole.1)
}

/// The cell at row `r`, column `c` after the tiles between `pos` and `hole`
/// have been pushed one step toward `hole` and `pos` has been emptied.
pub open spec fn slid_cell<T>(tiles: BoardTiles<T>, pos: Pos, hole: Pos, r: int, c: int) -> Option<T> {
    if r == pos.0 && c == pos.1 {
        None
    } else if pos.0 == hole.0 && r == pos.0 && pos.1 < c <= hole.1 {
        cell(tiles, r, c - 1)
    } else if pos.0 == hole.0 && r == pos.0 && hole.1 <= c < pos.1 {
        cell(tiles, r, c + 1)
    } else if pos.1 == hole.1 && c == pos.1 && pos.0 < r <= hole.0 {
        cell(tiles, r - 1, c)
    } else if pos.1 == hole.1 && c == pos.1 && hole.0 <= r < pos.0 {
        cell(tiles, r + 1, c)
    } else {
        cell(tiles, r, c)
    }
}

/// Moves the cells `lo..hi` of `line` one step up, to `lo + 1..=hi`, and
/// empties `lo`.
fn push_up<T: Copy>(line: &mut Line<T>, lo: usize, hi: usize)
    requires
        lo < hi < 5,
    ensures
        forall|c: int|
            0 <= c < 5 ==> #[trigger] final(line)[c] == if c == lo {
                None
            } else if lo < c <= hi {
                old(line)[c - 1]
            } else {
                old(line)[c]
            },
{
    let mut i: usize = hi;
    while i > lo
        invariant
            lo <= i <= hi < 5,
            forall|c: int| 0 <= c <= i ==> #[trigger] line[c] == old(line)[c],
            forall|c: int| hi < c < 5 ==> #[trigger] line[c] == old(line)[c],
            forall|c: int| i < c <= hi ==> #[trigger] line[c] == old(line)[c - 1],
        decreases i,
    {
        let v = line[i - 1];
        line[i] = v;
        i = i - 1;
    }
    line[lo] = None;
}

/// Moves the cells `lo + 1..=hi` of `line` one step down, to `lo..hi`, and
/// empties `hi`.
fn push_down<T: Copy>(line: &mut Line<T>, lo: usize, hi: usize)
    requires
        lo < hi < 5,
    ensures
        forall|c: int|
            0 <= c < 5 ==> #[trigger] final(line)[c] == if c == hi {
                None
            } else if lo <= c < hi {
                old(line)[c + 1]
            } else {
                old(line)[c]
            },
{
    let mut i: usize = lo;
    while i < hi
        invariant
            lo <= i <= hi < 5,
            forall|c: int| i <= c < 5 ==> #[trigger] line[c] == old(line)[c],
            forall|c: int| 0 <= c < lo ==> #[trigger] line[c] == old(line)[c],
            forall|c: int| lo <= c < i ==> #[trigger] line[c] == old(line)[c + 1],
        decreases hi - i,
    {
        let v = line[i + 1];
        line[i] = v;
        i = i + 1;
    }
    line[hi] = None;
}

/// Slides the tiles between `pos` and `hole` one step toward `hole` and
/// empties `pos`, when `pos` shares exactly one of row and column with
/// `hole`; returns whether it did. Otherwise `tiles` is left as it was.
pub fn slide<T: Copy>(pos: Pos, hole: Pos, tiles: &mut BoardTiles<T>) -> (moved: bool)
    requires
        in_bounds(pos),
        in_bounds(hole),
    ensures
        moved == is_slide_move(pos, hole),
        moved ==> forall|r: int, c: int|
            0 <= r < 5 && 0 <= c < 5 ==> #[trigger] cell(*final(tiles), r, c) == slid_cell(
                *old(tiles),
                pos,
                hole,
                r,
                c,
            ),
        !moved ==> *final(tiles) == *old(tiles),
{
    if pos.0 == hole.0 && pos.1 != hole.1 {
        let mut line = tiles[pos.0];
        if pos.1 < hole.1 {
            push_up(&mut line, pos.1, hole.1);
        } else {
            push_down(&mut line, hole.1, pos.1);
        }
        tiles[pos.0] = line;
        true
    } else if pos.1 == hole.1 && pos.0 != hole.0 {
        let c = pos.1;
        let mut line: Line<T> = [tiles[0][c], tiles[1][c], tiles[2][c], tiles[3][c], tiles[4][c]];
        if pos.0 < hole.0 {
            push_up(&mut line, pos.0, hole.0);
        } else {
            push_down(&mut line, hole.0, pos.0);
        }
        let mut r: usize = 0;
        while r < 5
            invariant
                c < 5,
                forall|a: int, b: int|
                    0 <= a < r && 0 <= b < 5 ==> #[trigger] cell(*tiles, a, b) == if b == c {
                        line[a]
                    } else {
                        cell(*old(tiles), a, b)
                    },
                forall|a: int| r <= a < 5 ==> #[trigger] tiles[a] == old(tiles)[a],
            decreases 5 - r,
        {
            let ghost before = *tiles;
            tiles[r][c] = line[r];
            assert forall|b: int| 0 <= b < 5 implies #[trigger] cell(*tiles, r as int, b) == if b
                == c {
                line[r as int]
            } else {
                cell(*old(tiles), r as int, b)
            } by {
                assert(before[r as int] == old(tiles)[r as int]);
            }
            assert forall|a: int, b: int| 0 <= a < r && 0 <= b < 5 implies #[trigger] cell(
                *tiles,
                a,
                b,
            ) == cell(before, a, b) by {
                assert(tiles[a] == before[a]);
            }
            r = r + 1;
        }
        true
    } else {
        false
    }
}

/// `after` is `before` once a click at `pos` has moved tiles: the hole is at
/// `pos` and every cell is as `slid_cell` gives it.
pub open spec fn click_result<T>(before: BoardInner<T>, pos: Pos, after: BoardInner<T>) -> bool {
    &&& after.hole == pos
    &&& forall|r: int, c: int|
        0 <= r < 5 && 0 <= c < 5 ==> #[trigger] cell(after.tiles, r, c) == slid_cell(
            before.tiles,
            pos,
            before.hole,
            r,
            c,
        )
}

/// Whether the cell at row `r`, column `c` lies on the straight run of cells
/// from `pos` to `hole`, both ends included.
pub open spec fn on_segment(pos: Pos, hole: Pos, r: int, c: int) -> bool {
    if pos.0 == hole.0 {
        r == pos.0 && (pos.1 <= c <= hole.1 || hole.1 <= c <= pos.1)
    } else {
        c == pos.1 && (pos.0 <= r <= hole.0 || hole.0 <= r <= pos.0)
    }
}

/// The cells from `pos` to `hole`, both ends included, in order of increasing
/// column (same row) or increasing row (same column).
pub open spec fn segment<T>(tiles: BoardTiles<T>, pos: Pos, hole: Pos) -> Seq<Option<T>> {
    if pos.0 == hole.0 {
        let lo: int = if pos.1 < hole.1 { pos.1 as int } else { hole.1 as int };
        let hi: int = if pos.1 < hole.1 { hole.1 as int } else { pos.1 as int };
        Seq::new((hi - lo + 1) as nat, |k: int| cell(tiles, pos.0 as int, lo + k))
    } else {
        let lo: int = if pos.0 < hole.0 { pos.0 as int } else { hole.0 as int };
        let hi: int = if pos.0 < hole.0 { hole.0 as int } else { pos.0 as int };
        Seq::new((hi - lo + 1) as nat, |k: int| cell(tiles, lo + k, pos.1 as int))
    }
}

/// `s` rotated by one place: toward higher indices when `up` (the last element
/// comes first), toward lower indices otherwise (the first element goes last).
pub open spec fn rotated<A>(s: Seq<A>, up: bool) -> Seq<A> {
    if up {
        seq![s.last()] + s.drop_last()
    } else {
        s.drop_first().push(s.first())
    }
}

/// Whether a click at `pos` pushes tiles toward higher indices of the line it
/// shares with `hole`.
pub open spec fn pushes_up(pos: Pos, hole: Pos) -> bool {
    if pos.0 == hole.0 {
        pos.1 < hole.1
    } else {
        pos.0 < hole.0
    }
}

/// A click that moves tiles on a board whose hole is empty puts the hole at
/// the clicked cell, leaves that cell empty, rotates the run of cells between
/// the click and the old hole by one place, and changes no other cell.
pub proof fn lemma_slide_rotates_segment<T>(before: BoardInner<T>, pos: Pos, after: BoardInner<T>)
    requires
        in_bounds(pos),
        in_bounds(before.hole),
        cell(before.tiles, before.hole.0 as int, before.hole.1 as int) == None::<T>,
        is_slide_move(pos, before.hole),
        click_result(before, pos, after),
    ensures
        after.hole == pos,
        cell(after.tiles, pos.0 as int, pos.1 as int) == None::<T>,
        segment(after.tiles, pos, before.hole) == rotated(
            segment(before.tiles, pos, before.hole),
            pushes_up(pos, before.hole),
        ),
        forall|r: int, c: int|
            0 <= r < 5 && 0 <= c < 5 && !on_segment(pos, before.hole, r, c) ==> #[trigger] cell(
                after.tiles,
                r,
                c,
            ) == cell(before.tiles, r, c),
{
    let hole = before.hole;
    let a = segment(after.tiles, pos, hole);
    let b = segment(before.tiles, pos, hole);
    assert(cell(after.tiles, pos.0 as int, pos.1 as int) == slid_cell(
        before.tiles,
        pos,
        hole,
        pos.0 as int,
        pos.1 as int,
    ));
    assert(a =~= rotated(b, pushes_up(pos, hole))) by {
        let r = rotated(b, pushes_up(pos, hole));
        assert(a.len() == r.len());
        assert forall|k: int| 0 <= k < a.len() implies a[k] == r[k] by {
            if pos.0 == hole.0 {
                let lo: int = if pos.1 < hole.1 { pos.1 as int } else { hole.1 as int };
                assert(a[k] == slid_cell(before.tiles, pos, hole, pos.0 as int, lo + k));
            } else {
                let lo: int = if pos.0 < hole.0 { pos.0 as int } else { hole.0 as int };
                assert(a[k] == slid_cell(before.tiles, pos, hole, lo + k, pos.1 as int));
            }
        }
    }
    assert forall|r: int, c: int|
        0 <= r < 5 && 0 <= c < 5 && !on_segment(pos, hole, r, c) implies #[trigger] cell(
            after.tiles,
            r,
            c,
        ) == cell(before.tiles, r, c) by {
        assert(cell(after.tiles, r, c) == slid_cell(before.tiles, pos, hole, r, c));
    }
}

impl<T: Copy> BoardInner<T> {
    /// Handles a click at `pos`: when it shares exactly one of row and column
    /// with the hole, the tiles between them slide one step toward the hole,
    /// the hole moves to `pos`, and the result is `true`. Otherwise nothing
    /// changes and the result is `false`.
    pub fn click_pos(&mut self, pos: Pos) -> (moved: bool)
        requires
            in_bounds(pos),
            in_bounds(old(self).hole),
        ensures
            moved == is_slide_move(pos, old(self).hole),
            moved ==> click_result(*old(self), pos, *final(self)),
            !moved ==> *final(self) == *old(self),
    {
        let hole = self.hole;
        if !slide(pos, hole, &mut self.tiles) {
            return false;
        }
        self.hole = pos;
        true
    }
}

} // verus!
