use rubiks_race::board::Board;
use rubiks_race::types::{BoardInner, BoardTiles, Color};
use rubiks_race::utils::slide;

const ORDER: [Color; 6] = [
    Color::White,
    Color::Yellow,
    Color::Orange,
    Color::Red,
    Color::Green,
    Color::Blue,
];

fn supply() -> Vec<Color> {
    let mut v = Vec::new();
    for k in 0..24 {
        v.push(ORDER[k / 4]);
    }
    v
}

/// Row 2 holds five distinct labels: White, Yellow, hole, Red, Green.
fn labeled_board() -> BoardInner {
    let mut tiles: BoardTiles = [[Some(Color::Blue); 5]; 5];
    tiles[2] = [
        Some(Color::White),
        Some(Color::Yellow),
        None,
        Some(Color::Red),
        Some(Color::Green),
    ];
    BoardInner { tiles, hole: (2, 2) }
}

#[test]
fn click_left_of_hole_shifts_row_right() {
    let mut b = labeled_board();
    let before = b;
    assert!(b.click_pos((2, 0)));
    assert_eq!(b.hole, (2, 0));
    assert_eq!(b.tiles[2][0], None);
    assert_eq!(b.tiles[2][1], Some(Color::White));
    assert_eq!(b.tiles[2][2], Some(Color::Yellow));
    assert_eq!(b.tiles[2][3], Some(Color::Red));
    assert_eq!(b.tiles[2][4], Some(Color::Green));
    for r in 0..5 {
        if r != 2 {
            assert_eq!(b.tiles[r], before.tiles[r]);
        }
    }
}

#[test]
fn click_right_of_hole_shifts_row_left() {
    let mut b = labeled_board();
    assert!(b.click_pos((2, 4)));
    assert_eq!(b.hole, (2, 4));
    assert_eq!(
        b.tiles[2],
        [
            Some(Color::White),
            Some(Color::Yellow),
            Some(Color::Red),
            Some(Color::Green),
            None
        ]
    );
}

#[test]
fn click_in_column_shifts_column() {
    let mut b = Board::from_colors(&supply()).0;
    let before = b;
    assert!(b.click_pos((0, 2)));
    assert_eq!(b.hole, (0, 2));
    assert_eq!(b.tiles[0][2], None);
    assert_eq!(b.tiles[1][2], before.tiles[0][2]);
    assert_eq!(b.tiles[2][2], before.tiles[1][2]);
    for r in 0..5 {
        for c in 0..5 {
            if c != 2 || r > 2 {
                assert_eq!(b.tiles[r][c], before.tiles[r][c]);
            }
        }
    }
    assert!(b.click_pos((4, 2)));
    assert_eq!(b.hole, (4, 2));
    assert_eq!(b.tiles[4][2], None);
    assert_eq!(b.tiles[0][2], before.tiles[0][2]);
    assert_eq!(b.tiles[1][2], before.tiles[1][2]);
    assert_eq!(b.tiles[2][2], before.tiles[3][2]);
    assert_eq!(b.tiles[3][2], before.tiles[4][2]);
}

#[test]
fn click_off_line_or_on_hole_changes_nothing() {
    let mut b = labeled_board();
    let before = b;
    assert!(!b.click_pos((0, 0)));
    assert_eq!(b, before);
    assert!(!b.click_pos((2, 2)));
    assert_eq!(b, before);
    assert!(!b.click_pos((4, 3)));
    assert_eq!(b, before);
}

#[test]
fn slide_reports_moves_and_leaves_hole_position_to_caller() {
    let mut tiles = labeled_board().tiles;
    assert!(slide((2, 3), (2, 2), &mut tiles));
    assert_eq!(tiles[2][2], Some(Color::Red));
    assert_eq!(tiles[2][3], None);
    let before = tiles;
    assert!(!slide((1, 1), (2, 3), &mut tiles));
    assert_eq!(tiles, before);
}

#[test]
fn board_click_tile_matches_inner_click() {
    let mut board = Board::from_colors(&supply());
    assert!(board.click_tile((2, 4)));
    assert_eq!(board.0.hole, (2, 4));
    assert_eq!(board.0.tiles[2][1], Some(Color::Orange));
    assert_eq!(board.0.tiles[2][2], Some(Color::Red));
    assert_eq!(board.0.tiles[2][3], Some(Color::Red));
    assert_eq!(board.0.tiles[2][4], None);
    assert!(!board.click_tile((0, 0)));
}

#[test]
fn from_colors_lays_out_row_major_around_center() {
    let colors = supply();
    let b = Board::from_colors(&colors).0;
    assert_eq!(b.hole, (2, 2));
    assert_eq!(b.tiles[2][2], None);
    let mut k = 0;
    for r in 0..5 {
        for c in 0..5 {
            if (r, c) != (2, 2) {
                assert_eq!(b.tiles[r][c], Some(colors[k]));
                k += 1;
            }
        }
    }
    assert!(b.has_hole_shape());
}

#[test]
fn hole_shape_check_rejects_malformed_boards() {
    let good = labeled_board();
    assert!(good.has_hole_shape());
    let mut two_holes = good;
    two_holes.tiles[0][0] = None;
    assert!(!two_holes.has_hole_shape());
    let mut no_hole = good;
    no_hole.tiles[2][2] = Some(Color::Red);
    assert!(!no_hole.has_hole_shape());
    let mut off_board = good;
    off_board.hole = (5, 2);
    assert!(!off_board.has_hole_shape());
}

#[test]
fn matches_target_compares_center() {
    let b = labeled_board();
    let target = [
        [Color::Blue, Color::Blue, Color::Blue],
        [Color::Yellow, Color::Blue, Color::Red],
        [Color::Blue, Color::Blue, Color::Blue],
    ];
    // the center cell (2, 2) is the hole, so nothing matches yet
    assert!(!b.matches_target(&target));
    let mut filled = b;
    filled.tiles[2][2] = Some(Color::Blue);
    assert!(filled.matches_target(&target));
    let mut wrong = filled;
    wrong.tiles[3][3] = Some(Color::White);
    assert!(!wrong.matches_target(&target));
}

#[test]
fn matches_target_is_stable() {
    let mut b = labeled_board();
    b.tiles[2][2] = Some(Color::Blue);
    let target = [[Color::Blue; 3], [Color::Yellow, Color::Blue, Color::Red], [Color::Blue; 3]];
    let first = b.matches_target(&target);
    let second = b.matches_target(&target);
    assert_eq!(first, second);
    assert!(first);
    let other = [[Color::White; 3]; 3];
    assert_eq!(b.matches_target(&other), b.matches_target(&other));
    assert!(!b.matches_target(&other));
}

#[test]
fn color_index_round_trips() {
    for i in 0..6 {
        assert_eq!(Color::from_index(i).index(), i);
        assert_eq!(Color::from_index(i), ORDER[i]);
    }
}
