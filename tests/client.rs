use rubiks_race::client::{ClientSession, State};
use rubiks_race::client_board::ClientBoard;
use rubiks_race::types::{BoardInner, BoardTiles, ClientMessage, Color, GameStart, ServerMessage, Target};

fn fixture() -> BoardInner {
    let mut tiles: BoardTiles = [[Some(Color::Blue); 5]; 5];
    tiles[2] = [
        Some(Color::White),
        Some(Color::Yellow),
        None,
        Some(Color::Red),
        Some(Color::Green),
    ];
    BoardInner { tiles, hole: (2, 2) }
}

fn winning_target() -> Target {
    [
        [Color::Blue; 3],
        [Color::White, Color::Yellow, Color::Red],
        [Color::Blue; 3],
    ]
}

fn start() -> ServerMessage {
    ServerMessage::GameStart(GameStart {
        target: winning_target(),
        board: fixture(),
        opponent_board: fixture(),
    })
}

fn playing() -> ClientSession {
    let mut s = ClientSession::new();
    assert!(!s.handle_server_message(start()));
    s
}

#[test]
fn client_board_numbers_tiles_row_major() {
    let b = ClientBoard::new(fixture());
    assert_eq!(b.inner.hole, (2, 2));
    assert_eq!(b.inner.tiles[0][0].unwrap().idx, 0);
    assert_eq!(b.inner.tiles[2][1].unwrap().idx, 11);
    assert_eq!(b.inner.tiles[2][3].unwrap().idx, 12);
    assert_eq!(b.locations[12], (2, 3));
    assert_eq!(b.locations[23], (4, 4));
    assert_eq!(b.colors(), fixture());
}

#[test]
fn client_board_click_moves_tiles_and_locations() {
    let mut b = ClientBoard::new(fixture());
    assert!(b.click_pos((2, 0)));
    assert_eq!(b.inner.hole, (2, 0));
    assert_eq!(b.inner.tiles[2][0], None);
    // tile 10 (White) moved from (2, 0) to (2, 1), tile 11 (Yellow) to (2, 2)
    assert_eq!(b.inner.tiles[2][1].unwrap().idx, 10);
    assert_eq!(b.inner.tiles[2][2].unwrap().idx, 11);
    assert_eq!(b.locations[10], (2, 1));
    assert_eq!(b.locations[11], (2, 2));
    assert_eq!(b.locations[12], (2, 3));
    assert!(b.matches_target(&winning_target()));
    assert!(!b.click_pos((0, 4)));
    assert!(b.click_pos((0, 0)));
    assert_eq!(b.locations[0], (1, 0));
    assert_eq!(b.locations[5], (2, 0));
    assert_eq!(b.inner.tiles[0][0], None);
}

#[test]
fn state_end_detection() {
    assert!(State::GameEnd { is_win: false }.is_end());
    assert!(State::OpponentLeft.is_end());
    assert!(State::ConnectionError.is_end());
    assert!(!State::Playing.is_end());
    assert!(!State::WaitGameEnd.is_end());
    assert!(!State::WaitingForOpponent.is_end());
}

#[test]
fn game_start_begins_play_once() {
    let mut s = playing();
    assert_eq!(s.state, State::Playing);
    assert_eq!(s.target, Some(winning_target()));
    assert!(!s.handle_server_message(start()));
    assert_eq!(s.state, State::Playing);
}

#[test]
fn malformed_game_start_is_a_connection_error() {
    let mut bad = fixture();
    bad.tiles[0][0] = None;
    let mut s = ClientSession::new();
    let msg = ServerMessage::GameStart(GameStart {
        target: winning_target(),
        board: bad,
        opponent_board: fixture(),
    });
    assert!(s.handle_server_message(msg));
    assert_eq!(s.state, State::ConnectionError);
}

#[test]
fn own_click_is_sent_and_winning_awaits_verdict() {
    let mut s = playing();
    assert_eq!(s.handle_click((0, 0)), None);
    assert_eq!(s.handle_click((2, 0)), Some(ClientMessage::Click { pos: (2, 0) }));
    assert_eq!(s.state, State::WaitGameEnd);
    // input is frozen while the verdict is awaited
    assert_eq!(s.handle_click((2, 1)), None);
    assert!(s.handle_server_message(ServerMessage::GameEnd { is_win: true }));
    assert_eq!(s.state, State::GameEnd { is_win: true });
}

#[test]
fn ordinary_click_keeps_playing() {
    let mut s = playing();
    assert_eq!(s.handle_click((2, 4)), Some(ClientMessage::Click { pos: (2, 4) }));
    assert_eq!(s.state, State::Playing);
    assert_eq!(s.board.as_ref().unwrap().inner.hole, (2, 4));
}

#[test]
fn opponent_click_moves_opponent_mirror_only_while_playing() {
    let mut s = playing();
    assert!(!s.handle_server_message(ServerMessage::OpponentClick { pos: (2, 0) }));
    assert_eq!(s.opponent_board.as_ref().unwrap().inner.hole, (2, 0));
    assert_eq!(s.board.as_ref().unwrap().inner.hole, (2, 2));
    let mut waiting = ClientSession::new();
    assert!(!waiting.handle_server_message(ServerMessage::OpponentClick { pos: (2, 0) }));
    assert_eq!(waiting.state, State::WaitingForOpponent);
    assert!(waiting.opponent_board.is_none());
}

#[test]
fn opponent_left_ends_a_running_session_once() {
    let mut s = playing();
    assert!(s.handle_server_message(ServerMessage::OpponentLeft));
    assert_eq!(s.state, State::OpponentLeft);
    assert!(!s.handle_server_message(ServerMessage::OpponentLeft));
    assert!(!s.handle_server_message(ServerMessage::GameEnd { is_win: true }));
    assert_eq!(s.state, State::OpponentLeft);
}

#[test]
fn game_end_while_waiting_for_opponent_is_ignored() {
    let mut s = ClientSession::new();
    assert!(!s.handle_server_message(ServerMessage::GameEnd { is_win: false }));
    assert_eq!(s.state, State::WaitingForOpponent);
}

#[test]
fn connection_loss_ends_only_a_running_session() {
    let mut s = playing();
    assert!(s.connection_lost());
    assert_eq!(s.state, State::ConnectionError);
    assert!(!s.connection_lost());
    let mut done = playing();
    done.handle_server_message(ServerMessage::GameEnd { is_win: false });
    assert!(!done.connection_lost());
    assert_eq!(done.state, State::GameEnd { is_win: false });
}

#[test]
fn tile_click_uses_the_tile_location() {
    let mut s = playing();
    // tile 10 is the White tile at (2, 0)
    assert_eq!(s.handle_tile_click(10), Some(ClientMessage::Click { pos: (2, 0) }));
    assert_eq!(s.state, State::WaitGameEnd);
    let mut waiting = ClientSession::new();
    assert_eq!(waiting.handle_tile_click(3), None);
}

#[test]
fn every_identity_stays_located_through_clicks() {
    let mut b = ClientBoard::new(fixture());
    for pos in [(2, 0), (0, 0), (0, 4), (4, 4), (4, 1), (1, 1)] {
        assert!(b.click_pos(pos));
        for k in 0..24 {
            let (r, c) = b.locations[k];
            assert_eq!(b.inner.tiles[r][c].unwrap().idx, k);
        }
    }
}
