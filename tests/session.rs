use rubiks_race::board::Board;
use rubiks_race::session::{GameEvent, Outgoing, Session};
use rubiks_race::types::{BoardInner, ClientMessage, Color, GameStart, ServerMessage, Target};

/// Four tiles of each color in color order, laid out around the center hole.
fn fixture() -> BoardInner {
    let mut colors = Vec::new();
    for k in 0..24 {
        colors.push(Color::from_index(k / 4));
    }
    Board::from_colors(&colors).0
}

/// What the center of the fixture shows after a click at (2, 0).
fn winning_target() -> Target {
    [
        [Color::Yellow, Color::Yellow, Color::Orange],
        [Color::Orange, Color::Orange, Color::Red],
        [Color::Red, Color::Green, Color::Green],
    ]
}

fn click(id: usize, pos: (usize, usize)) -> GameEvent {
    GameEvent::Message { id, msg: ClientMessage::Click { pos } }
}

#[test]
fn start_messages_give_each_player_both_boards() {
    let a = fixture();
    let mut b = fixture();
    assert!(b.click_pos((2, 4)));
    let s = Session::new(winning_target(), Board(a), Board(b));
    let out = s.start_messages();
    assert_eq!(
        out,
        vec![
            Outgoing {
                to: 0,
                msg: ServerMessage::GameStart(GameStart { target: winning_target(), board: a, opponent_board: b }),
            },
            Outgoing {
                to: 1,
                msg: ServerMessage::GameStart(GameStart { target: winning_target(), board: b, opponent_board: a }),
            },
        ]
    );
}

#[test]
fn winning_click_ends_session_for_both_players() {
    let mut s = Session::new(winning_target(), Board(fixture()), Board(fixture()));
    let out = s.handle_event(click(0, (2, 0)));
    assert_eq!(
        out,
        vec![
            Outgoing { to: 1, msg: ServerMessage::OpponentClick { pos: (2, 0) } },
            Outgoing { to: 0, msg: ServerMessage::GameEnd { is_win: true } },
            Outgoing { to: 1, msg: ServerMessage::GameEnd { is_win: false } },
        ]
    );
    assert!(s.over);
    // events already queued behind the win are not processed
    assert_eq!(s.handle_event(click(1, (2, 0))), vec![]);
    assert_eq!(s.handle_event(GameEvent::Disconnected { id: 0 }), vec![]);
    assert_eq!(s.boards[1].0, fixture());
}

#[test]
fn ordinary_click_is_relayed_to_the_opponent() {
    let mut s = Session::new(winning_target(), Board(fixture()), Board(fixture()));
    let out = s.handle_event(click(1, (2, 4)));
    assert_eq!(out, vec![Outgoing { to: 0, msg: ServerMessage::OpponentClick { pos: (2, 4) } }]);
    assert!(!s.over);
    assert_eq!(s.boards[1].0.hole, (2, 4));
    assert_eq!(s.boards[1].0.tiles[2][2], Some(Color::Red));
    assert_eq!(s.boards[0].0, fixture());
}

#[test]
fn disconnect_tells_the_other_player_once() {
    let mut s = Session::new(winning_target(), Board(fixture()), Board(fixture()));
    let out = s.handle_event(GameEvent::Disconnected { id: 1 });
    assert_eq!(out, vec![Outgoing { to: 0, msg: ServerMessage::OpponentLeft }]);
    assert!(s.over);
    assert_eq!(s.handle_event(GameEvent::Disconnected { id: 0 }), vec![]);
    assert_eq!(s.handle_event(click(0, (2, 0))), vec![]);
    assert_eq!(s.boards[0].0, fixture());
}

#[test]
fn ping_changes_nothing() {
    let mut s = Session::new(winning_target(), Board(fixture()), Board(fixture()));
    let out = s.handle_event(GameEvent::Message { id: 0, msg: ClientMessage::Ping });
    assert_eq!(out, vec![]);
    assert!(!s.over);
}

#[test]
fn out_of_bounds_click_ends_session_silently() {
    let mut s = Session::new(winning_target(), Board(fixture()), Board(fixture()));
    assert_eq!(s.handle_event(click(0, (2, 5))), vec![]);
    assert!(s.over);
    assert_eq!(s.boards[0].0, fixture());
}

#[test]
fn click_that_moves_nothing_ends_session_silently() {
    let mut s = Session::new(winning_target(), Board(fixture()), Board(fixture()));
    assert_eq!(s.handle_event(click(1, (0, 0))), vec![]);
    assert!(s.over);
    assert_eq!(s.boards[1].0, fixture());
}

#[test]
fn started_session_has_fresh_boards() {
    let s = Session::start();
    assert!(!s.over);
    assert_eq!(s.boards[0].0.hole, (2, 2));
    assert_eq!(s.boards[1].0.hole, (2, 2));
}
