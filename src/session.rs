use vstd::prelude::*;

use crate::board::{board_wf, Board};
use crate::target::{generate_target, target_valid};
use crate::types::{center_matches, in_bounds, BoardInner, ClientMessage, GameStart, Pos, ServerMessage, Target};
use crate::utils::{click_result, is_slide_move};

verus! {

/// What reaches the session coordinator from a player's connection.
#[derive(Debug, PartialEq, Eq)]
pub enum GameEvent {
    /// Player `id` sent `msg`.
    Message { id: usize, msg: ClientMessage },
    /// Player `id`'s connection is gone.
    Disconnected { id: usize },
}

impl GameEvent {
    /// Whether the event is a keepalive message.
    pub open spec fn is_ping(self) -> bool {
        match self {
            GameEvent::Message { msg: ClientMessage::Ping, .. } => true,
            _ => false,
        }
    }

    /// The player the event comes from.
    pub open spec fn player(self) -> usize {
        match self {
            GameEvent::Message { id, .. } => id,
            GameEvent::Disconnected { id } => id,
        }
    }
}

/// A message for player `to`.
#[derive(Debug, PartialEq, Eq)]
pub struct Outgoing {
    pub to: usize,
    pub msg: ServerMessage,
}

/// The message list that sends `msg` to player `to`.
pub open spec fn send(to: usize, msg: ServerMessage) -> Seq<Outgoing> {
    seq![Outgoing { to, msg }]
}

/// The messages a moving click at `pos` by player `id` causes: the other
/// player learns of the click, and when `won`, the mover is told they won
/// and the other player that they lost.
pub open spec fn click_messages(id: usize, pos: Pos, won: bool) -> Seq<Outgoing> {
    let other = (1 - id) as usize;
    send(other, ServerMessage::OpponentClick { pos }) + if won {
        send(id, ServerMessage::GameEnd { is_win: true }) + send(
            other,
            ServerMessage::GameEnd { is_win: false },
        )
    } else {
        seq![]
    }
}

/// `t` is session `s` after it ended on the current event, with nothing else
/// changed.
pub open spec fn ended(s: Session, t: Session) -> bool {
    t.target == s.target && t.boards == s.boards && t.over
}

/// Handling `e` in session `s` leads to session `t` and sends `out`.
pub open spec fn step(s: Session, e: GameEvent, t: Session, out: Seq<Outgoing>) -> bool {
    if s.over {
        t == s && out == Seq::<Outgoing>::empty()
    } else {
        match e {
            GameEvent::Disconnected { id } => ended(s, t) && out == send(
                (1 - id) as usize,
                ServerMessage::OpponentLeft,
            ),
            GameEvent::Message { id, msg: ClientMessage::Ping } => t == s && out == Seq::<
                Outgoing,
            >::empty(),
            GameEvent::Message { id, msg: ClientMessage::Click { pos } } => {
                if !in_bounds(pos) || !is_slide_move(pos, s.board(id).hole) {
                    ended(s, t) && out == Seq::<Outgoing>::empty()
                } else {
                    &&& t.target == s.target
                    &&& click_result(s.board(id), pos, t.board(id))
                    &&& t.board((1 - id) as usize) == s.board((1 - id) as usize)
                    &&& t.over == center_matches(t.board(id).tiles, s.target)
                    &&& out == click_messages(id, pos, t.over)
                }
            },
        }
    }
}

/// A running session between players 0 and 1: the shared target, each
/// player's board, and whether the session has ended.
pub struct Session {
    pub target: Target,
    pub boards: [Board; 2],
    pub over: bool,
}

impl Session {
    /// Player `id`'s board.
    pub open spec fn board(self, id: usize) -> BoardInner {
        self.boards[id as int].0
    }

    /// Both boards are well formed.
    pub open spec fn wf(self) -> bool {
        board_wf(self.board(0)) && board_wf(self.board(1))
    }

    /// A session that has not ended, over the given target and boards.
    pub fn new(target: Target, board0: Board, board1: Board) -> (s: Session)
        requires
            board_wf(board0.0),
            board_wf(board1.0),
        ensures
            s.wf(),
            !s.over,
            s.target == target,
            s.board(0) == board0.0,
            s.board(1) == board1.0,
    {
        Session { target, boards: [board0, board1], over: false }
    }

    /// A session over a random target and two independently generated random
    /// boards.
    pub fn start() -> (s: Session)
        ensures
            s.wf(),
            !s.over,
            target_valid(s.target),
            s.board(0).hole == (2usize, 2usize),
            s.board(1).hole == (2usize, 2usize),
    {
        let target = generate_target();
        let board0 = Board::generate();
        let board1 = Board::generate();
        Session::new(target, board0, board1)
    }

    /// The opening messages: each player gets the target, their own board and
    /// the other player's board.
    pub fn start_messages(&self) -> (out: Vec<Outgoing>)
        ensures
            out@ == send(
                0,
                ServerMessage::GameStart(
                    GameStart {
                        target: self.target,
                        board: self.board(0),
                        opponent_board: self.board(1),
                    },
                ),
            ) + send(
                1,
                ServerMessage::GameStart(
                    GameStart {
                        target: self.target,
                        board: self.board(1),
                        opponent_board: self.board(0),
                    },
                ),
            ),
    {
        let mut out: Vec<Outgoing> = Vec::new();
        out.push(
            Outgoing {
                to: 0,
                msg: ServerMessage::GameStart(
                    GameStart {
                        target: self.target,
                        board: self.boards[0].0,
                        opponent_board: self.boards[1].0,
                    },
                ),
            },
        );
        out.push(
            Outgoing {
                to: 1,
                msg: ServerMessage::GameStart(
                    GameStart {
                        target: self.target,
                        board: self.boards[1].0,
                        opponent_board: self.boards[0].0,
                    },
                ),
            },
        );
        assert(out@ =~= send(
            0,
            ServerMessage::GameStart(
                GameStart {
                    target: self.target,
                    board: self.board(0),
                    opponent_board: self.board(1),
                },
            ),
        ) + send(
            1,
            ServerMessage::GameStart(
                GameStart {
                    target: self.target,
                    board: self.board(1),
                    opponent_board: self.board(0),
                },
            ),
        ));
        out
    }

    /// Handles one event of player 0 or 1. Once the session is over nothing
    /// changes and nothing is sent. A disconnect tells the other player
    /// `OpponentLeft` and ends the session. A ping changes nothing. A click
    /// off the board, or one that moves no tile, ends the session without a
    /// message. Any other click moves tiles on the clicker's board, is relayed
    /// to the other player, and when the clicker's board then shows the
    /// target, ends the session with `GameEnd` to both, the clicker winning.
    pub fn handle_event(&mut self, event: GameEvent) -> (out: Vec<Outgoing>)
        requires
            old(self).wf(),
            event.player() < 2,
        ensures
            final(self).wf(),
            step(*old(self), event, *final(self), out@),
    {
        let ghost before = *self;
        let mut out: Vec<Outgoing> = Vec::new();
        if self.over {
            assert(out@ =~= Seq::<Outgoing>::empty());
            return out;
        }
        match event {
            GameEvent::Message { id, msg: ClientMessage::Click { pos } } => {
                if pos.0 >= 5 || pos.1 >= 5 {
                    self.over = true;
                    assert(out@ =~= Seq::<Outgoing>::empty());
                    return out;
                }
                let moved = self.boards[id].click_tile(pos);
                if !moved {
                    assert(self.boards[id as int] == before.boards[id as int]);
                    assert(self.boards =~= before.boards);
                    self.over = true;
                    assert(out@ =~= Seq::<Outgoing>::empty());
                    return out;
                }
                let other = 1 - id;
                out.push(Outgoing { to: other, msg: ServerMessage::OpponentClick { pos } });
                let won = self.boards[id].matches_target(&self.target);
                if won {
                    out.push(Outgoing { to: id, msg: ServerMessage::GameEnd { is_win: true } });
                    out.push(Outgoing { to: other, msg: ServerMessage::GameEnd { is_win: false } });
                    self.over = true;
                }
                assert(out@ =~= click_messages(id, pos, won));
                out
            },
            GameEvent::Message { id, msg: ClientMessage::Ping } => {
                assert(out@ =~= Seq::<Outgoing>::empty());
                out
            },
            GameEvent::Disconnected { id } => {
                out.push(Outgoing { to: 1 - id, msg: ServerMessage::OpponentLeft });
                self.over = true;
                assert(out@ =~= send((1 - id) as usize, ServerMessage::OpponentLeft));
                out
            },
        }
    }
}

} // verus!
