use vstd::prelude::*;

use crate::board::hole_shape;
use crate::client_board::ClientBoard;
use crate::types::{in_bounds, ClientMessage, Pos, ServerMessage, Target};
use crate::utils::{click_result, is_slide_move};

verus! {

/// Where the client stands in a session.
#[derive(Debug, Clone, Copy, PartialEq, Eq, Structural)]
pub enum State {
    WaitingForOpponent,
    Playing,
    /// The own board shows the target; the server's verdict is awaited.
    WaitGameEnd,
    GameEnd { is_win: bool },
    OpponentLeft,
    ConnectionError,
}

impl State {
    /// The states that end a session.
    pub open spec fn ended(self) -> bool {
        self is GameEnd || self is OpponentLeft || self is ConnectionError
    }

    /// Whether this state ends the session.
    pub fn is_end(&self) -> (r: bool)
        ensures
            r == self.ended(),
    {
        match self {
            State::GameEnd { .. } | State::OpponentLeft | State::ConnectionError => true,
            _ => false,
        }
    }
}

/// The client's side of a session: its state, and once the session has
/// begun, the target and the mirrors of both boards.
pub struct ClientSession {
    pub state: State,
    pub target: Option<Target>,
    pub board: Option<ClientBoard>,
    pub opponent_board: Option<ClientBoard>,
}

impl ClientSession {
    /// While playing or awaiting the verdict, the target and both boards are
    /// known, and every known board is well formed.
    pub open spec fn wf(self) -> bool {
        &&& (self.state is Playing || self.state is WaitGameEnd) ==> (self.target is Some
            && self.board is Some && self.opponent_board is Some)
        &&& self.board is Some ==> self.board->Some_0.wf()
        &&& self.opponent_board is Some ==> self.opponent_board->Some_0.wf()
    }

    /// `t` is `s` with its state replaced by `state`.
    pub open spec fn with_state(s: ClientSession, state: State, t: ClientSession) -> bool {
        &&& t.state == state
        &&& t.target == s.target
        &&& t.board == s.board
        &&& t.opponent_board == s.opponent_board
    }

    /// A click of the player at `pos` takes session `s` to `t` and sends
    /// `sent`: only while playing, on the board, and when tiles move on the
    /// own board is the click sent; the session then awaits the verdict if
    /// the own board shows the target. Otherwise nothing changes.
    pub open spec fn click_outcome(
        s: ClientSession,
        pos: Pos,
        t: ClientSession,
        sent: Option<ClientMessage>,
    ) -> bool {
        let before = s.board->Some_0;
        let after = t.board->Some_0;
        if s.state != State::Playing || !in_bounds(pos) || !is_slide_move(pos, before.inner.hole) {
            sent is None && t == s
        } else {
            &&& sent == Some(ClientMessage::Click { pos })
            &&& t.board is Some
            &&& click_result(before.inner, pos, after.inner)
            &&& t.target == s.target
            &&& t.opponent_board == s.opponent_board
            &&& t.state == if after.center_shows(s.target->Some_0) {
                State::WaitGameEnd
            } else {
                State::Playing
            }
        }
    }

    /// A session waiting for an opponent.
    pub fn new() -> (s: ClientSession)
        ensures
            s.wf(),
            s.state == State::WaitingForOpponent,
            s.target is None && s.board is None && s.opponent_board is None,
    {
        ClientSession {
            state: State::WaitingForOpponent,
            target: None,
            board: None,
            opponent_board: None,
        }
    }

    /// Applies a message from the server, and says whether the session has
    /// now ended, so that the connection's loops are to shut down.
    /// `GameStart` begins play while waiting for an opponent (a board without
    /// a single empty cell at its hole is a connection error); `OpponentLeft`
    /// ends a session that has not ended; `OpponentClick` moves tiles on the
    /// opponent's mirror while playing; `GameEnd` ends a session that is being
    /// played or awaits its verdict. Any other message changes nothing.
    pub fn handle_server_message(&mut self, msg: ServerMessage) -> (shutdown: bool)
        requires
            old(self).wf(),
        ensures
            final(self).wf(),
            match msg {
                ServerMessage::GameStart(start) => {
                    if old(self).state != State::WaitingForOpponent {
                        !shutdown && *final(self) == *old(self)
                    } else if !hole_shape(start.board) || !hole_shape(start.opponent_board) {
                        shutdown && ClientSession::with_state(
                            *old(self),
                            State::ConnectionError,
                            *final(self),
                        )
                    } else {
                        &&& !shutdown
                        &&& final(self).state == State::Playing
                        &&& final(self).target == Some(start.target)
                        &&& final(self).board->Some_0.shows(start.board)
                        &&& final(self).opponent_board->Some_0.shows(start.opponent_board)
                    }
                },
                ServerMessage::OpponentLeft => {
                    if old(self).state.ended() {
                        !shutdown && *final(self) == *old(self)
                    } else {
                        shutdown && ClientSession::with_state(
                            *old(self),
                            State::OpponentLeft,
                            *final(self),
                        )
                    }
                },
                ServerMessage::OpponentClick { pos } => {
                    &&& !shutdown
                    &&& if old(self).state != State::Playing || !in_bounds(pos) {
                        *final(self) == *old(self)
                    } else {
                        let before = old(self).opponent_board->Some_0;
                        let after = final(self).opponent_board->Some_0;
                        &&& final(self).opponent_board is Some
                        &&& final(self).state == old(self).state
                        &&& final(self).target == old(self).target
                        &&& final(self).board == old(self).board
                        &&& (is_slide_move(pos, before.inner.hole) ==> click_result(
                            before.inner,
                            pos,
                            after.inner,
                        ))
                        &&& (!is_slide_move(pos, before.inner.hole) ==> after == before)
                    }
                },
                ServerMessage::GameEnd { is_win } => {
                    if old(self).state == State::Playing || old(self).state == State::WaitGameEnd {
                        shutdown && ClientSession::with_state(
                            *old(self),
                            State::GameEnd { is_win },
                            *final(self),
                        )
                    } else {
                        !shutdown && *final(self) == *old(self)
                    }
                },
            },
    {
        match msg {
            ServerMessage::GameStart(start) => {
                if self.state != State::WaitingForOpponent {
                    return false;
                }
                if !start.board.has_hole_shape() || !start.opponent_board.has_hole_shape() {
                    self.state = State::ConnectionError;
                    return true;
                }
                self.target = Some(start.target);
                self.board = Some(ClientBoard::new(start.board));
                self.opponent_board = Some(ClientBoard::new(start.opponent_board));
                self.state = State::Playing;
                false
            },
            ServerMessage::OpponentLeft => {
                if self.state.is_end() {
                    return false;
                }
                self.state = State::OpponentLeft;
                true
            },
            ServerMessage::OpponentClick { pos } => {
                if self.state != State::Playing || pos.0 >= 5 || pos.1 >= 5 {
                    return false;
                }
                match self.opponent_board.take() {
                    Some(mut b) => {
                        b.click_pos(pos);
                        self.opponent_board = Some(b);
                    },
                    None => {},
                }
                false
            },
            ServerMessage::GameEnd { is_win } => {
                if self.state == State::Playing || self.state == State::WaitGameEnd {
                    self.state = State::GameEnd { is_win };
                    return true;
                }
                false
            },
        }
    }

    /// Handles a click of the player at `pos`. Only while playing, on the
    /// board, and when tiles move on the own board, is the click to be sent
    /// to the server; if the own board then shows the target, the session
    /// awaits the server's verdict. Otherwise nothing changes.
    pub fn handle_click(&mut self, pos: Pos) -> (sent: Option<ClientMessage>)
        requires
            old(self).wf(),
        ensures
            final(self).wf(),
            ClientSession::click_outcome(*old(self), pos, *final(self), sent),
    {
        if self.state != State::Playing || pos.0 >= 5 || pos.1 >= 5 {
            return None;
        }
        let target = match self.target {
            Some(t) => t,
            None => {
                return None;
            },
        };
        match self.board.take() {
            Some(mut b) => {
                let moved = b.click_pos(pos);
                let won = moved && b.matches_target(&target);
                self.board = Some(b);
                if !moved {
                    return None;
                }
                if won {
                    self.state = State::WaitGameEnd;
                }
                Some(ClientMessage::Click { pos })
            },
            None => None,
        }
    }

    /// Handles a click of the player on the tile of identity `idx` of their
    /// own board, as a click at that tile's location. Before the session has
    /// begun nothing changes.
    pub fn handle_tile_click(&mut self, idx: usize) -> (sent: Option<ClientMessage>)
        requires
            old(self).wf(),
            idx < 24,
        ensures
            final(self).wf(),
            old(self).board is None ==> sent is None && *final(self) == *old(self),
            old(self).board is Some ==> ClientSession::click_outcome(
                *old(self),
                old(self).board->Some_0.locations[idx as int],
                *final(self),
                sent,
            ),
    {
        let pos = match &self.board {
            Some(b) => b.locations[idx],
            None => {
                return None;
            },
        };
        self.handle_click(pos)
    }

    /// Records a failure of the connection: a session that has not ended
    /// ends in a connection error, and the result says so.
    pub fn connection_lost(&mut self) -> (shutdown: bool)
        requires
            old(self).wf(),
        ensures
            final(self).wf(),
            old(self).state.ended() ==> !shutdown && *final(self) == *old(self),
            !old(self).state.ended() ==> shutdown && ClientSession::with_state(
                *old(self),
                State::ConnectionError,
                *final(self),
            ),
    {
        if self.state.is_end() {
            return false;
        }
        self.state = State::ConnectionError;
        true
    }
}

} // verus!
