//! Two-player sliding-tile race: the board engine, the generators of boards
//! and targets, the session coordinator, the matchmaking pool, the connection
//! loop's decisions and the client's session state machine.

pub mod types;
pub mod utils;
pub mod board;
pub mod target;
pub mod session;
pub mod lobby;
pub mod client_board;
pub mod client;
pub mod link;
