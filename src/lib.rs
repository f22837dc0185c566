pub mod grid;
pub mod lobby;
pub mod message;
pub mod session;
pub mod turn;
