pub mod board;
pub mod game_ended;
pub mod game_started;
pub mod game_turn;
pub mod win;
