pub mod find_match;
pub mod game_start;
pub mod move_hint_request;
pub mod player_leave;
pub mod player_move;
pub mod room;
pub mod undo;
