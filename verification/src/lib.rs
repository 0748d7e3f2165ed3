pub mod bridge;
pub mod events;
pub mod game;
pub mod shared;
