pub mod capture;
pub mod matchmaker;
pub mod room;
pub mod session;
pub mod state;
pub mod win;
