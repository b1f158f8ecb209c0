//! What a phone that follows a player wants to know.
pub mod global;
pub mod hub;
pub mod region_rows;
pub mod region_store;
pub mod serve;
pub mod session;
pub mod session_laws;
pub mod stream;
pub mod window;
