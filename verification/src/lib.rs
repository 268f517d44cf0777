//! A video player inside a terminal: the decisions around an `mpv` that draws with
//! the kitty graphics protocol.
pub mod ascii;
pub mod geometry;
pub mod ipc;
pub mod keys;
pub mod kitty;
pub mod player;
pub mod streams;
pub mod text;
