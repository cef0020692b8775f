//! Recolouring of chat packets that pass through a game relay.

pub mod color;
pub mod colorer;
pub mod config;
pub mod number;
pub mod proxy;
pub mod relay;
pub mod text;
pub mod varint;
