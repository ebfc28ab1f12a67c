//! A word-building game: dictionary lookups, the bot's choice of a tile,
//! and the turn machine that a keypress and the clock drive.

pub mod bot;
pub mod dictionary;
pub mod game;
pub mod text;
pub mod tile;
