//! Core logic of a software soundboard: the clip registry of the player,
//! the commands that the user interface sends, the script calls that
//! answer them, the clock text of a clip's length and the saved settings.

pub mod clock;
pub mod config;
pub mod command;
pub mod script;
pub mod player;
pub mod loading;
