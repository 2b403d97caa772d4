//! What each state of the game does with the event that it expects.

pub mod game_start;
pub mod cut_initial;
pub mod deal;
pub mod sort;
pub mod discard;
pub mod cut_starter_and_nibs_check;
pub mod play;
pub mod manual;
pub mod show;
pub mod win;
