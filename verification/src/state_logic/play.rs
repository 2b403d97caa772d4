//! The play of the cards: a card or a go, the scores for it, the claims on missed scores, and
//! the opening of the next group.

pub mod muggins;
pub mod reset_play;
pub mod score;
pub mod wait_for_card;
pub use score::play_score;
pub use wait_for_card::play_card;
