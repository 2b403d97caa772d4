//! A seat at the table: its two pegs, its hand and its partner.

use crate::deck::Card;
use vstd::prelude::*;

verus! {

/// A player. `front_peg_pos` is the score; `back_peg_pos` is the score before the last
/// change that scored anything.
#[derive(Debug, Clone)]
pub struct Player {
    pub back_peg_pos: u8,
    pub front_peg_pos: u8,
    pub hand: Vec<Card>,
    /// The index of this player's partner if applicable
    pub partner_index: Option<u8>,
}

/// What a player is, with the hand as a sequence.
pub struct PlayerView {
    pub back_peg_pos: u8,
    pub front_peg_pos: u8,
    pub hand: Seq<Card>,
    pub partner_index: Option<u8>,
}

impl View for Player {
    type V = PlayerView;

    open spec fn view(&self) -> PlayerView {
        PlayerView {
            back_peg_pos: self.back_peg_pos,
            front_peg_pos: self.front_peg_pos,
            hand: self.hand@,
            partner_index: self.partner_index,
        }
    }
}

impl DeepView for Player {
    type V = PlayerView;

    open spec fn deep_view(&self) -> PlayerView {
        self@
    }
}

/// A player after scoring `points`: a positive number moves the back peg to where the front
/// peg stood and the front peg on by `points`; anything else leaves both pegs alone.
pub open spec fn pegged(player: PlayerView, points: int) -> PlayerView {
    if points > 0 {
        PlayerView {
            back_peg_pos: player.front_peg_pos,
            front_peg_pos: (player.front_peg_pos + points) as u8,
            ..player
        }
    } else {
        player
    }
}

impl Player {
    /// Scores `change` points. The score must stay within what a peg position can hold.
    pub fn change_score(&mut self, change: i8)
        requires
            change > 0 ==> old(self).front_peg_pos + change <= u8::MAX,
        ensures
            final(self)@ == pegged(old(self)@, change as int),
    {
        if change > 0 {
            self.advance(change as u8);
        }
    }

    /// Scores `points` points, which may be more than `change_score` can be given at once.
    pub fn advance(&mut self, points: u8)
        requires
            old(self).front_peg_pos + points <= u8::MAX,
        ensures
            final(self)@ == pegged(old(self)@, points as int),
    {
        if points > 0 {
            self.back_peg_pos = self.front_peg_pos;
            self.front_peg_pos += points;
        }
    }
}

} // verus!
