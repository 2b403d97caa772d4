//! Helpers that several states share.

use crate::deck::{Card, CardSuit, CardValue};
use crate::player::{pegged, PlayerView};
use crate::settings::{seats, win_threshold, RuleVariant};
use crate::{GameImpl, GameState, GameView};
use vstd::prelude::*;

verus! {

/// Whether the character names a rank: `A` or `1` for the ace, `2` to `9`, `T`, `J`, `Q`, `K`.
pub open spec fn names_value(c: char) -> bool {
    c == 'A' || c == '1' || c == '2' || c == '3' || c == '4' || c == '5' || c == '6' || c == '7'
        || c == '8' || c == '9' || c == 'T' || c == 'J' || c == 'Q' || c == 'K'
}

/// Whether the character names a suit: `H`, `D`, `C` or `S`.
pub open spec fn names_suit(c: char) -> bool {
    c == 'H' || c == 'D' || c == 'C' || c == 'S'
}

/// The rank that a character names.
pub open spec fn value_named(c: char) -> CardValue {
    if c == 'A' || c == '1' {
        CardValue::Ace
    } else if c == '2' {
        CardValue::Two
    } else if c == '3' {
        CardValue::Three
    } else if c == '4' {
        CardValue::Four
    } else if c == '5' {
        CardValue::Five
    } else if c == '6' {
        CardValue::Six
    } else if c == '7' {
        CardValue::Seven
    } else if c == '8' {
        CardValue::Eight
    } else if c == '9' {
        CardValue::Nine
    } else if c == 'T' {
        CardValue::Ten
    } else if c == 'J' {
        CardValue::Jack
    } else if c == 'Q' {
        CardValue::Queen
    } else {
        CardValue::King
    }
}

/// The suit that a character names.
pub open spec fn suit_named(c: char) -> CardSuit {
    if c == 'H' {
        CardSuit::Hearts
    } else if c == 'D' {
        CardSuit::Diamonds
    } else if c == 'C' {
        CardSuit::Clubs
    } else {
        CardSuit::Spades
    }
}

/// The card that two characters name, the rank first and the suit second.
pub fn return_card(set_value: char, set_suit: char) -> (card: Card)
    requires
        names_value(set_value),
        names_suit(set_suit),
    ensures
        card == (Card { value: value_named(set_value), suit: suit_named(set_suit) }),
{
    let value = if set_value == 'A' || set_value == '1' {
        CardValue::Ace
    } else if set_value == '2' {
        CardValue::Two
    } else if set_value == '3' {
        CardValue::Three
    } else if set_value == '4' {
        CardValue::Four
    } else if set_value == '5' {
        CardValue::Five
    } else if set_value == '6' {
        CardValue::Six
    } else if set_value == '7' {
        CardValue::Seven
    } else if set_value == '8' {
        CardValue::Eight
    } else if set_value == '9' {
        CardValue::Nine
    } else if set_value == 'T' {
        CardValue::Ten
    } else if set_value == 'J' {
        CardValue::Jack
    } else if set_value == 'Q' {
        CardValue::Queen
    } else {
        CardValue::King
    };
    let suit = if set_suit == 'H' {
        CardSuit::Hearts
    } else if set_suit == 'D' {
        CardSuit::Diamonds
    } else if set_suit == 'C' {
        CardSuit::Clubs
    } else {
        CardSuit::Spades
    };
    Card { value, suit }
}

/// The rule variants, in the order in which they are declared.
pub open spec fn variants() -> Seq<RuleVariant> {
    seq![
        RuleVariant::TwoStandard,
        RuleVariant::TwoFiveCard,
        RuleVariant::TwoSevenCard,
        RuleVariant::ThreeStandard,
        RuleVariant::ThreeCaptain,
        RuleVariant::FourIndividual,
        RuleVariant::FourPairs,
        RuleVariant::FiveStandard,
        RuleVariant::SixPairs,
    ]
}

/// All the rule variants.
pub fn return_variants() -> (list: Vec<RuleVariant>)
    ensures
        list@ == variants(),
{
    let mut list: Vec<RuleVariant> = Vec::new();
    list.push(RuleVariant::TwoStandard);
    list.push(RuleVariant::TwoFiveCard);
    list.push(RuleVariant::TwoSevenCard);
    list.push(RuleVariant::ThreeStandard);
    list.push(RuleVariant::ThreeCaptain);
    list.push(RuleVariant::FourIndividual);
    list.push(RuleVariant::FourPairs);
    list.push(RuleVariant::FiveStandard);
    list.push(RuleVariant::SixPairs);
    assert(list@ =~= variants());
    list
}

/// The number of players of a rule variant.
pub fn return_num_players_for_variant(variant: RuleVariant) -> (n: u8)
    ensures
        n as int == seats(variant),
        2 <= n <= 6,
{
    match variant {
        RuleVariant::TwoStandard => 2,
        RuleVariant::TwoFiveCard => 2,
        RuleVariant::TwoSevenCard => 2,
        RuleVariant::ThreeStandard => 3,
        RuleVariant::ThreeCaptain => 3,
        RuleVariant::FourIndividual => 4,
        RuleVariant::FourPairs => 4,
        RuleVariant::FiveStandard => 5,
        RuleVariant::SixPairs => 6,
    }
}

/// The seat to the left of a seat at a table of `n`.
pub open spec fn next_seat(seat: u8, n: int) -> u8 {
    ((seat + 1) % n) as u8
}

/// The seat to the left of a seat.
pub fn seat_after(seat: u8, n: usize) -> (next: u8)
    requires
        seat < n <= 255,
    ensures
        next == next_seat(seat, n as int),
        next < n,
{
    ((seat as usize + 1) % n) as u8
}

/// Whether the seat can be given the points: the game has settings, the seat and its partner
/// exist, and neither score leaves the range of a peg position.
pub open spec fn can_score(game: GameView, seat: int, points: int) -> bool {
    &&& game.settings is Some
    &&& 0 <= seat < game.players.len()
    &&& game.players[seat].front_peg_pos + points <= u8::MAX
    &&& game.players[seat].partner_index matches Some(partner) ==> {
        &&& partner < game.players.len()
        &&& partner != seat
        &&& game.players[partner as int].front_peg_pos + points <= u8::MAX
    }
}

/// The players after the seat, and its partner if it has one, scored the points.
pub open spec fn players_after_score(players: Seq<PlayerView>, seat: int, points: int) -> Seq<
    PlayerView,
> {
    let scored = players.update(seat, pegged(players[seat], points));
    match players[seat].partner_index {
        Some(partner) => scored.update(partner as int, pegged(scored[partner as int], points)),
        None => scored,
    }
}

/// Whether the seat has won once it has scored the points.
pub open spec fn wins_with(game: GameView, seat: int, points: int) -> bool {
    game.players[seat].front_peg_pos + points >= win_threshold(
        game.settings->0.variant,
        game.players[seat].partner_index is Some,
    )
}

/// The game after the seat scored the points: its partner scores them too, and the game is
/// won as soon as the score of the seat reaches what its variant asks for.
pub open spec fn after_score(game: GameView, seat: int, points: int) -> GameView {
    GameView {
        players: players_after_score(game.players, seat, points),
        state: if wins_with(game, seat, points) {
            GameState::Win
        } else {
            game.state
        },
        ..game
    }
}

/// The score at which a seat wins.
pub fn threshold(variant: RuleVariant, has_partner: bool) -> (r: u8)
    ensures
        r as int == win_threshold(variant, has_partner),
{
    match variant {
        RuleVariant::TwoFiveCard => 61,
        RuleVariant::TwoSevenCard => 151,
        RuleVariant::ThreeCaptain => if has_partner {
            121
        } else {
            61
        },
        _ => 121,
    }
}

/// Whether the seat can be given the points.
pub fn scoring_is_possible(game: &GameImpl, player_index: usize, score_change: u8) -> (r: bool)
    ensures
        r == can_score(game@, player_index as int, score_change as int),
{
    if game.settings.is_none() || player_index >= game.players.len() {
        return false;
    }
    assert(game@.players[player_index as int] == game.players[player_index as int]@);
    if game.players[player_index].front_peg_pos > 255 - score_change {
        return false;
    }
    match game.players[player_index].partner_index {
        Some(partner) => {
            if partner as usize >= game.players.len() || partner as usize == player_index {
                return false;
            }
            assert(game@.players[partner as int] == game.players[partner as int]@);
            game.players[partner as usize].front_peg_pos <= 255 - score_change
        },
        None => true,
    }
}

/// Gives the points to the player and to the partner of the player, and says whether the
/// player has won with them; if so the state of the game is `Win`.
pub fn process_score(game: &mut GameImpl, player_index: usize, score_change: u8) -> (won: bool)
    requires
        can_score(old(game)@, player_index as int, score_change as int),
    ensures
        final(game)@ == after_score(old(game)@, player_index as int, score_change as int),
        won == wins_with(old(game)@, player_index as int, score_change as int),
{
    let ghost before = game@;
    assert(before.players[player_index as int] == game.players[player_index as int]@);
    let partner = game.players[player_index].partner_index;
    game.players[player_index].advance(score_change);
    assert(game@.players =~= before.players.update(
        player_index as int,
        pegged(before.players[player_index as int], score_change as int),
    ));
    if let Some(partner_index) = partner {
        let ghost scored = game@.players;
        assert(scored[partner_index as int] == game.players[partner_index as int]@);
        game.players[partner_index as usize].advance(score_change);
        assert(game@.players =~= scored.update(
            partner_index as int,
            pegged(scored[partner_index as int], score_change as int),
        ));
    }
    assert(game@.players == players_after_score(
        before.players,
        player_index as int,
        score_change as int,
    ));
    let settings = game.settings.unwrap();
    assert(game@.players[player_index as int] == game.players[player_index as int]@);
    let limit: u8 = threshold(settings.variant, partner.is_some());
    if game.players[player_index].front_peg_pos >= limit {
        game.state = GameState::Win;
        true
    } else {
        false
    }
}

} // verus!
