//! The show: each hand is scored with the starter card, from the left of the dealer round to
//! the dealer, and then the crib is scored for the dealer.

use crate::game_process_return::{Error, ErrorView, ImplError, Success, SuccessView};
use crate::score::show::{crib_events, score_crib, score_hand, show_events};
use crate::score::{copy_cards, ScoreEvent, ScoreEventView};
use crate::state_logic::manual::{
    can_peg, muggins_step, peg, peg_step, pegging_is_possible, process_muggins, Phase,
};
use crate::state_logic::play::muggins::{claims_of, events_of_selection};
use crate::{GameImpl, GameView};
use vstd::prelude::*;

verus! {

/// What scoring the hand of the active player does. Without settings it is refused, and so
/// it is where the players, the dealer or the starter card are missing; nothing changes
/// then. Else the scores of the hand with the starter card are pegged.
pub open spec fn show_score_step(game: GameView, selected: Seq<ScoreEventView>) -> (
    GameView,
    Result<SuccessView, ErrorView>,
) {
    if game.settings is None {
        (game, Err(ErrorView::ImplementationError(ImplError::NoConfig)))
    } else if !pegging_is_possible(game, Phase::Show) || game.starter_card is None {
        (game, Err(ErrorView::ImplementationError(ImplError::InconsistentGameRecord)))
    } else {
        let active = game.index_active->0;
        let made = show_events(active, game.players[active as int].hand, game.starter_card->0);
        let pegged = peg_step(game, Phase::Show, made, selected);
        (
            pegged.0,
            match pegged.1 {
                Ok(events) => Ok(SuccessView::ShowScore(events)),
                Err(error) => Err(error),
            },
        )
    }
}

/// What scoring the crib does. Without settings it is refused, and so it is where the dealer
/// or the starter card are missing; nothing changes then. Else the scores of the crib with the
/// starter card are pegged for the dealer.
pub open spec fn crib_score_step(game: GameView, selected: Seq<ScoreEventView>) -> (
    GameView,
    Result<SuccessView, ErrorView>,
) {
    if game.settings is None {
        (game, Err(ErrorView::ImplementationError(ImplError::NoConfig)))
    } else if !pegging_is_possible(game, Phase::Crib) || game.starter_card is None {
        (game, Err(ErrorView::ImplementationError(ImplError::InconsistentGameRecord)))
    } else {
        let made = crib_events(game.index_dealer->0, game.crib, game.starter_card->0);
        let pegged = peg_step(game, Phase::Crib, made, selected);
        (
            pegged.0,
            match pegged.1 {
                Ok(events) => Ok(SuccessView::CribScore(events)),
                Err(error) => Err(error),
            },
        )
    }
}

/// Scores the hand of the active player. With manual scoring the selection holds the scores
/// that the player pegs; no selection stands for an empty one.
pub fn show_score(game: &mut GameImpl, selection: Option<Vec<ScoreEvent>>) -> (result: Result<
    Success,
    Error,
>)
    ensures
        (final(game)@, crate::game_process_return::result_view(result)) == show_score_step(
            old(game)@,
            claims_of(selection),
        ),
{
    if game.settings.is_none() {
        return Err(Error::ImplementationError(ImplError::NoConfig));
    }
    if !can_peg(game, Phase::Show) || game.starter_card.is_none() {
        return Err(Error::ImplementationError(ImplError::InconsistentGameRecord));
    }
    let active: u8 = game.index_active.unwrap();
    assert(game@.players[active as int] == game.players[active as int]@);
    let hand = copy_cards(&game.players[active as usize].hand);
    let made = score_hand(active, hand, game.starter_card.unwrap());
    let selected = events_of_selection(selection);
    match peg(game, Phase::Show, made, selected) {
        Ok(events) => Ok(Success::ShowScore(events)),
        Err(error) => Err(error),
    }
}

/// Scores the crib for the dealer. With manual scoring the selection holds the scores that
/// the dealer pegs; no selection stands for an empty one.
pub fn crib_score(game: &mut GameImpl, selection: Option<Vec<ScoreEvent>>) -> (result: Result<
    Success,
    Error,
>)
    ensures
        (final(game)@, crate::game_process_return::result_view(result)) == crib_score_step(
            old(game)@,
            claims_of(selection),
        ),
{
    if game.settings.is_none() {
        return Err(Error::ImplementationError(ImplError::NoConfig));
    }
    if !can_peg(game, Phase::Crib) || game.starter_card.is_none() {
        return Err(Error::ImplementationError(ImplError::InconsistentGameRecord));
    }
    let dealer: u8 = game.index_dealer.unwrap();
    let crib = copy_cards(&game.crib);
    let made = score_crib(dealer, crib, game.starter_card.unwrap());
    let selected = events_of_selection(selection);
    match peg(game, Phase::Crib, made, selected) {
        Ok(events) => Ok(Success::CribScore(events)),
        Err(error) => Err(error),
    }
}

/// Takes the claims on the scores missed in the hand that was shown last.
pub fn show_muggins(game: &mut GameImpl, selection: Option<Vec<ScoreEvent>>) -> (result: Result<
    Success,
    Error,
>)
    ensures
        (final(game)@, crate::game_process_return::result_view(result)) == muggins_step(
            old(game)@,
            Phase::Show,
            claims_of(selection),
        ),
{
    let claims = events_of_selection(selection);
    process_muggins(game, Phase::Show, claims)
}

/// Takes the claims on the scores missed in the crib.
pub fn crib_muggins(game: &mut GameImpl, selection: Option<Vec<ScoreEvent>>) -> (result: Result<
    Success,
    Error,
>)
    ensures
        (final(game)@, crate::game_process_return::result_view(result)) == muggins_step(
            old(game)@,
            Phase::Crib,
            claims_of(selection),
        ),
{
    let claims = events_of_selection(selection);
    process_muggins(game, Phase::Crib, claims)
}

} // verus!
