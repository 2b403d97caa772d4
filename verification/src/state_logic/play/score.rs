//! Pegging the scores of a turn of the play when scoring is manual.

use crate::game_process_return::{Error, ErrorView, ImplError, Success, SuccessView};
use crate::score::play::{play_events, play_score as score_of_play};
use crate::score::{PlayScoreType, ScoreEvent, ScoreEventView, ScoreType};
use crate::state_logic::manual::{can_peg, peg, peg_step, pegging_is_possible, Phase};
use crate::state_logic::play::wait_for_card::last_card_event;
use crate::{GameImpl, GameView};
use vstd::prelude::*;

verus! {

/// The scores that the active player has made with the last turn. A player who played a card
/// has made the scores of that card. A player who said go has made the point for the last
/// card where that player is the one who played it, so that everybody has passed. Any other
/// player has made nothing.
pub open spec fn scores_of_turn(game: GameView) -> Seq<ScoreEventView> {
    let active = game.index_active->0;
    if game.last_player_index != Some(active) {
        Seq::empty()
    } else if game.last_play_was_go {
        seq![last_card_event(active)]
    } else {
        play_events(active, game.play_groups.last())
    }
}

/// What pegging the scores of a turn does: without settings, or where no scores can be
/// pegged, it is refused and nothing changes; else the scores of the turn are pegged.
pub open spec fn play_score_step(game: GameView, selected: Seq<ScoreEventView>) -> (
    GameView,
    Result<SuccessView, ErrorView>,
) {
    if game.settings is None {
        (game, Err(ErrorView::ImplementationError(ImplError::NoConfig)))
    } else if !pegging_is_possible(game, Phase::Play) {
        (game, Err(ErrorView::ImplementationError(ImplError::InconsistentGameRecord)))
    } else {
        let pegged = peg_step(game, Phase::Play, scores_of_turn(game), selected);
        (
            pegged.0,
            match pegged.1 {
                Ok(events) => Ok(SuccessView::PlayScore(events)),
                Err(error) => Err(error),
            },
        )
    }
}

/// Pegs the scores that the active player selects for the last turn.
pub fn play_score(game: &mut GameImpl, selections: Vec<ScoreEvent>) -> (result: Result<
    Success,
    Error,
>)
    ensures
        (final(game)@, crate::game_process_return::result_view(result)) == play_score_step(
            old(game)@,
            selections.deep_view(),
        ),
{
    if game.settings.is_none() {
        return Err(Error::ImplementationError(ImplError::NoConfig));
    }
    if !can_peg(game, Phase::Play) {
        return Err(Error::ImplementationError(ImplError::InconsistentGameRecord));
    }
    let active: u8 = game.index_active.unwrap();
    let by_last_player: bool = match game.last_player_index {
        Some(last_player) => last_player == active,
        None => false,
    };
    let mut optimal_scoring: Vec<ScoreEvent> = Vec::new();
    if by_last_player {
        if game.last_play_was_go {
            // Everybody has passed: the point for the last card
            optimal_scoring.push(
                ScoreEvent {
                    point_value: 1,
                    player_index: active,
                    score_type: ScoreType::Play(PlayScoreType::LastCard),
                },
            );
            assert(optimal_scoring.deep_view() =~= seq![last_card_event(active)]);
        } else {
            let last: usize = game.play_groups.len() - 1;
            assert(game@.play_groups.last() == game.play_groups[last as int]@);
            optimal_scoring = score_of_play(active, &game.play_groups[last]);
        }
    } else {
        assert(optimal_scoring.deep_view() =~= Seq::empty());
    }
    match peg(game, Phase::Play, optimal_scoring, selections) {
        Ok(events) => Ok(Success::PlayScore(events)),
        Err(error) => Err(error),
    }
}

} // verus!
