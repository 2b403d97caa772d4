//! The cut of the starter card, and the call of nibs where scoring is manual.

use crate::deck::{Card, CardValue};
use crate::game_process_return::{
    Error, ErrorView, ImplError, NibsCheckReturn, NibsError, StarterCutReturn, Success,
    SuccessView,
};
use crate::score::{play_event, same_event, PlayScoreType, ScoreEvent, ScoreEventView, ScoreType};
use crate::util::{after_score, can_score, next_seat, process_score, scoring_is_possible, seat_after};
use crate::{GameImpl, GameState, GameView, PlayGroup, PlayGroupView};
use vstd::prelude::*;

verus! {

/// Whether the dealer is known and sits at the table, and the table has no more seats than an
/// index can name.
pub open spec fn dealer_is_seated(game: GameView) -> bool {
    &&& game.index_dealer matches Some(dealer) && dealer < game.players.len()
    &&& game.players.len() <= 255
}

/// The game made ready for the play: the player to the left of the dealer is active, one empty
/// group is open, nobody has played and nothing is left to claim.
pub open spec fn made_ready_for_play(game: GameView) -> GameView {
    GameView {
        index_active: Some(next_seat(game.index_dealer->0, game.players.len() as int)),
        play_groups: seq![PlayGroupView { total: 0, cards: Seq::empty() }],
        last_player_index: None,
        last_play_was_go: false,
        remaining_score_events: Seq::empty(),
        ..game
    }
}

/// Whether the starter can be cut: the dealer is seated, the deck holds a card, and where
/// that card is a jack and scoring is automatic the dealer can take the two points.
pub open spec fn starter_cut_is_possible(game: GameView) -> bool {
    &&& game.settings matches Some(settings)
    &&& dealer_is_seated(game)
    &&& game.deck.len() > 0
    &&& !settings.is_manual_scoring && game.deck.last().value == CardValue::Jack ==> can_score(
        game,
        game.index_dealer->0 as int,
        2,
    )
}

/// What the cut of the starter does. Without settings, or where the cut is not possible, it
/// is refused and nothing changes. Else the card at the end of the deck becomes the starter
/// and the game is made ready for the play. With manual scoring the dealer is asked about
/// nibs next. With automatic scoring a jack gives the dealer two points at once, and the play
/// begins unless that wins the game.
pub open spec fn starter_cut_step(game: GameView) -> (GameView, Result<SuccessView, ErrorView>) {
    if game.settings is None {
        (game, Err(ErrorView::ImplementationError(ImplError::NoConfig)))
    } else if !starter_cut_is_possible(game) {
        (game, Err(ErrorView::ImplementationError(ImplError::InconsistentGameRecord)))
    } else {
        let card = game.deck.last();
        let drawn = made_ready_for_play(
            GameView { starter_card: Some(card), deck: game.deck.drop_last(), ..game },
        );
        if game.settings->0.is_manual_scoring {
            (
                GameView { state: GameState::NibsCheck, ..drawn },
                Ok(SuccessView::StarterCut(StarterCutReturn::ManualScoring)),
            )
        } else if card.value == CardValue::Jack {
            (
                after_score(
                    GameView { state: GameState::PlayWaitForCard, ..drawn },
                    game.index_dealer->0 as int,
                    2,
                ),
                Ok(SuccessView::StarterCut(StarterCutReturn::AutoNibs)),
            )
        } else {
            (
                GameView { state: GameState::PlayWaitForCard, ..drawn },
                Ok(SuccessView::StarterCut(StarterCutReturn::AutoNoNibs)),
            )
        }
    }
}

/// The event with which the dealer calls nibs.
pub open spec fn nibs_event(dealer: u8) -> ScoreEventView {
    play_event(PlayScoreType::Nibs, dealer, 2)
}

/// What the call of nibs does. It is refused, and nothing changes: before a starter is cut;
/// without settings; with a jack cut, where no call is made and underpegging is off, where
/// the call is not the nibs of the dealer, and where the dealer is not seated or cannot take
/// the points; without a jack cut, where a call is made. Else the play begins, after two
/// points for the dealer where nibs was called, unless they win the game.
pub open spec fn nibs_step(game: GameView, call: Option<ScoreEventView>) -> (
    GameView,
    Result<SuccessView, ErrorView>,
) {
    let playing = GameView { state: GameState::PlayWaitForCard, ..game };
    match game.starter_card {
        None => (game, Err(ErrorView::ImplementationError(ImplError::NibsCheckWhenNoStarterCard))),
        Some(starter) => if game.settings is None {
            (game, Err(ErrorView::ImplementationError(ImplError::NoConfig)))
        } else if starter.value == CardValue::Jack {
            match call {
                None => if !game.settings->0.is_underpegging {
                    (
                        game,
                        Err(
                            ErrorView::NibsCallError(
                                NibsError::NoNibsCallWhenUnderscoringIsDisabled,
                            ),
                        ),
                    )
                } else {
                    (playing, Ok(SuccessView::NibsCheck(NibsCheckReturn::NoNibs)))
                },
                Some(event) => if !dealer_is_seated(game) {
                    (game, Err(ErrorView::ImplementationError(ImplError::InconsistentGameRecord)))
                } else if event != nibs_event(game.index_dealer->0) {
                    (
                        game,
                        Err(ErrorView::NibsCallError(NibsError::InvalidScoreEventToNibsCheck)),
                    )
                } else if !can_score(game, game.index_dealer->0 as int, 2) {
                    (game, Err(ErrorView::ImplementationError(ImplError::InconsistentGameRecord)))
                } else {
                    (
                        after_score(playing, game.index_dealer->0 as int, 2),
                        Ok(SuccessView::NibsCheck(NibsCheckReturn::Nibs)),
                    )
                },
            }
        } else {
            match call {
                None => (playing, Ok(SuccessView::NibsCheck(NibsCheckReturn::NoNibs))),
                Some(_) => (
                    game,
                    Err(ErrorView::NibsCallError(NibsError::NibsCallWhenNoCutJack)),
                ),
            }
        },
    }
}

/// The view of a call that may be missing.
pub open spec fn call_view(call: Option<ScoreEvent>) -> Option<ScoreEventView> {
    match call {
        Some(event) => Some(event@),
        None => None,
    }
}

/// Whether the dealer is known and sits at the table.
pub fn dealer_sits(game: &GameImpl) -> (r: bool)
    ensures
        r == dealer_is_seated(game@),
{
    match game.index_dealer {
        Some(dealer) => (dealer as usize) < game.players.len() && game.players.len() <= 255,
        None => false,
    }
}

/// Makes the game ready for the play.
pub fn ready_for_play(game: &mut GameImpl)
    requires
        dealer_is_seated(old(game)@),
    ensures
        final(game)@ == made_ready_for_play(old(game)@),
{
    let dealer: u8 = game.index_dealer.unwrap();
    game.index_active = Some(seat_after(dealer, game.players.len()));
    let mut groups: Vec<PlayGroup> = Vec::new();
    groups.push(PlayGroup::new());
    game.play_groups = groups;
    game.last_player_index = None;
    game.last_play_was_go = false;
    game.remaining_score_events = Vec::new();
    assert(game@.play_groups =~= seq![PlayGroupView { total: 0, cards: Seq::empty() }]);
    assert(game@.remaining_score_events =~= Seq::empty());
}

/// Cuts the starter card from the deck.
pub fn process_cut(game: &mut GameImpl) -> (result: Result<Success, Error>)
    ensures
        (final(game)@, crate::game_process_return::result_view(result)) == starter_cut_step(
            old(game)@,
        ),
{
    let settings = match game.settings {
        None => {
            return Err(Error::ImplementationError(ImplError::NoConfig));
        },
        Some(settings) => settings,
    };
    if !dealer_sits(game) {
        return Err(Error::ImplementationError(ImplError::InconsistentGameRecord));
    }
    let dealer_index: usize = game.index_dealer.unwrap() as usize;
    let card: Card = match game.deck.next_card() {
        None => {
            return Err(Error::ImplementationError(ImplError::InconsistentGameRecord));
        },
        Some(card) => card,
    };
    let nibs: bool = !settings.is_manual_scoring && card.value == CardValue::Jack;
    if nibs && !scoring_is_possible(game, dealer_index, 2) {
        return Err(Error::ImplementationError(ImplError::InconsistentGameRecord));
    }
    let ghost before = game@;
    let dealt: Card = game.deck.deal();
    game.starter_card = Some(dealt);
    ready_for_play(game);

    // If the cut card is a jack, the dealer scores two points
    if settings.is_manual_scoring {
        game.state = GameState::NibsCheck;
        Ok(Success::StarterCut(StarterCutReturn::ManualScoring))
    } else if nibs {
        game.state = GameState::PlayWaitForCard;
        assert(can_score(game@, dealer_index as int, 2)) by {
            assert(game@.players == before.players);
        }
        process_score(game, dealer_index, 2);
        Ok(Success::StarterCut(StarterCutReturn::AutoNibs))
    } else {
        game.state = GameState::PlayWaitForCard;
        Ok(Success::StarterCut(StarterCutReturn::AutoNoNibs))
    }
}

/// Takes the call of nibs of the dealer, or the lack of one.
pub fn process_nibs(game: &mut GameImpl, call: Option<ScoreEvent>) -> (result: Result<Success, Error>)
    ensures
        (final(game)@, crate::game_process_return::result_view(result)) == nibs_step(
            old(game)@,
            call_view(call),
        ),
{
    let starter: Card = match game.starter_card {
        None => {
            return Err(Error::ImplementationError(ImplError::NibsCheckWhenNoStarterCard));
        },
        Some(starter) => starter,
    };
    let settings = match game.settings {
        None => {
            return Err(Error::ImplementationError(ImplError::NoConfig));
        },
        Some(settings) => settings,
    };
    if starter.value == CardValue::Jack {
        match call {
            // Without a call the points are lost, which only underpegging allows
            None => {
                if !settings.is_underpegging {
                    Err(Error::NibsCallError(NibsError::NoNibsCallWhenUnderscoringIsDisabled))
                } else {
                    game.state = GameState::PlayWaitForCard;
                    Ok(Success::NibsCheck(NibsCheckReturn::NoNibs))
                }
            },
            Some(event) => {
                if !dealer_sits(game) {
                    return Err(Error::ImplementationError(ImplError::InconsistentGameRecord));
                }
                let index_dealer: u8 = game.index_dealer.unwrap();
                let expected = ScoreEvent {
                    score_type: ScoreType::Play(PlayScoreType::Nibs),
                    player_index: index_dealer,
                    point_value: 2,
                };
                if !same_event(&event, &expected) {
                    return Err(Error::NibsCallError(NibsError::InvalidScoreEventToNibsCheck));
                }
                if !scoring_is_possible(game, index_dealer as usize, 2) {
                    return Err(Error::ImplementationError(ImplError::InconsistentGameRecord));
                }
                game.state = GameState::PlayWaitForCard;
                process_score(game, index_dealer as usize, 2);
                Ok(Success::NibsCheck(NibsCheckReturn::Nibs))
            },
        }
    } else {
        // Without a jack there is nothing to call
        match call {
            None => {
                game.state = GameState::PlayWaitForCard;
                Ok(Success::NibsCheck(NibsCheckReturn::NoNibs))
            },
            Some(_) => Err(Error::NibsCallError(NibsError::NibsCallWhenNoCutJack)),
        }
    }
}

/// The cut of the starter takes no player away and lowers no score.
pub proof fn lemma_starter_cut_never_lowers_a_score(game: GameView)
    ensures
        crate::no_score_is_lower(game, starter_cut_step(game).0),
{
}

/// The call of nibs takes no player away and lowers no score.
pub proof fn lemma_nibs_never_lowers_a_score(game: GameView, call: Option<ScoreEventView>)
    ensures
        crate::no_score_is_lower(game, nibs_step(game, call).0),
{
}

} // verus!
