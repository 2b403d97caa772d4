//! After a group of the play is closed: the next group is opened while cards are left to
//! play, and else the hands are shown.

use crate::deck::Card;
use crate::game_process_return::{
    Error, ErrorView, ImplError, ResetPlayReturn, Success, SuccessView,
};
use crate::state_logic::cut_starter_and_nibs_check::{dealer_is_seated, dealer_sits};
use crate::state_logic::play::wait_for_card::{card_was_played, was_played};
use crate::util::{next_seat, seat_after};
use crate::{GameImpl, GameState, GameView, PlayGroup, PlayGroupView};
use vstd::prelude::*;

verus! {

/// Whether a player holds a card that has not been played.
pub open spec fn cards_are_left(game: GameView) -> bool {
    exists|seat: int, c: int|
        0 <= seat < game.players.len() && 0 <= c < game.players[seat].hand.len() && !was_played(
            game.play_groups,
            #[trigger] game.players[seat].hand[c],
        )
}

/// What the reset of the play does. Without settings, or without a seated dealer, it is
/// refused and nothing changes. Where a player holds a card that has not been played, a new
/// group is opened, which nobody has played to. Else the hands are shown, beginning to the
/// left of the dealer.
pub open spec fn reset_play_step(game: GameView) -> (GameView, Result<SuccessView, ErrorView>) {
    if game.settings is None {
        (game, Err(ErrorView::ImplementationError(ImplError::NoConfig)))
    } else if !dealer_is_seated(game) {
        (game, Err(ErrorView::ImplementationError(ImplError::InconsistentGameRecord)))
    } else if cards_are_left(game) {
        (
            GameView {
                play_groups: game.play_groups.push(PlayGroupView { total: 0, cards: Seq::empty() }),
                last_player_index: None,
                last_play_was_go: false,
                state: GameState::PlayWaitForCard,
                ..game
            },
            Ok(SuccessView::ResetPlay(ResetPlayReturn::NextPlayGroup)),
        )
    } else {
        (
            GameView {
                index_active: Some(next_seat(game.index_dealer->0, game.players.len() as int)),
                state: GameState::ShowScore,
                ..game
            },
            Ok(SuccessView::ResetPlay(ResetPlayReturn::ToShowScore)),
        )
    }
}

/// Whether a player holds a card that has not been played.
fn any_card_left(game: &GameImpl) -> (r: bool)
    ensures
        r == cards_are_left(game@),
{
    let mut seat: usize = 0;
    while seat < game.players.len()
        invariant
            seat <= game.players.len(),
            forall|s: int, c: int|
                0 <= s < seat && 0 <= c < game@.players[s].hand.len() ==> was_played(
                    game@.play_groups,
                    #[trigger] game@.players[s].hand[c],
                ),
        decreases game.players.len() - seat,
    {
        assert(game@.players[seat as int] == game.players[seat as int]@);
        let mut c: usize = 0;
        while c < game.players[seat].hand.len()
            invariant
                seat < game.players.len(),
                c <= game.players[seat as int].hand.len(),
                game@.players[seat as int] == game.players[seat as int]@,
                forall|k: int|
                    0 <= k < c ==> was_played(
                        game@.play_groups,
                        #[trigger] game@.players[seat as int].hand[k],
                    ),
            decreases game.players[seat as int].hand.len() - c,
        {
            let card: Card = game.players[seat].hand[c];
            if !card_was_played(game, card) {
                assert(!was_played(game@.play_groups, game@.players[seat as int].hand[c as int]));
                return true;
            }
            c += 1;
        }
        seat += 1;
    }
    false
}

/// Opens the next group of the play, or goes on to the show.
pub fn reset_play(game: &mut GameImpl) -> (result: Result<Success, Error>)
    ensures
        (final(game)@, crate::game_process_return::result_view(result)) == reset_play_step(
            old(game)@,
        ),
{
    if game.settings.is_none() {
        return Err(Error::ImplementationError(ImplError::NoConfig));
    }
    if !dealer_sits(game) {
        return Err(Error::ImplementationError(ImplError::InconsistentGameRecord));
    }
    if any_card_left(game) {
        let ghost groups = game@.play_groups;
        game.play_groups.push(PlayGroup::new());
        assert(game@.play_groups =~= groups.push(PlayGroupView { total: 0, cards: Seq::empty() }));
        game.last_player_index = None;
        game.last_play_was_go = false;
        game.state = GameState::PlayWaitForCard;
        Ok(Success::ResetPlay(ResetPlayReturn::NextPlayGroup))
    } else {
        let dealer: u8 = game.index_dealer.unwrap();
        game.index_active = Some(seat_after(dealer, game.players.len()));
        game.state = GameState::ShowScore;
        Ok(Success::ResetPlay(ResetPlayReturn::ToShowScore))
    }
}

/// The reset of the play takes no player away and lowers no score.
pub proof fn lemma_reset_never_lowers_a_score(game: GameView)
    ensures
        crate::no_score_is_lower(game, reset_play_step(game).0),
{
}

} // verus!
