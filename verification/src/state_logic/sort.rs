//! Sorting the hands after the deal.

use crate::deck::{card_order, sort_cards};
use crate::game_process_return::{Error, ErrorView, Success, SuccessView};
use crate::player::PlayerView;
use crate::{GameImpl, GameState, GameView};
use vstd::prelude::*;

verus! {

/// The players with each hand in the card order.
pub open spec fn with_sorted_hands(players: Seq<PlayerView>) -> Seq<PlayerView> {
    Seq::new(
        players.len(),
        |i: int| PlayerView { hand: players[i].hand.sort_by(card_order()), ..players[i] },
    )
}

/// What sorting does: every hand is put into the card order and the game goes on to the
/// discards.
pub open spec fn sort_step(game: GameView) -> (GameView, Result<SuccessView, ErrorView>) {
    (
        GameView {
            players: with_sorted_hands(game.players),
            state: GameState::Discard,
            ..game
        },
        Ok(SuccessView::Sort),
    )
}

/// Sorts the hand of every player.
pub fn process_sort(game: &mut GameImpl) -> (result: Result<Success, Error>)
    ensures
        (final(game)@, crate::game_process_return::result_view(result)) == sort_step(old(game)@),
{
    let ghost before = game@;
    let mut i: usize = 0;
    while i < game.players.len()
        invariant
            i <= game.players.len(),
            game.players.len() == before.players.len(),
            game@ == (GameView { players: game@.players, ..before }),
            forall|k: int|
                0 <= k < i ==> (#[trigger] game@.players[k]) == with_sorted_hands(before.players)[k],
            forall|k: int| i <= k < game.players.len() ==> (#[trigger] game@.players[k])
                == before.players[k],
        decreases game.players.len() - i,
    {
        let ghost players = game@.players;
        assert(players[i as int] == game.players[i as int]@);
        sort_cards(&mut game.players[i].hand);
        assert(game@.players =~= players.update(
            i as int,
            with_sorted_hands(before.players)[i as int],
        ));
        i += 1;
    }
    assert(game@.players =~= with_sorted_hands(before.players));
    game.state = GameState::Discard;
    Ok(Success::Sort)
}

/// Sorting takes no player away and lowers no score.
pub proof fn lemma_sort_never_lowers_a_score(game: GameView)
    ensures
        crate::no_score_is_lower(game, sort_step(game).0),
{
}

} // verus!
