//! The end of a game that a player has won.

use crate::game_process_return::{Error, ErrorView, ImplError, Success, SuccessView};
use crate::settings::win_threshold;
use crate::util::threshold;
use crate::{GameImpl, GameState, GameView};
use vstd::prelude::*;

verus! {

/// Whether the seat has reached the score at which it wins.
pub open spec fn has_won(game: GameView, seat: int) -> bool {
    game.players[seat].front_peg_pos >= win_threshold(
        game.settings->0.variant,
        game.players[seat].partner_index is Some,
    )
}

/// The lowest seat below `upto` that has won, if there is one.
pub open spec fn first_winner(game: GameView, upto: int) -> Option<int>
    decreases upto,
{
    if upto <= 0 {
        None
    } else {
        match first_winner(game, upto - 1) {
            Some(seat) => Some(seat),
            None => if has_won(game, upto - 1) {
                Some(upto - 1)
            } else {
                None
            },
        }
    }
}

/// What the end of a won game does. Without settings, with more seats than an index can
/// name, or where no player has won, it is refused and nothing changes. Else the game is
/// over and the result names the winner: the lowest seat that has won.
pub open spec fn win_step(game: GameView) -> (GameView, Result<SuccessView, ErrorView>) {
    if game.settings is None {
        (game, Err(ErrorView::ImplementationError(ImplError::NoConfig)))
    } else if game.players.len() > 255 {
        (game, Err(ErrorView::ImplementationError(ImplError::InconsistentGameRecord)))
    } else {
        match first_winner(game, game.players.len() as int) {
            Some(seat) => (
                GameView { state: GameState::End, ..game },
                Ok(SuccessView::Win(seat as u8)),
            ),
            None => (game, Err(ErrorView::ImplementationError(ImplError::InconsistentGameRecord))),
        }
    }
}

/// Once a seat has won, the seats after it do not change who the first winner is.
pub proof fn lemma_first_winner_stays(game: GameView, k: int, upto: int)
    requires
        0 <= k <= upto,
        first_winner(game, k) is Some,
    ensures
        first_winner(game, upto) == first_winner(game, k),
    decreases upto - k,
{
    if k < upto {
        lemma_first_winner_stays(game, k, upto - 1);
    }
}

/// Ends a game that a player has won.
pub fn process_win(game: &mut GameImpl) -> (result: Result<Success, Error>)
    ensures
        (final(game)@, crate::game_process_return::result_view(result)) == win_step(old(game)@),
{
    let settings = match game.settings {
        None => {
            return Err(Error::ImplementationError(ImplError::NoConfig));
        },
        Some(settings) => settings,
    };
    if game.players.len() > 255 {
        return Err(Error::ImplementationError(ImplError::InconsistentGameRecord));
    }
    let mut seat: usize = 0;
    while seat < game.players.len()
        invariant
            seat <= game.players.len() <= 255,
            game@ == old(game)@,
            game@.settings == Some(settings),
            first_winner(game@, seat as int) is None,
        decreases game.players.len() - seat,
    {
        assert(game@.players[seat as int] == game.players[seat as int]@);
        let player = &game.players[seat];
        if player.front_peg_pos >= threshold(settings.variant, player.partner_index.is_some()) {
            proof {
                assert(first_winner(game@, seat as int + 1) == Some(seat as int));
                lemma_first_winner_stays(game@, seat as int + 1, game.players.len() as int);
            }
            game.state = GameState::End;
            return Ok(Success::Win(seat as u8));
        }
        seat += 1;
    }
    Err(Error::ImplementationError(ImplError::InconsistentGameRecord))
}

/// The end of the game takes no player away and lowers no score.
pub proof fn lemma_end_never_lowers_a_score(game: GameView)
    ensures
        crate::no_score_is_lower(game, win_step(game).0),
{
}

} // verus!
