//! The claims of other players on the scores that the active player missed in the play.

use crate::game_process_return::{Error, Success};
use crate::score::{ScoreEvent, ScoreEventView};
use crate::state_logic::manual::{muggins_step, process_muggins, Phase};
use crate::GameImpl;
use vstd::prelude::*;

verus! {

/// The claims that a selection holds: none where there is no selection.
pub open spec fn claims_of(selection: Option<Vec<ScoreEvent>>) -> Seq<ScoreEventView> {
    match selection {
        Some(claims) => claims.deep_view(),
        None => Seq::empty(),
    }
}

/// The list of events that a selection holds: none where there is no selection.
pub fn events_of_selection(selection: Option<Vec<ScoreEvent>>) -> (events: Vec<ScoreEvent>)
    ensures
        events.deep_view() == claims_of(selection),
{
    match selection {
        Some(claims) => claims,
        None => {
            let events: Vec<ScoreEvent> = Vec::new();
            assert(events.deep_view() =~= Seq::empty());
            events
        },
    }
}

/// Takes the claims on the scores missed in the last turn of the play.
pub fn play_muggins(game: &mut GameImpl, selection: Option<Vec<ScoreEvent>>) -> (result: Result<
    Success,
    Error,
>)
    ensures
        (final(game)@, crate::game_process_return::result_view(result)) == muggins_step(
            old(game)@,
            Phase::Play,
            claims_of(selection),
        ),
{
    let claims = events_of_selection(selection);
    process_muggins(game, Phase::Play, claims)
}

} // verus!
