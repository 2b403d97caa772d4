//! Pegging the scores that were made, by the engine or by the players themselves, and the
//! claims of other players on what was missed. The play, the show and the crib share this.

use crate::game_process_return::{
    Error, ErrorView, ImplError, PlayScoreError, PlayScoreErrorView, Success, SuccessView,
};
use crate::score::{
    canonical_all, canonical_events, copy_event, copy_events, lemma_points_total_monotone,
    points_total, same_event, total_points, ScoreEvent, ScoreEventView,
};
use crate::state_logic::cut_starter_and_nibs_check::dealer_is_seated;
use crate::util::{
    after_score, can_score, next_seat, process_score, scoring_is_possible, seat_after,
};
use crate::{GameImpl, GameState, GameView};
use vstd::prelude::*;

verus! {

/// The three times at which scores are pegged.
#[derive(Debug, Clone, Copy, PartialEq, Eq, Structural)]
pub enum Phase {
    /// After a turn of the play
    Play,
    /// When a hand is shown
    Show,
    /// When the crib is shown
    Crib,
}

/// What is left of the scores once each of the claims, in order, has taken one score that
/// equals it; or the position of the first claim that finds none to take.
pub open spec fn after_claims(made: Seq<ScoreEventView>, claims: Seq<ScoreEventView>) -> Result<
    Seq<ScoreEventView>,
    int,
>
    decreases claims.len(),
{
    if claims.len() == 0 {
        Ok(made)
    } else {
        match after_claims(made, claims.drop_last()) {
            Err(at) => Err(at),
            Ok(left) => if left.contains(claims.last()) {
                Ok(left.remove_value(claims.last()))
            } else {
                Err(claims.len() - 1)
            },
        }
    }
}

/// Whether the active player is known and seated and the table has no more seats than an index
/// can name.
pub open spec fn active_is_seated(game: GameView) -> bool {
    &&& game.index_active matches Some(active) && active < game.players.len()
    &&& game.players.len() <= 255
}

/// Whether scores can be pegged at this time: in the play the active player is seated and a
/// group is open; in the show the active player and the dealer are seated; for the crib the
/// dealer is seated.
pub open spec fn pegging_is_possible(game: GameView, phase: Phase) -> bool {
    &&& game.settings is Some
    &&& match phase {
        Phase::Play => active_is_seated(game) && game.play_groups.len() > 0,
        Phase::Show => active_is_seated(game) && dealer_is_seated(game),
        Phase::Crib => dealer_is_seated(game),
    }
}

/// The player whose scores are pegged: the active player, and for the crib the dealer.
pub open spec fn scorer(game: GameView, phase: Phase) -> u8 {
    match phase {
        Phase::Crib => game.index_dealer->0,
        _ => game.index_active->0,
    }
}

/// Whether the current group of the play is closed: the active player is the one who played
/// its last card, and either has now said go, so that everybody has passed, or has taken the
/// group to 31.
pub open spec fn group_is_closed(game: GameView) -> bool {
    game.last_player_index == game.index_active && (game.last_play_was_go
        || game.play_groups.last().total == 31)
}

/// The game as it goes on once the scores are settled and nothing is left to claim. In the
/// play the next player becomes active, and a closed group is reset. In the show the next
/// hand is shown, and after the hand of the dealer the crib. After the crib the deal passes
/// to the left and the next hand is dealt.
pub open spec fn moved_on(game: GameView, phase: Phase) -> GameView {
    let n = game.players.len() as int;
    match phase {
        Phase::Play => GameView {
            state: if group_is_closed(game) {
                GameState::ResetPlay
            } else {
                GameState::PlayWaitForCard
            },
            index_active: Some(next_seat(game.index_active->0, n)),
            remaining_score_events: Seq::empty(),
            ..game
        },
        Phase::Show => if game.index_active == game.index_dealer {
            GameView {
                state: GameState::CribScore,
                remaining_score_events: Seq::empty(),
                ..game
            }
        } else {
            GameView {
                state: GameState::ShowScore,
                index_active: Some(next_seat(game.index_active->0, n)),
                remaining_score_events: Seq::empty(),
                ..game
            }
        },
        Phase::Crib => GameView {
            state: GameState::Deal,
            index_dealer: Some(next_seat(game.index_dealer->0, n)),
            remaining_score_events: Seq::empty(),
            ..game
        },
    }
}

/// The state in which the claims on missed scores are waited for.
pub open spec fn muggins_state(phase: Phase) -> GameState {
    match phase {
        Phase::Play => GameState::PlayMuggins,
        Phase::Show => GameState::ShowMuggins,
        Phase::Crib => GameState::CribMuggins,
    }
}

/// The error of a selection of scores at the given time.
pub open spec fn selection_error(phase: Phase, error: PlayScoreErrorView) -> ErrorView {
    match phase {
        Phase::Play => ErrorView::PlayScoreError(error),
        _ => ErrorView::ShowScoreError(error),
    }
}

/// What pegging does, given the scores that were made and the scores that the player
/// selects. With automatic scoring the selection is not looked at: the player is given all
/// that was made. With manual scoring each selected score must be one of the scores that
/// were made, the same score counting once only and the cards of a score counting in any
/// order; a selected score that was not made is refused, and so is a selection that misses a
/// score unless underpegging is on; the player is given what was selected. Where the points
/// cannot be given, the record cannot be right. Nothing changes where the pegging is refused.
/// Else the game goes on, or with muggins waits for claims on what was missed; it is won
/// where the points reach the goal. The result holds the scores that were pegged.
pub open spec fn peg_step(
    game: GameView,
    phase: Phase,
    made: Seq<ScoreEventView>,
    selected: Seq<ScoreEventView>,
) -> (GameView, Result<Seq<ScoreEventView>, ErrorView>) {
    let settings = game.settings->0;
    let seat = scorer(game, phase) as int;
    if !settings.is_manual_scoring {
        if !can_score(game, seat, points_total(made)) {
            (game, Err(ErrorView::ImplementationError(ImplError::InconsistentGameRecord)))
        } else {
            (after_score(moved_on(game, phase), seat, points_total(made)), Ok(made))
        }
    } else {
        match after_claims(canonical_all(made), canonical_all(selected)) {
            Err(at) => (
                game,
                Err(selection_error(phase, PlayScoreErrorView::OverpeggingIsNotAllowed(selected[at]))),
            ),
            Ok(left) => if left.len() > 0 && !settings.is_underpegging {
                (game, Err(selection_error(phase, PlayScoreErrorView::UnderpeggingIsNotAllowed)))
            } else if !can_score(game, seat, points_total(selected)) {
                (game, Err(ErrorView::ImplementationError(ImplError::InconsistentGameRecord)))
            } else if settings.is_muggins {
                (
                    after_score(
                        GameView {
                            state: muggins_state(phase),
                            remaining_score_events: left,
                            ..game
                        },
                        seat,
                        points_total(selected),
                    ),
                    Ok(selected),
                )
            } else {
                (after_score(moved_on(game, phase), seat, points_total(selected)), Ok(selected))
            },
        }
    }
}

/// A claim as the score that the scorer would have pegged: the same score, made by the scorer.
pub open spec fn as_made_by(claim: ScoreEventView, scorer: u8) -> ScoreEventView {
    ScoreEventView { player_index: scorer, ..claim }
}

/// The claims as the scores that the scorer would have pegged.
pub open spec fn claims_as_made(claims: Seq<ScoreEventView>, scorer: u8) -> Seq<ScoreEventView> {
    Seq::new(claims.len(), |i: int| as_made_by(claims[i], scorer))
}

/// The position of the first claim that is not made by another seated player, if there is one.
pub open spec fn first_bad_claimer(claims: Seq<ScoreEventView>, scorer: u8, n: int, upto: int) -> Option<
    int,
>
    decreases upto,
{
    if upto <= 0 {
        None
    } else {
        match first_bad_claimer(claims, scorer, n, upto - 1) {
            Some(at) => Some(at),
            None => if claims[upto - 1].player_index == scorer || claims[upto - 1].player_index
                >= n {
                Some(upto - 1)
            } else {
                None
            },
        }
    }
}

/// Whether the points of the claims can be given whoever claims them: no score leaves the
/// range of a peg position, and every partner is another seated player.
pub open spec fn claims_fit(game: GameView, claims: Seq<ScoreEventView>) -> bool {
    &&& forall|i: int|
        0 <= i < game.players.len() ==> (#[trigger] game.players[i]).front_peg_pos + points_total(
            claims,
        ) <= u8::MAX
    &&& forall|i: int|
        0 <= i < game.players.len() ==> ((#[trigger] game.players[i]).partner_index matches Some(
            partner,
        ) ==> partner < game.players.len() && partner != i)
}

/// The game after each claimer, in the order of the claims, scored the points of the claim.
pub open spec fn after_claim_scores(game: GameView, claims: Seq<ScoreEventView>) -> GameView
    decreases claims.len(),
{
    if claims.len() == 0 {
        game
    } else {
        after_score(
            after_claim_scores(game, claims.drop_last()),
            claims.last().player_index as int,
            claims.last().point_value as int,
        )
    }
}

/// What the claims on missed scores do. A claim is good where another seated player makes it
/// and a missed score that no earlier claim has taken is the same score but for the player. The
/// first claim by a wrong player, or else the first claim without a score to take, is
/// refused as overpegging and nothing changes. Else each claimer scores the points of the
/// claim, in the order of the claims, what is not claimed is lost, and the game goes on; it
/// is won where the points reach the goal.
pub open spec fn muggins_step(game: GameView, phase: Phase, claims: Seq<ScoreEventView>) -> (
    GameView,
    Result<SuccessView, ErrorView>,
) {
    let n = game.players.len() as int;
    if game.settings is None {
        (game, Err(ErrorView::ImplementationError(ImplError::NoConfig)))
    } else if !pegging_is_possible(game, phase) {
        (game, Err(ErrorView::ImplementationError(ImplError::InconsistentGameRecord)))
    } else {
        let by = scorer(game, phase);
        match first_bad_claimer(claims, by, n, claims.len() as int) {
            Some(at) => (
                game,
                Err(ErrorView::MugginsError(PlayScoreErrorView::OverpeggingIsNotAllowed(claims[at]))),
            ),
            None => match after_claims(
                canonical_all(game.remaining_score_events),
                canonical_all(claims_as_made(claims, by)),
            ) {
                Err(at) => (
                    game,
                    Err(
                        ErrorView::MugginsError(
                            PlayScoreErrorView::OverpeggingIsNotAllowed(claims[at]),
                        ),
                    ),
                ),
                Ok(_) => if !claims_fit(game, claims) {
                    (game, Err(ErrorView::ImplementationError(ImplError::InconsistentGameRecord)))
                } else {
                    (after_claim_scores(moved_on(game, phase), claims), Ok(SuccessView::Muggins(claims)))
                },
            },
        }
    }
}

/// Once a claim has found no score to take, the claims after it change nothing.
pub proof fn lemma_refused_claim_stays(
    made: Seq<ScoreEventView>,
    claims: Seq<ScoreEventView>,
    k: int,
)
    requires
        0 <= k <= claims.len(),
        after_claims(made, claims.subrange(0, k)) is Err,
    ensures
        after_claims(made, claims) == after_claims(made, claims.subrange(0, k)),
    decreases claims.len() - k,
{
    if k == claims.len() {
        assert(claims.subrange(0, k) =~= claims);
    } else {
        assert(claims.subrange(0, k + 1).drop_last() =~= claims.subrange(0, k));
        lemma_refused_claim_stays(made, claims, k + 1);
    }
}

/// A selection that holds exactly the scores that were made, in the order in which they were
/// made, takes every one of them: no claim is refused and nothing is left.
pub proof fn lemma_complete_selection_takes_all(made: Seq<ScoreEventView>)
    ensures
        after_claims(made, made) == Ok::<Seq<ScoreEventView>, int>(Seq::empty()),
{
    lemma_first_claims_take_first_scores(made, made.len() as int);
    assert(made.subrange(0, made.len() as int) =~= made);
    assert(made.subrange(made.len() as int, made.len() as int) =~= Seq::<ScoreEventView>::empty());
}

/// The first `k` of the scores, claimed in order, take just themselves and leave the rest.
pub proof fn lemma_first_claims_take_first_scores(made: Seq<ScoreEventView>, k: int)
    requires
        0 <= k <= made.len(),
    ensures
        after_claims(made, made.subrange(0, k)) == Ok::<Seq<ScoreEventView>, int>(
            made.subrange(k, made.len() as int),
        ),
    decreases k,
{
    if k == 0 {
        assert(made.subrange(0, made.len() as int) =~= made);
    } else {
        lemma_first_claims_take_first_scores(made, k - 1);
        let claims = made.subrange(0, k);
        assert(claims.drop_last() =~= made.subrange(0, k - 1));
        let left = made.subrange(k - 1, made.len() as int);
        assert(left[0] == claims.last());
        left.index_of_first_ensures(claims.last());
        assert(left.index_of_first(claims.last()) == Some(0int));
        assert(left.remove(0) =~= made.subrange(k, made.len() as int));
    }
}

/// Once a claim is made by a wrong player, the claims after it change nothing.
pub proof fn lemma_bad_claimer_stays(claims: Seq<ScoreEventView>, scorer: u8, n: int, k: int, upto: int)
    requires
        0 <= k <= upto,
        first_bad_claimer(claims, scorer, n, k) is Some,
    ensures
        first_bad_claimer(claims, scorer, n, upto) == first_bad_claimer(claims, scorer, n, k),
    decreases upto - k,
{
    if k < upto {
        lemma_bad_claimer_stays(claims, scorer, n, k, upto - 1);
    }
}

/// Lets each claim, in order, take one score that equals it from the scores that were made.
/// Returns what is left, or the position of the first claim that finds none to take.
pub fn settle_claims(made: &Vec<ScoreEvent>, claims: &Vec<ScoreEvent>) -> (result: Result<
    Vec<ScoreEvent>,
    usize,
>)
    ensures
        match after_claims(made.deep_view(), claims.deep_view()) {
            Ok(left) => result matches Ok(rest) && rest.deep_view() == left,
            Err(at) => result == Err::<Vec<ScoreEvent>, usize>(at as usize) && 0 <= at
                < claims.len(),
        },
{
    let ghost all = claims.deep_view();
    let mut left: Vec<ScoreEvent> = copy_events(made);
    let mut k: usize = 0;
    assert(all.subrange(0, 0) =~= Seq::<ScoreEventView>::empty());
    while k < claims.len()
        invariant
            k <= claims.len(),
            all == claims.deep_view(),
            after_claims(made.deep_view(), all.subrange(0, k as int)) == Ok::<
                Seq<ScoreEventView>,
                int,
            >(left.deep_view()),
        decreases claims.len() - k,
    {
        let ghost before = left.deep_view();
        let ghost claim = all[k as int];
        assert(claim == claims[k as int]@);
        let mut i: usize = 0;
        while i < left.len() && !same_event(&left[i], &claims[k])
            invariant
                i <= left.len(),
                k < claims.len(),
                claim == claims[k as int]@,
                before == left.deep_view(),
                forall|j: int| 0 <= j < i ==> before[j] != claim,
            decreases left.len() - i,
        {
            i += 1;
        }
        proof {
            assert(all.subrange(0, k as int + 1).drop_last() =~= all.subrange(0, k as int));
            assert(all.subrange(0, k as int + 1).last() == claim);
            before.index_of_first_ensures(claim);
        }
        if i == left.len() {
            proof {
                assert(!before.contains(claim));
                lemma_refused_claim_stays(made.deep_view(), all, k as int + 1);
            }
            return Err(k);
        }
        assert(before[i as int] == claim);
        assert(before.index_of_first(claim) == Some(i as int));
        left.remove(i);
        assert(left.deep_view() =~= before.remove(i as int));
        k += 1;
    }
    assert(all.subrange(0, k as int) =~= all);
    Ok(left)
}

/// Whether the active player is known and seated.
pub fn active_sits(game: &GameImpl) -> (r: bool)
    ensures
        r == active_is_seated(game@),
{
    match game.index_active {
        Some(active) => (active as usize) < game.players.len() && game.players.len() <= 255,
        None => false,
    }
}

/// Whether scores can be pegged at this time.
pub fn can_peg(game: &GameImpl, phase: Phase) -> (r: bool)
    ensures
        r == pegging_is_possible(game@, phase),
{
    if game.settings.is_none() {
        return false;
    }
    match phase {
        Phase::Play => active_sits(game) && game.play_groups.len() > 0,
        Phase::Show => active_sits(game)
            && crate::state_logic::cut_starter_and_nibs_check::dealer_sits(game),
        Phase::Crib => crate::state_logic::cut_starter_and_nibs_check::dealer_sits(game),
    }
}

/// The player whose scores are pegged.
pub fn scoring_player(game: &GameImpl, phase: Phase) -> (seat: u8)
    requires
        pegging_is_possible(game@, phase),
    ensures
        seat == scorer(game@, phase),
        seat < game@.players.len(),
{
    match phase {
        Phase::Crib => game.index_dealer.unwrap(),
        _ => game.index_active.unwrap(),
    }
}

/// Lets the game go on once the scores are settled and nothing is left to claim.
pub fn move_on(game: &mut GameImpl, phase: Phase)
    requires
        pegging_is_possible(old(game)@, phase),
    ensures
        final(game)@ == moved_on(old(game)@, phase),
{
    let n: usize = game.players.len();
    game.remaining_score_events = Vec::new();
    assert(game@.remaining_score_events =~= Seq::empty());
    match phase {
        Phase::Play => {
            let active: u8 = game.index_active.unwrap();
            let last: usize = game.play_groups.len() - 1;
            assert(game@.play_groups.last() == game.play_groups[last as int]@);
            let by_last_player: bool = match game.last_player_index {
                Some(last_player) => last_player == active,
                None => false,
            };
            let closed: bool = by_last_player && (game.last_play_was_go
                || game.play_groups[last].total == 31);
            if closed {
                game.state = GameState::ResetPlay;
            } else {
                game.state = GameState::PlayWaitForCard;
            }
            game.index_active = Some(seat_after(active, n));
        },
        Phase::Show => {
            let active: u8 = game.index_active.unwrap();
            let dealer: u8 = game.index_dealer.unwrap();
            if active == dealer {
                game.state = GameState::CribScore;
            } else {
                game.state = GameState::ShowScore;
                game.index_active = Some(seat_after(active, n));
            }
        },
        Phase::Crib => {
            let dealer: u8 = game.index_dealer.unwrap();
            game.state = GameState::Deal;
            game.index_dealer = Some(seat_after(dealer, n));
        },
    }
}

/// The state in which the claims on missed scores are waited for.
fn state_for_claims(phase: Phase) -> (state: GameState)
    ensures
        state == muggins_state(phase),
{
    match phase {
        Phase::Play => GameState::PlayMuggins,
        Phase::Show => GameState::ShowMuggins,
        Phase::Crib => GameState::CribMuggins,
    }
}

/// The error of a selection of scores at the given time.
fn error_for_selection(phase: Phase, error: PlayScoreError) -> (r: Error)
    ensures
        r@ == selection_error(phase, error@),
{
    match phase {
        Phase::Play => Error::PlayScoreError(error),
        _ => Error::ShowScoreError(error),
    }
}

/// Pegs the scores of the scoring player, given the scores that were made and the scores
/// that the player selects. Returns the scores that were pegged.
pub fn peg(
    game: &mut GameImpl,
    phase: Phase,
    made: Vec<ScoreEvent>,
    selected: Vec<ScoreEvent>,
) -> (result: Result<Vec<ScoreEvent>, Error>)
    requires
        pegging_is_possible(old(game)@, phase),
    ensures
        final(game)@ == peg_step(old(game)@, phase, made.deep_view(), selected.deep_view()).0,
        match peg_step(old(game)@, phase, made.deep_view(), selected.deep_view()).1 {
            Ok(events) => result matches Ok(pegged) && pegged.deep_view() == events,
            Err(error) => result matches Err(e) && e@ == error,
        },
{
    let settings = game.settings.unwrap();
    let seat: usize = scoring_player(game, phase) as usize;
    let ghost before = game@;
    if !settings.is_manual_scoring {
        let points: u8 = match total_points(&made) {
            Some(points) => points,
            None => {
                return Err(Error::ImplementationError(ImplError::InconsistentGameRecord));
            },
        };
        if !scoring_is_possible(game, seat, points) {
            return Err(Error::ImplementationError(ImplError::InconsistentGameRecord));
        }
        move_on(game, phase);
        process_score(game, seat, points);
        return Ok(made);
    }
    let left: Vec<ScoreEvent> = match settle_claims(
        &canonical_events(&made),
        &canonical_events(&selected),
    ) {
        Err(at) => {
            return Err(
                error_for_selection(
                    phase,
                    PlayScoreError::OverpeggingIsNotAllowed(copy_event(&selected[at])),
                ),
            );
        },
        Ok(left) => left,
    };
    if left.len() > 0 && !settings.is_underpegging {
        return Err(error_for_selection(phase, PlayScoreError::UnderpeggingIsNotAllowed));
    }
    let points: u8 = match total_points(&selected) {
        Some(points) => points,
        None => {
            return Err(Error::ImplementationError(ImplError::InconsistentGameRecord));
        },
    };
    if !scoring_is_possible(game, seat, points) {
        return Err(Error::ImplementationError(ImplError::InconsistentGameRecord));
    }
    if settings.is_muggins {
        game.state = state_for_claims(phase);
        game.remaining_score_events = left;
    } else {
        move_on(game, phase);
    }
    assert(game@.players == before.players);
    process_score(game, seat, points);
    Ok(selected)
}

/// After a score no player holds other cards, has another partner, or has a score that is
/// lower or more than the points higher than before.
pub proof fn lemma_after_score_scores(game: GameView, seat: int, points: int)
    requires
        can_score(game, seat, points),
        0 <= points,
    ensures
        after_score(game, seat, points).players.len() == game.players.len(),
        after_score(game, seat, points).settings == game.settings,
        forall|i: int|
            0 <= i < game.players.len() ==> {
                let player = #[trigger] after_score(game, seat, points).players[i];
                &&& player.partner_index == game.players[i].partner_index
                &&& game.players[i].front_peg_pos <= player.front_peg_pos
                    <= game.players[i].front_peg_pos + points
            },
{
}

/// Where the points of all the claims fit, the points of each claim can be given after the
/// claims before it.
pub proof fn lemma_claims_can_score(game: GameView, claims: Seq<ScoreEventView>, n: int, k: int)
    requires
        game.settings is Some,
        claims_fit(game, claims),
        0 <= k <= claims.len(),
        n == game.players.len(),
        forall|i: int| 0 <= i < claims.len() ==> (#[trigger] claims[i]).player_index < n,
    ensures
        after_claim_scores(game, claims.subrange(0, k)).players.len() == n,
        after_claim_scores(game, claims.subrange(0, k)).settings == game.settings,
        forall|i: int|
            0 <= i < n ==> {
                let player = #[trigger] after_claim_scores(game, claims.subrange(0, k)).players[i];
                &&& player.partner_index == game.players[i].partner_index
                &&& game.players[i].front_peg_pos <= player.front_peg_pos
                    <= game.players[i].front_peg_pos + points_total(claims.subrange(0, k))
            },
        k < claims.len() ==> can_score(
            after_claim_scores(game, claims.subrange(0, k)),
            claims[k].player_index as int,
            claims[k].point_value as int,
        ),
    decreases k,
{
    lemma_points_total_monotone(claims, k);
    if k > 0 {
        lemma_claims_can_score(game, claims, n, k - 1);
        let earlier = claims.subrange(0, k - 1);
        assert(claims.subrange(0, k).drop_last() =~= earlier);
        assert(claims.subrange(0, k).last() == claims[k - 1]);
        let before = after_claim_scores(game, earlier);
        lemma_after_score_scores(
            before,
            claims[k - 1].player_index as int,
            claims[k - 1].point_value as int,
        );
    } else {
        assert(claims.subrange(0, 0) =~= Seq::<ScoreEventView>::empty());
    }
    if k < claims.len() {
        lemma_points_total_monotone(claims, k + 1);
        assert(claims.subrange(0, k + 1).drop_last() =~= claims.subrange(0, k));
        assert(claims.subrange(0, k + 1).last() == claims[k]);
    }
}

/// Where no claim is made by a wrong player, every claimer is a seated player.
pub proof fn lemma_good_claimers_are_seated(claims: Seq<ScoreEventView>, scorer: u8, n: int, upto: int)
    requires
        0 <= upto <= claims.len(),
        first_bad_claimer(claims, scorer, n, upto) is None,
    ensures
        forall|i: int| 0 <= i < upto ==> (#[trigger] claims[i]).player_index < n,
    decreases upto,
{
    if upto > 0 {
        lemma_good_claimers_are_seated(claims, scorer, n, upto - 1);
    }
}

/// Giving the claimers their points leaves the groups of the play as they are.
pub proof fn lemma_claim_scores_keep_groups(game: GameView, claims: Seq<ScoreEventView>)
    ensures
        after_claim_scores(game, claims).play_groups == game.play_groups,
    decreases claims.len(),
{
    if claims.len() > 0 {
        lemma_claim_scores_keep_groups(game, claims.drop_last());
    }
}

/// Whether the points of the claims can be given whoever claims them.
fn claims_can_be_given(game: &GameImpl, claims: &Vec<ScoreEvent>) -> (r: bool)
    ensures
        r == claims_fit(game@, claims.deep_view()),
{
    let points: u8 = match total_points(claims) {
        Some(points) => points,
        None => {
            if game.players.len() == 0 {
                return true;
            }
            assert(game@.players[0] == game.players[0]@);
            return false;
        },
    };
    let mut i: usize = 0;
    while i < game.players.len()
        invariant
            i <= game.players.len(),
            points as int == points_total(claims.deep_view()),
            forall|k: int|
                0 <= k < i ==> (#[trigger] game@.players[k]).front_peg_pos + points <= u8::MAX,
            forall|k: int|
                0 <= k < i ==> ((#[trigger] game@.players[k]).partner_index matches Some(partner)
                    ==> partner < game.players.len() && partner != k),
        decreases game.players.len() - i,
    {
        assert(game@.players[i as int] == game.players[i as int]@);
        if game.players[i].front_peg_pos > 255 - points {
            return false;
        }
        match game.players[i].partner_index {
            Some(partner) => {
                if partner as usize >= game.players.len() || partner as usize == i {
                    return false;
                }
            },
            None => {},
        }
        i += 1;
    }
    true
}

/// Takes the claims of other players on the scores that the scoring player has missed.
pub fn process_muggins(game: &mut GameImpl, phase: Phase, claims: Vec<ScoreEvent>) -> (result:
    Result<Success, Error>)
    ensures
        (final(game)@, crate::game_process_return::result_view(result)) == muggins_step(
            old(game)@,
            phase,
            claims.deep_view(),
        ),
{
    if game.settings.is_none() {
        return Err(Error::ImplementationError(ImplError::NoConfig));
    }
    if !can_peg(game, phase) {
        return Err(Error::ImplementationError(ImplError::InconsistentGameRecord));
    }
    let ghost before = game@;
    let ghost all = claims.deep_view();
    let by: u8 = scoring_player(game, phase);
    let n: usize = game.players.len();
    // Every claim is made by another player, and is taken as the score that was missed
    let mut as_made: Vec<ScoreEvent> = Vec::new();
    let mut k: usize = 0;
    while k < claims.len()
        invariant
            k <= claims.len(),
            all == claims.deep_view(),
            n == before.players.len(),
            game@ == before,
            before.settings is Some,
            pegging_is_possible(before, phase),
            by == scorer(before, phase),
            first_bad_claimer(all, by, n as int, k as int) is None,
            as_made.len() == k,
            forall|j: int| 0 <= j < k ==> (#[trigger] as_made@[j])@ == as_made_by(all[j], by),
            forall|j: int| 0 <= j < k ==> (#[trigger] all[j]).player_index < n,
        decreases claims.len() - k,
    {
        assert(all[k as int] == claims[k as int]@);
        if claims[k].player_index == by || claims[k].player_index as usize >= n {
            proof {
                assert(first_bad_claimer(all, by, n as int, k as int + 1) == Some(k as int));
                lemma_bad_claimer_stays(all, by, n as int, k as int + 1, all.len() as int);
            }
            return Err(
                Error::MugginsError(
                    PlayScoreError::OverpeggingIsNotAllowed(copy_event(&claims[k])),
                ),
            );
        }
        let mut claim: ScoreEvent = copy_event(&claims[k]);
        claim.player_index = by;
        as_made.push(claim);
        k += 1;
    }
    assert(as_made.deep_view() =~= claims_as_made(all, by));
    match settle_claims(
        &canonical_events(&game.remaining_score_events),
        &canonical_events(&as_made),
    ) {
        Err(at) => {
            return Err(
                Error::MugginsError(
                    PlayScoreError::OverpeggingIsNotAllowed(copy_event(&claims[at])),
                ),
            );
        },
        Ok(_) => {},
    }
    if !claims_can_be_given(game, &claims) {
        return Err(Error::ImplementationError(ImplError::InconsistentGameRecord));
    }
    move_on(game, phase);
    let ghost moved = game@;
    assert(claims_fit(moved, all)) by {
        assert(moved.players == before.players);
    }
    let mut c: usize = 0;
    assert(all.subrange(0, 0) =~= Seq::<ScoreEventView>::empty());
    while c < claims.len()
        invariant
            c <= claims.len(),
            all == claims.deep_view(),
            moved.settings is Some,
            claims_fit(moved, all),
            n == moved.players.len(),
            forall|j: int| 0 <= j < all.len() ==> (#[trigger] all[j]).player_index < n,
            game@ == after_claim_scores(moved, all.subrange(0, c as int)),
        decreases claims.len() - c,
    {
        proof {
            lemma_claims_can_score(moved, all, n as int, c as int);
            assert(all.subrange(0, c as int + 1).drop_last() =~= all.subrange(0, c as int));
            assert(all.subrange(0, c as int + 1).last() == all[c as int]);
            assert(all[c as int] == claims[c as int]@);
        }
        process_score(game, claims[c].player_index as usize, claims[c].point_value);
        c += 1;
    }
    assert(all.subrange(0, c as int) =~= all);
    Ok(Success::Muggins(claims))
}

/// Pegging takes no player away and lowers no score.
pub proof fn lemma_pegging_never_lowers_a_score(
    game: GameView,
    phase: Phase,
    made: Seq<ScoreEventView>,
    selected: Seq<ScoreEventView>,
)
    requires
        pegging_is_possible(game, phase),
    ensures
        crate::no_score_is_lower(game, peg_step(game, phase, made, selected).0),
{
    crate::score::lemma_points_total_nonnegative(made);
    crate::score::lemma_points_total_nonnegative(selected);
}

/// The claims on missed scores take no player away and lower no score.
pub proof fn lemma_muggins_never_lowers_a_score(
    game: GameView,
    phase: Phase,
    claims: Seq<ScoreEventView>,
)
    ensures
        crate::no_score_is_lower(game, muggins_step(game, phase, claims).0),
{
    let n = game.players.len() as int;
    if game.settings is Some && pegging_is_possible(game, phase) {
        let by = scorer(game, phase);
        if first_bad_claimer(claims, by, n, claims.len() as int) is None && claims_fit(
            game,
            claims,
        ) {
            let moved = moved_on(game, phase);
            lemma_good_claimers_are_seated(claims, by, n, claims.len() as int);
            assert(claims.subrange(0, claims.len() as int) =~= claims);
            assert(claims_fit(moved, claims));
            lemma_claims_can_score(moved, claims, n, claims.len() as int);
        }
    }
}

} // verus!
