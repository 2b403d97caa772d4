//! A turn of the play: the active player plays a card to the current group, or says go where
//! no card of the hand can be played.

use crate::deck::{return_play_value, Card};
use crate::game_process_return::{
    Error, ErrorView, ImplError, PlayTurnError, PlayWaitForCardReturn, PlayWaitForCardReturnView,
    Success, SuccessView,
};
use crate::score::play::{play_events, play_score};
use crate::score::{play_event, points_total, total_points, PlayScoreType, ScoreEvent, ScoreType};
use crate::settings::RuleVariant;
use crate::util::{after_score, can_score, next_seat, process_score, scoring_is_possible, seat_after};
use crate::{
    card_fits, group_after_card, GameImpl, GameState, GameView, PlayGroupView, PlayTurn,
};
use vstd::prelude::*;

verus! {

/// The highest index that a turn may name: one less than the number of cards that a hand
/// holds in the play.
pub open spec fn highest_play_index(variant: RuleVariant) -> int {
    match variant {
        RuleVariant::TwoFiveCard => 2,
        RuleVariant::TwoSevenCard => 4,
        _ => 3,
    }
}

/// The error for an index that names no card of the hand.
pub open spec fn index_error(variant: RuleVariant) -> PlayTurnError {
    match variant {
        RuleVariant::TwoFiveCard => PlayTurnError::IndexIsBetween0And2InclusiveWithTwoFiveCard,
        RuleVariant::TwoSevenCard => PlayTurnError::IndexIsBetween0And4InclusiveWithTwoSevenCard,
        _ => PlayTurnError::IndexIsBetween0And3InclusiveWithThisRuleVariant,
    }
}

/// Whether the card lies in one of the groups.
pub open spec fn was_played(groups: Seq<PlayGroupView>, card: Card) -> bool {
    exists|i: int| 0 <= i < groups.len() && (#[trigger] groups[i]).cards.contains(card)
}

/// Whether the card could be played now: it has not been played and it fits the current group.
pub open spec fn is_playable(game: GameView, card: Card) -> bool {
    !was_played(game.play_groups, card) && card_fits(game.play_groups.last(), card)
}

/// Whether the hand holds a card that could be played now.
pub open spec fn holds_playable(game: GameView, hand: Seq<Card>) -> bool {
    exists|i: int| 0 <= i < hand.len() && is_playable(game, #[trigger] hand[i])
}

/// Whether a turn can be taken: the active player is known and seated, the table has no more
/// seats than an index can name, and a group is open.
pub open spec fn play_is_possible(game: GameView) -> bool {
    &&& game.settings is Some
    &&& game.index_active matches Some(active) && active < game.players.len()
    &&& game.players.len() <= 255
    &&& game.play_groups.len() > 0
}

/// The event for the last card of a group.
pub open spec fn last_card_event(seat: u8) -> crate::score::ScoreEventView {
    play_event(PlayScoreType::LastCard, seat, 1)
}

/// What playing the card at `index` of the hand of the active player does. The turn is
/// refused, and nothing changes, where the index names no card of the hand, where the card
/// was played before, and where it would take the group over 31. Else the card joins the
/// group. With manual scoring the scores are asked for next. With automatic scoring the
/// player is given the scores for the card, the next player becomes active, and a group
/// that stands at 31 is closed; the game is won where the points reach the goal.
pub open spec fn card_step(game: GameView, index: u8) -> (GameView, Result<SuccessView, ErrorView>) {
    let settings = game.settings->0;
    let active = game.index_active->0;
    let hand = game.players[active as int].hand;
    let n = game.players.len() as int;
    if index > highest_play_index(settings.variant) || index >= hand.len() {
        (game, Err(ErrorView::PlayWaitForCardError(index_error(settings.variant))))
    } else if was_played(game.play_groups, hand[index as int]) {
        (game, Err(ErrorView::PlayWaitForCardError(PlayTurnError::CardHasAlreadyBeenPlayed)))
    } else if !card_fits(game.play_groups.last(), hand[index as int]) {
        (game, Err(ErrorView::PlayWaitForCardError(PlayTurnError::PlayGroupTotalMayNotExceed31)))
    } else {
        let group = group_after_card(game.play_groups.last(), hand[index as int]);
        let placed = GameView {
            play_groups: game.play_groups.update(game.play_groups.len() - 1, group),
            last_player_index: Some(active),
            last_play_was_go: false,
            ..game
        };
        if settings.is_manual_scoring {
            (
                GameView { state: GameState::PlayScore, ..placed },
                Ok(SuccessView::PlayWaitForCard(PlayWaitForCardReturnView::ManualScoring)),
            )
        } else {
            let events = play_events(active, group);
            if !can_score(game, active as int, points_total(events)) {
                (game, Err(ErrorView::ImplementationError(ImplError::InconsistentGameRecord)))
            } else {
                (
                    after_score(
                        GameView {
                            index_active: Some(next_seat(active, n)),
                            state: if group.total == 31 {
                                GameState::ResetPlay
                            } else {
                                game.state
                            },
                            ..placed
                        },
                        active as int,
                        points_total(events),
                    ),
                    Ok(
                        SuccessView::PlayWaitForCard(
                            PlayWaitForCardReturnView::AutomaticScoring(events),
                        ),
                    ),
                )
            }
        }
    }
}

/// What a go does. It is refused, and nothing changes, where the hand of the active player
/// holds a card that could be played. With manual scoring the scores are asked for next.
/// With automatic scoring the next player becomes active; where the player who says go is
/// the one who played the last card, everybody has passed: that player scores one point for
/// the last card and the group is closed.
pub open spec fn go_step(game: GameView) -> (GameView, Result<SuccessView, ErrorView>) {
    let settings = game.settings->0;
    let active = game.index_active->0;
    let hand = game.players[active as int].hand;
    let n = game.players.len() as int;
    let gone = GameView { last_play_was_go: true, ..game };
    if holds_playable(game, hand) {
        (game, Err(ErrorView::PlayWaitForCardError(PlayTurnError::MustPlayCardIfAble)))
    } else if settings.is_manual_scoring {
        (
            GameView { state: GameState::PlayScore, ..gone },
            Ok(SuccessView::PlayWaitForCard(PlayWaitForCardReturnView::ManualScoring)),
        )
    } else if game.last_player_index == Some(active) {
        if !can_score(game, active as int, 1) {
            (game, Err(ErrorView::ImplementationError(ImplError::InconsistentGameRecord)))
        } else {
            (
                after_score(
                    GameView {
                        index_active: Some(next_seat(active, n)),
                        state: GameState::ResetPlay,
                        ..gone
                    },
                    active as int,
                    1,
                ),
                Ok(
                    SuccessView::PlayWaitForCard(
                        PlayWaitForCardReturnView::AutomaticScoring(seq![last_card_event(active)]),
                    ),
                ),
            )
        }
    } else {
        (
            GameView { index_active: Some(next_seat(active, n)), ..gone },
            Ok(
                SuccessView::PlayWaitForCard(
                    PlayWaitForCardReturnView::AutomaticScoring(Seq::empty()),
                ),
            ),
        )
    }
}

/// What a turn of the play does. Without settings, or where no turn can be taken, it is
/// refused and nothing changes.
pub open spec fn play_step(game: GameView, turn: PlayTurn) -> (
    GameView,
    Result<SuccessView, ErrorView>,
) {
    if game.settings is None {
        (game, Err(ErrorView::ImplementationError(ImplError::NoConfig)))
    } else if !play_is_possible(game) {
        (game, Err(ErrorView::ImplementationError(ImplError::InconsistentGameRecord)))
    } else {
        match turn {
            PlayTurn::CardSelected(index) => card_step(game, index),
            PlayTurn::Go => go_step(game),
        }
    }
}

/// Whether a turn can be taken.
pub fn can_take_turn(game: &GameImpl) -> (r: bool)
    ensures
        r == play_is_possible(game@),
{
    if game.settings.is_none() || game.players.len() > 255 || game.play_groups.len() == 0 {
        return false;
    }
    match game.index_active {
        Some(active) => (active as usize) < game.players.len(),
        None => false,
    }
}

/// Whether the card lies in one of the groups of the play.
pub fn card_was_played(game: &GameImpl, card: Card) -> (r: bool)
    ensures
        r == was_played(game@.play_groups, card),
{
    let mut g: usize = 0;
    while g < game.play_groups.len()
        invariant
            g <= game.play_groups.len(),
            forall|i: int| 0 <= i < g ==> !(#[trigger] game@.play_groups[i]).cards.contains(card),
        decreases game.play_groups.len() - g,
    {
        let group = &game.play_groups[g];
        assert(game@.play_groups[g as int] == group@);
        let mut c: usize = 0;
        while c < group.cards.len()
            invariant
                c <= group.cards.len(),
                g < game.play_groups.len(),
                game@.play_groups[g as int] == group@,
                forall|k: int| 0 <= k < c ==> group.cards@[k] != card,
            decreases group.cards.len() - c,
        {
            if group.cards[c] == card {
                assert(group@.cards[c as int] == card);
                assert(game@.play_groups[g as int].cards.contains(card));
                return true;
            }
            c += 1;
        }
        g += 1;
    }
    false
}

/// Whether the card at the given index of the hand of the active player has been played.
pub fn has_card_been_played(game: &GameImpl, index: u8) -> (r: bool)
    requires
        game@.index_active matches Some(active) && active < game@.players.len() && index
            < game@.players[active as int].hand.len(),
    ensures
        r == was_played(
            game@.play_groups,
            game@.players[game@.index_active->0 as int].hand[index as int],
        ),
{
    let active: usize = game.index_active.unwrap() as usize;
    assert(game@.players[active as int] == game.players[active as int]@);
    let card_play_turn: Card = game.players[active].hand[index as usize];
    card_was_played(game, card_play_turn)
}

/// Whether the hand of the active player holds a card that could be played now.
fn active_can_play(game: &GameImpl) -> (r: bool)
    requires
        play_is_possible(game@),
    ensures
        r == holds_playable(game@, game@.players[game@.index_active.unwrap() as int].hand),
{
    let active: usize = game.index_active.unwrap() as usize;
    assert(game@.players[active as int] == game.players[active as int]@);
    let last: usize = game.play_groups.len() - 1;
    assert(game@.play_groups.last() == game.play_groups[last as int]@);
    let total: u8 = game.play_groups[last].total;
    let ghost hand = game@.players[active as int].hand;
    let mut index: usize = 0;
    while index < game.players[active].hand.len()
        invariant
            index <= game.players[active as int].hand.len(),
            active < game.players.len(),
            hand == game.players[active as int].hand@,
            hand == game@.players[game@.index_active.unwrap() as int].hand,
            game@.play_groups.len() > 0,
            total == game@.play_groups.last().total,
            forall|k: int| 0 <= k < index ==> !is_playable(game@, #[trigger] hand[k]),
        decreases game.players[active as int].hand.len() - index,
    {
        let card: Card = game.players[active].hand[index];
        if !card_was_played(game, card) {
            if total as u16 + return_play_value(card) as u16 <= 31 {
                assert(hand[index as int] == card);
                assert(is_playable(game@, hand[index as int]));
                assert(holds_playable(game@, hand));
                return true;
            }
        }
        index += 1;
    }
    false
}

/// The highest index that a turn may name.
fn highest_index(variant: RuleVariant) -> (r: u8)
    ensures
        r as int == highest_play_index(variant),
{
    match variant {
        RuleVariant::TwoFiveCard => 2,
        RuleVariant::TwoSevenCard => 4,
        _ => 3,
    }
}

/// The error for an index that names no card of the hand.
fn error_for_index(variant: RuleVariant) -> (r: PlayTurnError)
    ensures
        r == index_error(variant),
{
    match variant {
        RuleVariant::TwoFiveCard => PlayTurnError::IndexIsBetween0And2InclusiveWithTwoFiveCard,
        RuleVariant::TwoSevenCard => PlayTurnError::IndexIsBetween0And4InclusiveWithTwoSevenCard,
        _ => PlayTurnError::IndexIsBetween0And3InclusiveWithThisRuleVariant,
    }
}

/// Takes the turn of the active player: a card played from the hand, or a go.
pub fn play_card(game: &mut GameImpl, play_turn: PlayTurn) -> (result: Result<Success, Error>)
    ensures
        (final(game)@, crate::game_process_return::result_view(result)) == play_step(
            old(game)@,
            play_turn,
        ),
        forall|i: int|
            0 <= i < old(game)@.play_groups.len() && crate::group_is_consistent(
                #[trigger] old(game)@.play_groups[i],
            ) ==> final(game)@.play_groups.len() == old(game)@.play_groups.len()
                && crate::group_is_consistent(final(game)@.play_groups[i]),
{
    let settings = match game.settings {
        None => {
            return Err(Error::ImplementationError(ImplError::NoConfig));
        },
        Some(settings) => settings,
    };
    if !can_take_turn(game) {
        return Err(Error::ImplementationError(ImplError::InconsistentGameRecord));
    }
    let ghost before = game@;
    let index_active: u8 = game.index_active.unwrap();
    let active: usize = index_active as usize;
    let last: usize = game.play_groups.len() - 1;
    let next: u8 = seat_after(index_active, game.players.len());
    assert(before.players[active as int] == game.players[active as int]@);
    assert(before.play_groups.last() == game.play_groups[last as int]@);

    match play_turn {
        PlayTurn::CardSelected(index) => {
            // The index must name a card of the hand
            if index > highest_index(settings.variant) || index as usize
                >= game.players[active].hand.len() {
                return Err(Error::PlayWaitForCardError(error_for_index(settings.variant)));
            }
            if has_card_been_played(game, index) {
                return Err(Error::PlayWaitForCardError(PlayTurnError::CardHasAlreadyBeenPlayed));
            }
            let card: Card = game.players[active].hand[index as usize];
            // The card may not take the group over 31
            if game.play_groups[last].total as u16 + return_play_value(card) as u16 > 31 {
                return Err(
                    Error::PlayWaitForCardError(PlayTurnError::PlayGroupTotalMayNotExceed31),
                );
            }
            if settings.is_manual_scoring {
                let ghost groups = game@.play_groups;
                game.play_groups[last].play(card);
                assert(game@.play_groups =~= groups.update(
                    last as int,
                    group_after_card(groups[last as int], card),
                ));
                game.last_player_index = game.index_active;
                game.last_play_was_go = false;
                game.state = GameState::PlayScore;
                Ok(Success::PlayWaitForCard(PlayWaitForCardReturn::ManualScoring))
            } else {
                // The scores for the card are worked out on a copy of the group, so that
                // nothing has changed where they cannot be given
                let mut group = crate::PlayGroup {
                    total: game.play_groups[last].total,
                    cards: crate::score::copy_cards(&game.play_groups[last].cards),
                };
                group.play(card);
                let scoring_vec: Vec<ScoreEvent> = play_score(index_active, &group);

                let score_change: u8 = match total_points(&scoring_vec) {
                    Some(points) => points,
                    None => {
                        return Err(
                            Error::ImplementationError(ImplError::InconsistentGameRecord),
                        );
                    },
                };
                if !scoring_is_possible(game, active, score_change) {
                    return Err(Error::ImplementationError(ImplError::InconsistentGameRecord));
                }
                let ghost groups = game@.play_groups;
                game.play_groups[last].play(card);
                assert(game@.play_groups =~= groups.update(
                    last as int,
                    group_after_card(groups[last as int], card),
                ));
                game.last_player_index = game.index_active;
                game.last_play_was_go = false;
                game.index_active = Some(next);
                // A group that stands at 31 is closed
                if game.play_groups[last].total == 31 {
                    game.state = GameState::ResetPlay;
                }
                assert(game@.players == before.players);
                process_score(game, active, score_change);
                Ok(
                    Success::PlayWaitForCard(PlayWaitForCardReturn::AutomaticScoring(scoring_vec)),
                )
            }
        },
        PlayTurn::Go => {
            // A player who can play a card must play one
            if active_can_play(game) {
                return Err(Error::PlayWaitForCardError(PlayTurnError::MustPlayCardIfAble));
            }
            let last_card: bool = match game.last_player_index {
                Some(last_player) => last_player == index_active,
                None => false,
            };
            if settings.is_manual_scoring {
                game.last_play_was_go = true;
                game.state = GameState::PlayScore;
                Ok(Success::PlayWaitForCard(PlayWaitForCardReturn::ManualScoring))
            } else if last_card {
                // Everybody has passed: the player who played the last card scores for it
                if !scoring_is_possible(game, active, 1) {
                    return Err(Error::ImplementationError(ImplError::InconsistentGameRecord));
                }
                game.last_play_was_go = true;
                game.index_active = Some(next);
                game.state = GameState::ResetPlay;
                assert(game@.players == before.players);
                process_score(game, active, 1);
                let mut events: Vec<ScoreEvent> = Vec::new();
                events.push(
                    ScoreEvent {
                        player_index: index_active,
                        point_value: 1,
                        score_type: ScoreType::Play(PlayScoreType::LastCard),
                    },
                );
                assert(events.deep_view() =~= seq![last_card_event(index_active)]);
                Ok(Success::PlayWaitForCard(PlayWaitForCardReturn::AutomaticScoring(events)))
            } else {
                game.last_play_was_go = true;
                game.index_active = Some(next);
                let events: Vec<ScoreEvent> = Vec::new();
                assert(events.deep_view() =~= Seq::empty());
                Ok(Success::PlayWaitForCard(PlayWaitForCardReturn::AutomaticScoring(events)))
            }
        },
    }
}

/// A turn of the play takes no player away and lowers no score.
pub proof fn lemma_turn_never_lowers_a_score(game: GameView, turn: PlayTurn)
    ensures
        crate::no_score_is_lower(game, play_step(game, turn).0),
{
    if game.settings is Some && play_is_possible(game) {
        let active = game.index_active->0;
        match turn {
            PlayTurn::CardSelected(index) => {
                let hand = game.players[active as int].hand;
                if index < hand.len() {
                    let group = group_after_card(game.play_groups.last(), hand[index as int]);
                    crate::score::lemma_points_total_nonnegative(play_events(active, group));
                }
            },
            PlayTurn::Go => {},
        }
    }
}

/// Whether the turn names a card of the hand of the active player that has not been played:
/// the game has settings, a turn can be taken, and the index is one that the variant allows
/// and lies within the hand.
pub open spec fn names_unplayed_card(game: GameView, index: u8) -> bool {
    &&& game.settings is Some
    &&& play_is_possible(game)
    &&& index <= highest_play_index(game.settings->0.variant)
    &&& index < game.players[game.index_active->0 as int].hand.len()
    &&& !was_played(
        game.play_groups,
        game.players[game.index_active->0 as int].hand[index as int],
    )
}

/// A card that fits is played: where the turn names an unplayed card of the active hand that
/// does not take the current group over 31, and with automatic scoring the points for it can
/// be given, the turn succeeds. The current group then holds the card at its end and its
/// total is higher by the counting value of the card. The earlier groups and all the hands
/// are as before, and the active player is the one who played last.
pub proof fn lemma_card_that_fits_is_played(game: GameView, index: u8)
    requires
        names_unplayed_card(game, index),
        card_fits(
            game.play_groups.last(),
            game.players[game.index_active->0 as int].hand[index as int],
        ),
        !game.settings->0.is_manual_scoring ==> can_score(
            game,
            game.index_active->0 as int,
            points_total(
                play_events(
                    game.index_active->0,
                    group_after_card(
                        game.play_groups.last(),
                        game.players[game.index_active->0 as int].hand[index as int],
                    ),
                ),
            ),
        ),
    ensures
        play_step(game, PlayTurn::CardSelected(index)).1 is Ok,
        ({
            let post = play_step(game, PlayTurn::CardSelected(index)).0;
            let card = game.players[game.index_active->0 as int].hand[index as int];
            let group = game.play_groups.last();
            &&& post.play_groups.len() == game.play_groups.len()
            &&& post.play_groups.last() == (PlayGroupView {
                total: (group.total + crate::deck::peg_value(card)) as u8,
                cards: group.cards.push(card),
            })
            &&& forall|i: int|
                0 <= i < game.play_groups.len() - 1 ==> #[trigger] post.play_groups[i]
                    == game.play_groups[i]
            &&& post.players.len() == game.players.len()
            &&& forall|seat: int|
                0 <= seat < game.players.len() ==> (#[trigger] post.players[seat]).hand
                    == game.players[seat].hand
            &&& post.last_player_index == game.index_active
        }),
{
}

/// A card that would take the current group over 31 is refused: where the turn names an
/// unplayed card of the active hand that does not fit, the turn fails with the error for
/// it and nothing changes.
pub proof fn lemma_card_over_31_is_refused(game: GameView, index: u8)
    requires
        names_unplayed_card(game, index),
        !card_fits(
            game.play_groups.last(),
            game.players[game.index_active->0 as int].hand[index as int],
        ),
    ensures
        play_step(game, PlayTurn::CardSelected(index)) == (
            game,
            Err::<SuccessView, ErrorView>(
                ErrorView::PlayWaitForCardError(PlayTurnError::PlayGroupTotalMayNotExceed31),
            ),
        ),
{
}

} // verus!
