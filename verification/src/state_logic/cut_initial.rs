//! The cut for the first deal: each contender draws a card and the lowest card deals. Those
//! who tie for the lowest card cut again.

use crate::deck::{ordinal, return_value, Card};
use crate::game_process_return::{
    Error, ErrorView, InitialCutReturn, Success, SuccessView,
};
use crate::player::{pegged, Player, PlayerView};
use crate::settings::RuleVariant;
use crate::state_logic::game_start::is_shuffled;
use crate::{GameImpl, GameState, GameView};
use vstd::prelude::*;

verus! {

/// Whether one of the contenders is the given seat.
pub open spec fn names_seat(contenders: Seq<u8>, seat: int) -> bool {
    exists|k: int| 0 <= k < contenders.len() && #[trigger] contenders[k] == seat
}

/// Whether there is a contender and every contender is a seat of the game. The list may name
/// the seats in any order, and a seat more than once.
pub open spec fn contenders_are_seats(contenders: Seq<u8>, seats: int) -> bool {
    &&& contenders.len() > 0
    &&& forall|i: int| 0 <= i < contenders.len() ==> (#[trigger] contenders[i]) < seats
}

/// The number of seats below `n` that are contenders.
pub open spec fn cutters_below(contenders: Seq<u8>, n: int) -> int
    decreases n,
{
    if n <= 0 {
        0
    } else {
        cutters_below(contenders, n - 1) + if names_seat(contenders, n - 1) {
            1int
        } else {
            0int
        }
    }
}

/// Whether the loser of the cut gets three points, as in the five-card game for two.
pub open spec fn loser_gets_bonus(game: GameView) -> bool {
    game.settings matches Some(settings) && settings.variant == RuleVariant::TwoFiveCard
}

/// Whether a cut can be made with a deck of `cards` cards: the contenders are seats, there is a
/// card for each seat that cuts where the list names more than one contender, and where the
/// loser gets a bonus both players exist and can take it.
pub open spec fn cut_is_possible(game: GameView, cards: int) -> bool {
    &&& contenders_are_seats(game.contenders, game.players.len() as int)
    &&& game.contenders.len() > 1 ==> cutters_below(game.contenders, game.players.len() as int)
        <= cards
    &&& loser_gets_bonus(game) ==> {
        &&& game.players.len() >= 2
        &&& game.players[0].front_peg_pos + 3 <= u8::MAX
        &&& game.players[1].front_peg_pos + 3 <= u8::MAX
    }
}

/// The players with their hands emptied.
pub open spec fn without_hands(players: Seq<PlayerView>) -> Seq<PlayerView> {
    Seq::new(players.len(), |i: int| PlayerView { hand: Seq::empty(), ..players[i] })
}

/// The card that is drawn after `k` cards were drawn: the cards are drawn from the end of the
/// deck.
pub open spec fn cut_card(deck: Seq<Card>, k: int) -> Card {
    deck[deck.len() - 1 - k]
}

/// The hand of a seat after the cut: a contender holds the card that it drew, which is the
/// next card of the deck after those that the contenders at lower seats drew; every other
/// seat holds nothing.
pub open spec fn hand_after_cut(game: GameView, seat: int) -> Seq<Card> {
    if names_seat(game.contenders, seat) {
        seq![cut_card(game.deck, cutters_below(game.contenders, seat))]
    } else {
        Seq::empty()
    }
}

/// The players after the seats below `n` were gone through in order: the hand of each was
/// emptied, and each contender drew a card.
pub open spec fn cut_hands(game: GameView, n: int) -> Seq<PlayerView>
    decreases n,
{
    if n <= 0 {
        game.players
    } else {
        cut_hands(game, n - 1).update(
            n - 1,
            PlayerView { hand: hand_after_cut(game, n - 1), ..game.players[n - 1] },
        )
    }
}

/// The lowest ordinal among the first cards of the contenders at seats below `n`; 14, which
/// is above every ordinal, where there is none.
pub open spec fn lowest_among(players: Seq<PlayerView>, indices: Seq<u8>, n: int) -> int
    decreases n,
{
    if n <= 0 {
        14
    } else {
        let rest = lowest_among(players, indices, n - 1);
        if names_seat(indices, n - 1) && ordinal(players[n - 1].hand[0]) < rest {
            ordinal(players[n - 1].hand[0])
        } else {
            rest
        }
    }
}

/// The contenders at seats below `n` whose first card has the given ordinal, in the order of
/// the seats, each seat once.
pub open spec fn those_with(players: Seq<PlayerView>, indices: Seq<u8>, value: int, n: int) -> Seq<
    u8,
>
    decreases n,
{
    if n <= 0 {
        Seq::empty()
    } else {
        let rest = those_with(players, indices, value, n - 1);
        if names_seat(indices, n - 1) && ordinal(players[n - 1].hand[0]) == value {
            rest.push((n - 1) as u8)
        } else {
            rest
        }
    }
}

/// The seats among the players that the list names and that hold the lowest card among those
/// that it names, in the order of the seats, each seat once.
pub open spec fn lowest_cutters(players: Seq<PlayerView>, indices: Seq<u8>) -> Seq<u8> {
    those_with(
        players,
        indices,
        lowest_among(players, indices, players.len() as int),
        players.len() as int,
    )
}

/// The game once the dealer is chosen. In the five-card game for two the other player scores
/// three points. The game goes on to the deal.
pub open spec fn with_dealer(game: GameView, dealer: u8) -> GameView {
    let loser: int = if dealer == 0 {
        1
    } else {
        0
    };
    GameView {
        index_dealer: Some(dealer),
        players: if loser_gets_bonus(game) {
            game.players.update(loser, pegged(game.players[loser], 3))
        } else {
            game.players
        },
        state: GameState::Deal,
        ..game
    }
}

/// What a cut does with the deck as it stands. Where no cut is possible, the cut is refused
/// and nothing changes. A list of a single contender makes that contender the dealer without
/// a cut. Else the seats are gone through in order: every hand is emptied and each contender
/// draws a card. Those with the lowest card stay contenders. A single one deals, and the hands
/// keep the cards that were cut. Several have tied: every hand is emptied for them to cut
/// again.
pub open spec fn cut_step(game: GameView) -> (GameView, Result<SuccessView, ErrorView>) {
    let seats = game.players.len() as int;
    if !cut_is_possible(game, game.deck.len() as int) {
        (game, Err(ErrorView::InitialCutError))
    } else if game.contenders.len() == 1 {
        (
            with_dealer(game, game.contenders[0]),
            Ok(SuccessView::InitialCut(InitialCutReturn::DealerChosen)),
        )
    } else {
        let players = cut_hands(game, seats);
        let lowest = lowest_cutters(players, game.contenders);
        let deck = game.deck.subrange(0, game.deck.len() - cutters_below(game.contenders, seats));
        if lowest.len() == 1 {
            (
                with_dealer(GameView { players, deck, contenders: lowest, ..game }, lowest[0]),
                Ok(SuccessView::InitialCut(InitialCutReturn::DealerChosen)),
            )
        } else {
            (
                GameView { players: without_hands(players), deck, contenders: lowest, ..game },
                Ok(SuccessView::InitialCut(InitialCutReturn::CutTie)),
            )
        }
    }
}

/// What the cut for the first deal does. In debug mode the deck is cut as it stands; else it
/// is reset first, so that the cut is made with some deck that holds each of the 52 cards
/// once. Where no cut is possible nothing changes, the deck included.
pub open spec fn process_cut_outcome(
    pre: GameView,
    post: GameView,
    result: Result<SuccessView, ErrorView>,
) -> bool {
    if pre.is_debug {
        (post, result) == cut_step(pre)
    } else if !cut_is_possible(pre, 52) {
        post == pre && result == Err::<SuccessView, ErrorView>(ErrorView::InitialCutError)
    } else {
        exists|deck: Seq<Card>|
            is_shuffled(deck) && (post, result) == cut_step(GameView { deck, ..pre })
    }
}

/// Whether one of the contenders is the given seat.
pub fn is_contender(indices: &Vec<u8>, seat: usize) -> (r: bool)
    ensures
        r == names_seat(indices@, seat as int),
{
    let mut k: usize = 0;
    while k < indices.len()
        invariant
            k <= indices.len(),
            forall|j: int| 0 <= j < k ==> (#[trigger] indices@[j]) != seat,
        decreases indices.len() - k,
    {
        if indices[k] as usize == seat {
            return true;
        }
        k += 1;
    }
    false
}

/// The number of seats below `n` that are contenders grows with `n`, from nothing.
pub proof fn lemma_cutters_grow(contenders: Seq<u8>, a: int, b: int)
    requires
        a <= b,
    ensures
        0 <= cutters_below(contenders, a) <= cutters_below(contenders, b),
    decreases b - a, b,
{
    if a < b {
        lemma_cutters_grow(contenders, a, b - 1);
    } else if a > 0 {
        lemma_cutters_grow(contenders, a - 1, a - 1);
    }
}

/// Whether a cut can be made with a deck of `cards` cards.
fn can_cut(game: &GameImpl, cards: usize) -> (r: bool)
    ensures
        r == cut_is_possible(game@, cards as int),
{
    let contenders = &game.initial_cut_between_players_with_these_indices;
    if contenders.len() == 0 {
        return false;
    }
    let mut i: usize = 0;
    while i < contenders.len()
        invariant
            i <= contenders.len(),
            contenders@ == game@.contenders,
            forall|a: int| 0 <= a < i ==> (#[trigger] contenders@[a]) < game.players.len(),
        decreases contenders.len() - i,
    {
        if contenders[i] as usize >= game.players.len() {
            return false;
        }
        i += 1;
    }
    if contenders.len() > 1 {
        let mut cutters: usize = 0;
        let mut seat: usize = 0;
        while seat < game.players.len()
            invariant
                seat <= game.players.len(),
                contenders@ == game@.contenders,
                cutters == cutters_below(contenders@, seat as int),
                cutters <= seat,
            decreases game.players.len() - seat,
        {
            if is_contender(contenders, seat) {
                cutters += 1;
            }
            seat += 1;
        }
        if cutters > cards {
            return false;
        }
    }
    match game.settings {
        Some(settings) => {
            if settings.variant == RuleVariant::TwoFiveCard {
                if game.players.len() < 2 {
                    return false;
                }
                assert(game@.players[0] == game.players[0]@);
                assert(game@.players[1] == game.players[1]@);
                game.players[0].front_peg_pos <= 252 && game.players[1].front_peg_pos <= 252
            } else {
                true
            }
        },
        None => true,
    }
}

/// Cuts for the first deal.
pub fn process_cut(game: &mut GameImpl) -> (result: Result<Success, Error>)
    ensures
        process_cut_outcome(
            old(game)@,
            final(game)@,
            crate::game_process_return::result_view(result),
        ),
{
    // Start with a shuffled deck, or with the deck as it is in debug mode
    if !game.is_debug {
        if !can_cut(game, 52) {
            return Err(Error::InitialCutError);
        }
        game.deck.reset_deck();
    }
    let ghost deck = game@.deck;
    let ghost start = game@;
    assert(start == GameView { deck, ..old(game)@ });
    let result = cut_the_deck(game);
    assert(!old(game)@.is_debug ==> is_shuffled(deck) && (
        game@,
        crate::game_process_return::result_view(result),
    ) == cut_step(GameView { deck, ..old(game)@ }));
    result
}

/// Cuts for the first deal with the deck as it stands.
pub fn cut_the_deck(game: &mut GameImpl) -> (result: Result<Success, Error>)
    ensures
        (final(game)@, crate::game_process_return::result_view(result)) == cut_step(old(game)@),
{
    if !can_cut(game, game.deck.len()) {
        return Err(Error::InitialCutError);
    }
    // A single contender deals without a cut
    if game.initial_cut_between_players_with_these_indices.len() == 1 {
        let dealer: u8 = game.initial_cut_between_players_with_these_indices[0];
        return Ok(set_dealer(dealer, game));
    }
    deal_card_to_valid_players(game);
    let ghost players = game@.players;
    proof {
        lemma_cut_hands(old(game)@, old(game)@.players.len() as int);
    }
    assert forall|seat: int|
        0 <= seat < game.players.len() && names_seat(
            game.initial_cut_between_players_with_these_indices@,
            seat,
        ) implies (#[trigger] game.players[seat]).hand.len() > 0 by {
        assert(players[seat] == game.players[seat]@);
    }
    let lowest = compare_cards(&game.players, &game.initial_cut_between_players_with_these_indices);
    game.initial_cut_between_players_with_these_indices = lowest;

    if game.initial_cut_between_players_with_these_indices.len() == 1 {
        let dealer: u8 = game.initial_cut_between_players_with_these_indices[0];
        Ok(set_dealer(dealer, game))
    } else {
        // A tie: the cards that were cut go back, and those who tied cut again
        clear_hands(game);
        Ok(Success::InitialCut(InitialCutReturn::CutTie))
    }
}

/// What the players hold once the seats below `n` were gone through: each of those seats
/// has the hand that the cut gives it and is otherwise as before, and the seats from `n` on
/// are as before.
pub proof fn lemma_cut_hands(game: GameView, n: int)
    requires
        0 <= n <= game.players.len(),
    ensures
        cut_hands(game, n).len() == game.players.len(),
        forall|seat: int|
            0 <= seat < n ==> #[trigger] cut_hands(game, n)[seat] == (PlayerView {
                hand: hand_after_cut(game, seat),
                ..game.players[seat]
            }),
        forall|seat: int|
            n <= seat < game.players.len() ==> #[trigger] cut_hands(game, n)[seat]
                == game.players[seat],
    decreases n,
{
    if n > 0 {
        lemma_cut_hands(game, n - 1);
    }
}

/// Empties the hand of every player.
pub fn clear_hands(game: &mut GameImpl)
    ensures
        final(game)@ == (GameView { players: without_hands(old(game)@.players), ..old(game)@ }),
{
    let ghost before = game@;
    let mut i: usize = 0;
    while i < game.players.len()
        invariant
            i <= game.players.len(),
            game.players.len() == before.players.len(),
            game@ == (GameView { players: game@.players, ..before }),
            forall|k: int|
                0 <= k < i ==> (#[trigger] game@.players[k]) == (PlayerView {
                    hand: Seq::empty(),
                    ..before.players[k]
                }),
            forall|k: int| i <= k < game.players.len() ==> (#[trigger] game@.players[k])
                == before.players[k],
        decreases game.players.len() - i,
    {
        let ghost players = game@.players;
        assert(players[i as int] == game.players[i as int]@);
        game.players[i].hand.clear();
        assert(game@.players =~= players.update(
            i as int,
            PlayerView { hand: Seq::empty(), ..players[i as int] },
        ));
        i += 1;
    }
    assert(game@.players =~= without_hands(before.players));
}

/// Makes the player with the given index the dealer and goes on to the deal. In the five-card
/// game for two the other player scores three points.
pub fn set_dealer(index: u8, game: &mut GameImpl) -> (success: Success)
    requires
        loser_gets_bonus(old(game)@) ==> {
            &&& old(game)@.players.len() >= 2
            &&& old(game)@.players[0].front_peg_pos + 3 <= u8::MAX
            &&& old(game)@.players[1].front_peg_pos + 3 <= u8::MAX
        },
    ensures
        final(game)@ == with_dealer(old(game)@, index),
        success@ == SuccessView::InitialCut(InitialCutReturn::DealerChosen),
{
    let ghost before = game@;
    game.index_dealer = Some(index);
    if let Some(settings) = game.settings {
        if settings.variant == RuleVariant::TwoFiveCard {
            assert(before.players[0] == game.players[0]@);
            assert(before.players[1] == game.players[1]@);
            if index == 0 {
                game.players[1].change_score(3);
                assert(game@.players =~= before.players.update(1, pegged(before.players[1], 3)));
            } else {
                game.players[0].change_score(3);
                assert(game@.players =~= before.players.update(0, pegged(before.players[0], 3)));
            }
        }
    }
    game.state = GameState::Deal;
    Success::InitialCut(InitialCutReturn::DealerChosen)
}

/// Goes through the seats in order: empties every hand and lets each contender draw a card.
/// The deck must hold a card for each seat that cuts.
pub fn deal_card_to_valid_players(game: &mut GameImpl)
    requires
        cutters_below(old(game)@.contenders, old(game)@.players.len() as int)
            <= old(game)@.deck.len(),
    ensures
        final(game)@ == (GameView {
            players: cut_hands(old(game)@, old(game)@.players.len() as int),
            deck: old(game)@.deck.subrange(
                0,
                old(game)@.deck.len() - cutters_below(
                    old(game)@.contenders,
                    old(game)@.players.len() as int,
                ),
            ),
            ..old(game)@
        }),
{
    let ghost before = game@;
    let ghost seats = before.players.len() as int;
    let mut index: usize = 0;
    assert(before.deck.subrange(0, before.deck.len() as int) =~= before.deck);
    while index < game.players.len()
        invariant
            index <= game.players.len(),
            seats == before.players.len(),
            game.players.len() == seats,
            cutters_below(before.contenders, seats) <= before.deck.len(),
            game@ == (GameView {
                players: cut_hands(before, index as int),
                deck: before.deck.subrange(
                    0,
                    before.deck.len() - cutters_below(before.contenders, index as int),
                ),
                ..before
            }),
        decreases game.players.len() - index,
    {
        proof {
            lemma_cut_hands(before, index as int);
            lemma_cutters_grow(before.contenders, index as int, index as int);
            lemma_cutters_grow(before.contenders, index as int + 1, seats);
        }
        let ghost players = game@.players;
        let ghost drawn = cutters_below(before.contenders, index as int);
        assert(players[index as int] == game.players[index as int]@);
        game.players[index].hand.clear();
        // Deal a card to each player who the cut is between: everybody at the first cut, and
        // after a tie those who tied
        if is_contender(&game.initial_cut_between_players_with_these_indices, index) {
            let card: Card = game.deck.deal();
            game.players[index].hand.push(card);
            assert(card == cut_card(before.deck, drawn));
            assert(game@.deck =~= before.deck.subrange(0, before.deck.len() - (drawn + 1)));
        }
        assert(game@.players =~= players.update(
            index as int,
            PlayerView { hand: hand_after_cut(before, index as int), ..before.players[index as int] },
        ));
        index += 1;
    }
}

/// No contender at a seat below `n` holds a card below the lowest among them.
pub proof fn lemma_none_below_lowest(players: Seq<PlayerView>, indices: Seq<u8>, value: int, n: int)
    requires
        value < lowest_among(players, indices, n),
    ensures
        those_with(players, indices, value, n) == Seq::<u8>::empty(),
    decreases n,
{
    if n > 0 {
        lemma_none_below_lowest(players, indices, value, n - 1);
    }
}

/// The seats among the players that the list names and that hold the lowest card among those
/// that it names, in the order of the seats and each seat once, whatever the order of the
/// list. Each seat that the list names must hold a card; what the list names beside the
/// seats is passed over.
pub fn compare_cards(players: &Vec<Player>, indices: &Vec<u8>) -> (lowest: Vec<u8>)
    requires
        forall|seat: int|
            0 <= seat < players.len() && names_seat(indices@, seat) ==> (
            #[trigger] players[seat]).hand.len() > 0,
    ensures
        lowest@ == lowest_cutters(players.deep_view(), indices@),
{
    // The highest ordinal is 13, so this is above every card
    let mut lowest_value: u8 = 14;
    let mut player_indices_with_cuts_of_lowest_values: Vec<u8> = Vec::new();
    let ghost seats = players.deep_view();
    let mut index: usize = 0;
    while index < players.len()
        invariant
            index <= players.len(),
            seats == players.deep_view(),
            forall|seat: int|
                0 <= seat < players.len() && names_seat(indices@, seat) ==> (
                #[trigger] players[seat]).hand.len() > 0,
            lowest_value as int == lowest_among(seats, indices@, index as int),
            player_indices_with_cuts_of_lowest_values@ == those_with(
                seats,
                indices@,
                lowest_value as int,
                index as int,
            ),
        decreases players.len() - index,
    {
        // For every player who the cut is between
        if is_contender(indices, index) {
            assert(seats[index as int] == players[index as int]@);
            assert(players[index as int].hand.len() > 0);
            assert(index <= 255) by {
                let named = choose|k: int| 0 <= k < indices@.len() && indices@[k] == index;
                assert(indices@[named] <= 255);
            }
            let value: u8 = return_value(players[index].hand[0]);
            // A new lowest card: only this player holds it so far
            if value < lowest_value {
                proof {
                    lemma_none_below_lowest(seats, indices@, value as int, index as int);
                }
                lowest_value = value;
                player_indices_with_cuts_of_lowest_values = Vec::new();
                player_indices_with_cuts_of_lowest_values.push(index as u8);
                assert(player_indices_with_cuts_of_lowest_values@ =~= Seq::<u8>::empty().push(
                    index as u8,
                ));
            } else if value == lowest_value {
                player_indices_with_cuts_of_lowest_values.push(index as u8);
            }
        }
        index += 1;
    }
    player_indices_with_cuts_of_lowest_values
}

/// After a tie every hand is empty for the next cut, the state is as it was, and no dealer is
/// chosen.
pub proof fn lemma_tie_empties_the_hands(game: GameView)
    requires
        cut_step(game).1 == Ok::<SuccessView, ErrorView>(
            SuccessView::InitialCut(InitialCutReturn::CutTie),
        ),
    ensures
        cut_step(game).0.state == game.state,
        cut_step(game).0.index_dealer == game.index_dealer,
        cut_step(game).0.players.len() == game.players.len(),
        forall|seat: int|
            0 <= seat < game.players.len() ==> (#[trigger] cut_step(game).0.players[seat]).hand
                == Seq::<Card>::empty(),
{
    lemma_cut_hands(game, game.players.len() as int);
}

/// No contender at a seat below `n` holds a card below the lowest among them, and where
/// there is a contender, one of them holds a card of just that ordinal.
pub proof fn lemma_lowest_is_lowest(players: Seq<PlayerView>, indices: Seq<u8>, n: int)
    ensures
        forall|seat: int|
            0 <= seat < n && names_seat(indices, seat) ==> lowest_among(players, indices, n)
                <= ordinal((#[trigger] players[seat]).hand[0]),
        cutters_below(indices, n) > 0 ==> exists|seat: int|
            0 <= seat < n && names_seat(indices, seat) && ordinal(
                (#[trigger] players[seat]).hand[0],
            ) == lowest_among(players, indices, n),
        cutters_below(indices, n) == 0 ==> lowest_among(players, indices, n) == 14,
    decreases n,
{
    if n > 0 {
        lemma_lowest_is_lowest(players, indices, n - 1);
        lemma_cutters_grow(indices, n - 1, n - 1);
        let rest = lowest_among(players, indices, n - 1);
        if names_seat(indices, n - 1) && ordinal(players[n - 1].hand[0]) < rest {
            assert(ordinal(players[n - 1].hand[0]) == lowest_among(players, indices, n));
        } else if cutters_below(indices, n - 1) > 0 {
            let seat = choose|seat: int|
                0 <= seat < n - 1 && names_seat(indices, seat) && ordinal(
                    (#[trigger] players[seat]).hand[0],
                ) == rest;
            assert(ordinal(players[seat].hand[0]) == lowest_among(players, indices, n));
        } else if names_seat(indices, n - 1) {
            assert(ordinal(players[n - 1].hand[0]) == lowest_among(players, indices, n)) by {
                crate::deck::lemma_ordinal_range(players[n - 1].hand[0]);
            }
        }
    }
}

/// The seats that come out of the comparison are in ascending order, so each is there once,
/// and they are exactly the contenders at seats below `n` whose first card has the given
/// ordinal.
pub proof fn lemma_those_with(players: Seq<PlayerView>, indices: Seq<u8>, value: int, n: int)
    requires
        n <= 256,
    ensures
        forall|a: int, b: int|
            0 <= a < b < those_with(players, indices, value, n).len() ==> (#[trigger] those_with(
                players,
                indices,
                value,
                n,
            )[a]) < (#[trigger] those_with(players, indices, value, n)[b]),
        forall|a: int|
            0 <= a < those_with(players, indices, value, n).len() ==> {
                let seat = #[trigger] those_with(players, indices, value, n)[a];
                seat < n && names_seat(indices, seat as int) && ordinal(
                    players[seat as int].hand[0],
                ) == value
            },
        forall|seat: int|
            0 <= seat < n && names_seat(indices, seat) && ordinal(players[seat].hand[0]) == value
                ==> those_with(players, indices, value, n).contains(seat as u8),
    decreases n,
{
    if n > 0 {
        lemma_those_with(players, indices, value, n - 1);
        let rest = those_with(players, indices, value, n - 1);
        let all = those_with(players, indices, value, n);
        assert forall|seat: int|
            0 <= seat < n && names_seat(indices, seat) && ordinal(players[seat].hand[0])
                == value implies all.contains(seat as u8) by {
            if seat < n - 1 {
                assert(rest.contains(seat as u8));
                let a = choose|a: int| 0 <= a < rest.len() && rest[a] == seat as u8;
                assert(all[a] == seat as u8);
            } else {
                assert(all[all.len() - 1] == seat as u8);
            }
        }
    }
}

/// A cut takes no player away and lowers no score.
pub proof fn lemma_cut_never_lowers_a_score(game: GameView)
    ensures
        crate::no_score_is_lower(game, cut_step(game).0),
{
    if cut_is_possible(game, game.deck.len() as int) {
        lemma_cut_hands(game, game.players.len() as int);
    }
}

} // verus!
