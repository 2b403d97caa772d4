//! The deal: the hands and the crib are emptied and the cards are dealt one at a time, round
//! the table, from the end of the deck.

use crate::deck::Card;
use crate::game_process_return::{Error, ErrorView, ImplError, Success, SuccessView};
use crate::player::PlayerView;
use crate::settings::{cards_per_seat, deal_seeds_crib, seats, RuleVariant};
use crate::state_logic::cut_initial::without_hands;
use crate::state_logic::game_start::is_shuffled;
use crate::{GameImpl, GameState, GameView};
use vstd::prelude::*;

verus! {

/// The seats that get no card in the last round: with five seats the dealer, with six the
/// dealer and the partner of the dealer. Where there is none, -1 stands for it.
pub open spec fn shortchanged_seats(game: GameView) -> (int, int) {
    match (game.settings, game.index_dealer) {
        (Some(settings), Some(dealer)) => match settings.variant {
            RuleVariant::FiveStandard => (dealer as int, -1),
            RuleVariant::SixPairs => match game.players[dealer as int].partner_index {
                Some(partner) => (dealer as int, partner as int),
                None => (dealer as int, -1),
            },
            _ => (-1, -1),
        },
        _ => (-1, -1),
    }
}

/// The number of different seats below `n` that the pair names.
pub open spec fn seats_named(skip: (int, int), n: int) -> int {
    (if 0 <= skip.0 < n {
        1int
    } else {
        0int
    }) + (if 0 <= skip.1 < n && skip.1 != skip.0 {
        1int
    } else {
        0int
    })
}

/// The number of different seats from `from` up to, not including, `n` that the pair names.
pub open spec fn seats_named_from(skip: (int, int), from: int, n: int) -> int {
    (if from <= skip.0 < n {
        1int
    } else {
        0int
    }) + (if from <= skip.1 < n && skip.1 != skip.0 {
        1int
    } else {
        0int
    })
}

/// The number of cards that a deal takes from the deck: one for every seat in every round,
/// but for the seats that are passed over in the last round, and one for the crib where the
/// deal seeds it.
pub open spec fn cards_for_deal(game: GameView) -> int {
    let variant = game.settings->0.variant;
    cards_per_seat(variant) * seats(variant) - seats_named(
        shortchanged_seats(game),
        seats(variant),
    ) + if deal_seeds_crib(variant) {
        1int
    } else {
        0int
    }
}

/// Whether the cards can be dealt from a deck of `cards` cards: the seats are those of the
/// variant, the dealer is known where the dealer is shortchanged, and the deck holds enough.
pub open spec fn deal_is_possible(game: GameView, cards: int) -> bool {
    &&& game.settings matches Some(settings)
    &&& game.players.len() == seats(settings.variant)
    &&& settings.variant == RuleVariant::FiveStandard || settings.variant == RuleVariant::SixPairs
        ==> (game.index_dealer matches Some(dealer) && dealer < game.players.len())
    &&& settings.variant == RuleVariant::SixPairs ==> (game.players[game.index_dealer->0 as int].partner_index
        matches Some(partner) && partner < game.players.len())
    &&& cards >= cards_for_deal(game)
}

/// The game after the seat was dealt the card at the end of the deck.
pub open spec fn given_card(game: GameView, seat: int) -> GameView {
    GameView {
        players: game.players.update(
            seat,
            PlayerView { hand: game.players[seat].hand.push(game.deck.last()), ..game.players[seat] },
        ),
        deck: game.deck.drop_last(),
        ..game
    }
}

/// The game after the seats below `k` were dealt a card each, in order. In the last round the
/// seats of `skip` are passed over.
pub open spec fn deal_seats(game: GameView, skip: (int, int), last: bool, k: int) -> GameView
    decreases k,
{
    if k <= 0 {
        game
    } else {
        let before = deal_seats(game, skip, last, k - 1);
        if last && (k - 1 == skip.0 || k - 1 == skip.1) {
            before
        } else {
            given_card(before, k - 1)
        }
    }
}

/// The game after the first `r` of `rounds` rounds were dealt to `n` seats.
pub open spec fn deal_rounds(game: GameView, skip: (int, int), rounds: int, n: int, r: int) -> GameView
    decreases r,
{
    if r <= 0 {
        game
    } else {
        deal_seats(deal_rounds(game, skip, rounds, n, r - 1), skip, r == rounds, n)
    }
}

/// The game after the card at the end of the deck went into the crib.
pub open spec fn crib_seeded(game: GameView) -> GameView {
    GameView { crib: game.crib.push(game.deck.last()), deck: game.deck.drop_last(), ..game }
}

/// The game after the deal, from the deck as it stands.
pub open spec fn dealt(game: GameView) -> GameView {
    let variant = game.settings->0.variant;
    let emptied = GameView {
        players: without_hands(game.players),
        crib: Seq::empty(),
        ..game
    };
    let hands = deal_rounds(
        emptied,
        shortchanged_seats(game),
        cards_per_seat(variant),
        seats(variant),
        cards_per_seat(variant),
    );
    let all = if deal_seeds_crib(variant) {
        crib_seeded(hands)
    } else {
        hands
    };
    GameView { state: GameState::Sort, ..all }
}

/// What a deal does with the deck as it stands. Without settings, or where the cards cannot
/// be dealt, it is refused and nothing changes. Else the hands and the crib are emptied, the
/// cards are dealt and the game goes on to the sorting of the hands.
pub open spec fn deal_step(game: GameView) -> (GameView, Result<SuccessView, ErrorView>) {
    if game.settings is None {
        (game, Err(ErrorView::ImplementationError(ImplError::NoConfig)))
    } else if !deal_is_possible(game, game.deck.len() as int) {
        (game, Err(ErrorView::ImplementationError(ImplError::InconsistentGameRecord)))
    } else {
        (dealt(game), Ok(SuccessView::Deal))
    }
}

/// What the deal does. In debug mode the deck is dealt from as it stands; else it is reset
/// first, so that the cards are dealt from some deck that holds each of the 52 cards once.
pub open spec fn process_deal_outcome(
    pre: GameView,
    post: GameView,
    result: Result<SuccessView, ErrorView>,
) -> bool {
    if pre.is_debug {
        (post, result) == deal_step(pre)
    } else if pre.settings is None {
        post == pre && result == Err::<SuccessView, ErrorView>(
            ErrorView::ImplementationError(ImplError::NoConfig),
        )
    } else if !deal_is_possible(pre, 52) {
        post == pre && result == Err::<SuccessView, ErrorView>(
            ErrorView::ImplementationError(ImplError::InconsistentGameRecord),
        )
    } else {
        exists|deck: Seq<Card>|
            is_shuffled(deck) && (post, result) == deal_step(GameView { deck, ..pre })
    }
}

/// The number of cards that a deal takes from the deck where no seat is passed over.
fn count_cards_for_full_deal(variant: RuleVariant) -> (n: usize)
    ensures
        n as int == cards_per_seat(variant) * seats(variant) + if deal_seeds_crib(variant) {
            1int
        } else {
            0int
        },
        n >= 10,
{
    match variant {
        RuleVariant::TwoStandard => 12,
        RuleVariant::TwoFiveCard => 10,
        RuleVariant::TwoSevenCard => 15,
        RuleVariant::ThreeStandard => 16,
        RuleVariant::ThreeCaptain => 16,
        RuleVariant::FourIndividual => 20,
        RuleVariant::FourPairs => 20,
        RuleVariant::FiveStandard => 25,
        RuleVariant::SixPairs => 30,
    }
}

/// Whether the cards can be dealt from a deck of `cards` cards.
fn can_deal(game: &GameImpl, cards: usize) -> (r: bool)
    ensures
        r == deal_is_possible(game@, cards as int),
{
    match game.settings {
        None => false,
        Some(settings) => {
            let n: u8 = crate::util::return_num_players_for_variant(settings.variant);
            if game.players.len() != n as usize {
                return false;
            }
            let mut passed_over: usize = 0;
            if settings.variant == RuleVariant::FiveStandard || settings.variant
                == RuleVariant::SixPairs {
                match game.index_dealer {
                    None => {
                        return false;
                    },
                    Some(dealer) => {
                        if dealer as usize >= game.players.len() {
                            return false;
                        }
                        assert(game@.players[dealer as int] == game.players[dealer as int]@);
                        passed_over = 1;
                        if settings.variant == RuleVariant::SixPairs {
                            match game.players[dealer as usize].partner_index {
                                None => {
                                    return false;
                                },
                                Some(partner) => {
                                    if partner as usize >= game.players.len() {
                                        return false;
                                    }
                                    if partner != dealer {
                                        passed_over = 2;
                                    }
                                },
                            }
                        }
                    },
                }
            }
            cards >= count_cards_for_full_deal(settings.variant) - passed_over
        },
    }
}

/// Deals the cards.
pub fn process_deal(game: &mut GameImpl) -> (result: Result<Success, Error>)
    ensures
        process_deal_outcome(
            old(game)@,
            final(game)@,
            crate::game_process_return::result_view(result),
        ),
{
    // Start with a shuffled deck, or with the deck as it is in debug mode
    if !game.is_debug {
        if game.settings.is_none() {
            return Err(Error::ImplementationError(ImplError::NoConfig));
        }
        if !can_deal(game, 52) {
            return Err(Error::ImplementationError(ImplError::InconsistentGameRecord));
        }
        game.deck.reset_deck();
    }
    let ghost deck = game@.deck;
    assert(game@ == GameView { deck, ..old(game)@ });
    let result = deal_from_deck(game);
    assert(!old(game)@.is_debug ==> is_shuffled(deck) && (
        game@,
        crate::game_process_return::result_view(result),
    ) == deal_step(GameView { deck, ..old(game)@ }));
    result
}

/// Deals the cards from the deck as it stands.
pub fn deal_from_deck(game: &mut GameImpl) -> (result: Result<Success, Error>)
    ensures
        (final(game)@, crate::game_process_return::result_view(result)) == deal_step(old(game)@),
{
    let settings = match game.settings {
        None => {
            return Err(Error::ImplementationError(ImplError::NoConfig));
        },
        Some(settings) => settings,
    };
    if !can_deal(game, game.deck.len()) {
        return Err(Error::ImplementationError(ImplError::InconsistentGameRecord));
    }
    let ghost before = game@;
    let mut i: usize = 0;
    while i < game.players.len()
        invariant
            i <= game.players.len(),
            game.players.len() == before.players.len(),
            game@ == (GameView { players: game@.players, ..before }),
            forall|k: int|
                0 <= k < i ==> (#[trigger] game@.players[k]) == (PlayerView {
                    hand: Seq::empty(),
                    ..before.players[k]
                }),
            forall|k: int| i <= k < game.players.len() ==> (#[trigger] game@.players[k])
                == before.players[k],
        decreases game.players.len() - i,
    {
        let ghost players = game@.players;
        assert(players[i as int] == game.players[i as int]@);
        game.players[i].hand.clear();
        assert(game@.players =~= players.update(
            i as int,
            PlayerView { hand: Seq::empty(), ..players[i as int] },
        ));
        i += 1;
    }
    assert(game@.players =~= without_hands(before.players));
    game.crib.clear();
    proof {
        lemma_cards_of_full_deal(settings.variant);
    }

    match settings.variant {
        RuleVariant::TwoStandard => deal_two(6, game),
        RuleVariant::TwoFiveCard => deal_two(5, game),
        RuleVariant::TwoSevenCard => deal_two(7, game),
        RuleVariant::ThreeStandard | RuleVariant::ThreeCaptain => deal_three(game),
        RuleVariant::FourIndividual | RuleVariant::FourPairs => deal_four(game),
        RuleVariant::FiveStandard => deal_five(game),
        RuleVariant::SixPairs => deal_six(game),
    };

    game.state = GameState::Sort;
    Ok(Success::Deal)
}

/// `r` times `n`, by repeated addition.
pub open spec fn times(r: int, n: int) -> int
    decreases r,
{
    if r <= 0 {
        0
    } else {
        times(r - 1, n) + n
    }
}

/// Repeated addition is multiplication.
pub proof fn lemma_times(r: int, n: int)
    requires
        0 <= r,
    ensures
        times(r, n) == r * n,
    decreases r,
{
    if r > 0 {
        lemma_times(r - 1, n);
        assert((r - 1) * n + n == r * n) by (nonlinear_arith);
    } else {
        assert(0 * n == 0) by (nonlinear_arith);
    }
}

/// Dealing changes the hands and the deck only.
pub proof fn lemma_deal_rounds_keep_the_rest(
    game: GameView,
    skip: (int, int),
    rounds: int,
    n: int,
    r: int,
)
    ensures
        deal_rounds(game, skip, rounds, n, r) == (GameView {
            players: deal_rounds(game, skip, rounds, n, r).players,
            deck: deal_rounds(game, skip, rounds, n, r).deck,
            ..game
        }),
    decreases r,
{
    if r > 0 {
        lemma_deal_rounds_keep_the_rest(game, skip, rounds, n, r - 1);
        lemma_deal_seats_keep_the_rest(
            deal_rounds(game, skip, rounds, n, r - 1),
            skip,
            r == rounds,
            n,
        );
    }
}

/// Dealing a round changes the hands and the deck only.
pub proof fn lemma_deal_seats_keep_the_rest(game: GameView, skip: (int, int), last: bool, k: int)
    ensures
        deal_seats(game, skip, last, k) == (GameView {
            players: deal_seats(game, skip, last, k).players,
            deck: deal_seats(game, skip, last, k).deck,
            ..game
        }),
    decreases k,
{
    if k > 0 {
        lemma_deal_seats_keep_the_rest(game, skip, last, k - 1);
    }
}

/// Dealing leaves the number of players and the score of each player as they are.
pub proof fn lemma_deal_rounds_keep_scores(
    game: GameView,
    skip: (int, int),
    rounds: int,
    n: int,
    r: int,
)
    requires
        n <= game.players.len(),
    ensures
        deal_rounds(game, skip, rounds, n, r).players.len() == game.players.len(),
        forall|i: int|
            0 <= i < game.players.len() ==> (#[trigger] deal_rounds(
                game,
                skip,
                rounds,
                n,
                r,
            ).players[i]).front_peg_pos == game.players[i].front_peg_pos,
    decreases r,
{
    if r > 0 {
        lemma_deal_rounds_keep_scores(game, skip, rounds, n, r - 1);
        lemma_deal_seats_keep_scores(
            deal_rounds(game, skip, rounds, n, r - 1),
            skip,
            r == rounds,
            n,
        );
    }
}

/// Dealing a round leaves the number of players and the score of each player as they are.
pub proof fn lemma_deal_seats_keep_scores(game: GameView, skip: (int, int), last: bool, k: int)
    requires
        k <= game.players.len(),
    ensures
        deal_seats(game, skip, last, k).players.len() == game.players.len(),
        forall|i: int|
            0 <= i < game.players.len() ==> (#[trigger] deal_seats(
                game,
                skip,
                last,
                k,
            ).players[i]).front_peg_pos == game.players[i].front_peg_pos,
    decreases k,
{
    if k > 0 {
        lemma_deal_seats_keep_scores(game, skip, last, k - 1);
    }
}

/// A deal leaves the number of players and the score of each player as they are.
pub proof fn lemma_deal_keeps_scores(game: GameView)
    ensures
        deal_step(game).0.players.len() == game.players.len(),
        forall|i: int|
            0 <= i < game.players.len() ==> (#[trigger] deal_step(
                game,
            ).0.players[i]).front_peg_pos == game.players[i].front_peg_pos,
{
    if game.settings is Some && deal_is_possible(game, game.deck.len() as int) {
        let variant = game.settings->0.variant;
        let emptied = GameView { players: without_hands(game.players), crib: Seq::empty(), ..game };
        lemma_deal_rounds_keep_scores(
            emptied,
            shortchanged_seats(game),
            cards_per_seat(variant),
            seats(variant),
            cards_per_seat(variant),
        );
    }
}

/// A deal leaves the groups of the play as they are.
pub proof fn lemma_deal_keeps_groups(game: GameView)
    ensures
        deal_step(game).0.play_groups == game.play_groups,
{
    if game.settings is Some && deal_is_possible(game, game.deck.len() as int) {
        let variant = game.settings->0.variant;
        let emptied = GameView { players: without_hands(game.players), crib: Seq::empty(), ..game };
        lemma_deal_rounds_keep_the_rest(
            emptied,
            shortchanged_seats(game),
            cards_per_seat(variant),
            seats(variant),
            cards_per_seat(variant),
        );
    }
}

/// The number of cards that the deal of each variant takes where no seat is passed over.
pub proof fn lemma_cards_of_full_deal(variant: RuleVariant)
    ensures
        cards_per_seat(variant) * seats(variant) + (if deal_seeds_crib(variant) {
            1int
        } else {
            0int
        }) == match variant {
            RuleVariant::TwoStandard => 12int,
            RuleVariant::TwoFiveCard => 10int,
            RuleVariant::TwoSevenCard => 15int,
            RuleVariant::ThreeStandard | RuleVariant::ThreeCaptain => 16int,
            RuleVariant::FourIndividual | RuleVariant::FourPairs => 20int,
            RuleVariant::FiveStandard => 25int,
            RuleVariant::SixPairs => 30int,
        },
{
}

/// Deals the card at the end of the deck to the player with the given index.
pub fn push_card_to_hand(index: u8, game: &mut GameImpl)
    requires
        index < old(game)@.players.len(),
        old(game)@.deck.len() > 0,
    ensures
        final(game)@ == given_card(old(game)@, index as int),
{
    let ghost before = game@;
    assert(before.players[index as int] == game.players[index as int]@);
    let card: Card = game.deck.deal();
    game.players[index as usize].hand.push(card);
    assert(game@.players =~= given_card(before, index as int).players);
}

/// The pair of seats that a pair of indices names, with -1 for an index that is missing.
pub open spec fn seats_of(skip: (Option<u8>, Option<u8>)) -> (int, int) {
    (
        match skip.0 {
            Some(seat) => seat as int,
            None => -1,
        },
        match skip.1 {
            Some(seat) => seat as int,
            None => -1,
        },
    )
}

/// Deals `rounds` rounds to the first `n` seats; in the last round the seats of `skip` are
/// passed over.
fn deal_round_the_table(game: &mut GameImpl, rounds: u8, n: u8, skip: (Option<u8>, Option<u8>))
    requires
        n <= old(game)@.players.len(),
        old(game)@.deck.len() >= times(rounds as int, n as int) - seats_named(
            seats_of(skip),
            n as int,
        ),
    ensures
        final(game)@ == deal_rounds(old(game)@, seats_of(skip), rounds as int, n as int, rounds as int),
        final(game)@.deck.len() >= old(game)@.deck.len() - times(rounds as int, n as int),
{
    let ghost before = game@;
    let ghost passed = seats_of(skip);
    let ghost named = seats_named(passed, n as int);
    let mut round: u8 = 0;
    proof {
        lemma_times(rounds as int, n as int);
        assert(rounds * n >= 0) by (nonlinear_arith)
            requires
                rounds >= 0,
                n >= 0,
        ;
    }
    while round < rounds
        invariant
            round <= rounds,
            n <= before.players.len(),
            game@.players.len() == before.players.len(),
            passed == seats_of(skip),
            named == seats_named(passed, n as int),
            game@ == deal_rounds(before, passed, rounds as int, n as int, round as int),
            game@.deck.len() >= before.deck.len() - times(round as int, n as int),
            times(round as int, n as int) <= times(rounds as int, n as int),
            round < rounds ==> game@.deck.len() >= times(rounds - round, n as int) - named,
        decreases rounds - round,
    {
        let ghost start = game@;
        let last: bool = round + 1 == rounds;
        let mut seat: u8 = 0;
        proof {
            lemma_times_step(rounds as int, round as int, n as int);
            if !last {
                lemma_times_step(rounds as int, round as int + 1, n as int);
            }
        }
        while seat < n
            invariant
                seat <= n,
                n <= before.players.len(),
                game@.players.len() == before.players.len(),
                start.players.len() == before.players.len(),
                last == (round + 1 == rounds),
                game@ == deal_seats(start, passed, last, seat as int),
                passed == seats_of(skip),
                named == seats_named(passed, n as int),
                game@.deck.len() >= start.deck.len() - seat,
                !last ==> start.deck.len() >= n + n - named,
                last ==> game@.deck.len() >= n - seat - seats_named_from(
                    passed,
                    seat as int,
                    n as int,
                ),
            decreases n - seat,
        {
            let passed_over: bool = last && (skip.0 == Some(seat) || skip.1 == Some(seat));
            if !passed_over {
                push_card_to_hand(seat, game);
            }
            seat += 1;
        }
        round += 1;
    }
}

/// One more round takes `n` more cards.
pub proof fn lemma_times_step(rounds: int, round: int, n: int)
    requires
        0 <= round < rounds,
        0 <= n,
    ensures
        times(round + 1, n) == times(round, n) + n,
        times(rounds - round, n) == times(rounds - round - 1, n) + n,
        times(rounds - round - 1, n) >= 0,
        times(round + 1, n) <= times(rounds, n),
        times(rounds, n) - times(round + 1, n) >= times(rounds - round - 1, n),
        times(rounds - round, n) >= n,
{
    lemma_times(rounds, n);
    lemma_times(round, n);
    lemma_times(round + 1, n);
    lemma_times(rounds - round, n);
    lemma_times(rounds - round - 1, n);
    assert((round + 1) * n <= rounds * n) by (nonlinear_arith)
        requires
            round + 1 <= rounds,
            0 <= n,
    ;
    assert(rounds * n - (round + 1) * n == (rounds - round - 1) * n) by (nonlinear_arith);
    assert((rounds - round - 1) * n >= 0) by (nonlinear_arith)
        requires
            rounds - round - 1 >= 0,
            0 <= n,
    ;
}

/// Deals the card at the end of the deck into the crib.
fn seed_crib(game: &mut GameImpl)
    requires
        old(game)@.deck.len() > 0,
    ensures
        final(game)@ == crib_seeded(old(game)@),
{
    let card: Card = game.deck.deal();
    game.crib.push(card);
}

/// Deals to two players; with seven cards each, one more card goes into the crib.
pub fn deal_two(cards: u8, game: &mut GameImpl)
    requires
        old(game)@.players.len() >= 2,
        old(game)@.deck.len() >= cards * 2 + if cards == 7 { 1int } else { 0int },
    ensures
        final(game)@ == (if cards == 7 {
            crib_seeded(deal_rounds(old(game)@, (-1, -1), cards as int, 2, cards as int))
        } else {
            deal_rounds(old(game)@, (-1, -1), cards as int, 2, cards as int)
        }),
{
    proof {
        lemma_times(cards as int, 2);
    }
    assert(seats_of((None, None)) == (-1int, -1int));
    deal_round_the_table(game, cards, 2, (None, None));
    // In seven card cribbage, deal one card to the crib
    if cards == 7 {
        seed_crib(game);
    }
}

/// Deals five cards each to three players and one card into the crib.
pub fn deal_three(game: &mut GameImpl)
    requires
        old(game)@.players.len() >= 3,
        old(game)@.deck.len() >= 16,
    ensures
        final(game)@ == crib_seeded(deal_rounds(old(game)@, (-1, -1), 5, 3, 5)),
{
    proof {
        lemma_times(5, 3);
    }
    assert(seats_of((None, None)) == (-1int, -1int));
    deal_round_the_table(game, 5, 3, (None, None));
    seed_crib(game);
}

/// Deals five cards each to four players.
pub fn deal_four(game: &mut GameImpl)
    requires
        old(game)@.players.len() >= 4,
        old(game)@.deck.len() >= 20,
    ensures
        final(game)@ == deal_rounds(old(game)@, (-1, -1), 5, 4, 5),
{
    proof {
        lemma_times(5, 4);
    }
    assert(seats_of((None, None)) == (-1int, -1int));
    deal_round_the_table(game, 5, 4, (None, None));
}

/// Deals to five players: five cards each, but only four to the dealer.
pub fn deal_five(game: &mut GameImpl)
    requires
        old(game)@.players.len() >= 5,
        old(game)@.index_dealer is Some,
        old(game)@.deck.len() >= 25 - seats_named((old(game)@.index_dealer->0 as int, -1), 5),
    ensures
        final(game)@ == deal_rounds(
            old(game)@,
            (old(game)@.index_dealer->0 as int, -1),
            5,
            5,
            5,
        ),
{
    proof {
        lemma_times(5, 5);
    }
    let dealer = game.index_dealer;
    assert(seats_of((dealer, None)) == (dealer->0 as int, -1int));
    deal_round_the_table(game, 5, 5, (dealer, None));
}

/// Deals to six players: five cards each, but only four to the dealer and to the partner of
/// the dealer.
pub fn deal_six(game: &mut GameImpl)
    requires
        old(game)@.players.len() >= 6,
        old(game)@.index_dealer matches Some(dealer) && dealer < old(game)@.players.len()
            && old(game)@.players[dealer as int].partner_index is Some,
        old(game)@.deck.len() >= 30 - seats_named(
            (
                old(game)@.index_dealer->0 as int,
                old(game)@.players[old(game)@.index_dealer->0 as int].partner_index->0 as int,
            ),
            6,
        ),
    ensures
        final(game)@ == deal_rounds(
            old(game)@,
            (
                old(game)@.index_dealer->0 as int,
                old(game)@.players[old(game)@.index_dealer->0 as int].partner_index->0 as int,
            ),
            5,
            6,
            5,
        ),
{
    proof {
        lemma_times(5, 6);
    }
    let dealer = game.index_dealer;
    assert(game@.players[dealer->0 as int] == game.players[dealer->0 as int]@);
    let partner = game.players[dealer.unwrap() as usize].partner_index;
    assert(seats_of((dealer, partner)) == (dealer->0 as int, partner->0 as int));
    deal_round_the_table(game, 5, 6, (dealer, partner));
}

/// A deal takes no player away and lowers no score.
pub proof fn lemma_deal_never_lowers_a_score(game: GameView)
    ensures
        crate::no_score_is_lower(game, deal_step(game).0),
{
    lemma_deal_keeps_scores(game);
}

} // verus!
