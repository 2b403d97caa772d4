//! The discards: each player names the cards of the hand that go into the crib. Every
//! selection is checked before any card moves, and all that is wrong is reported at once.

use crate::deck::{card_order, sort_cards, Card};
use crate::game_process_return::{DiscardError, Error, ErrorView, ImplError, Success, SuccessView};
use crate::player::PlayerView;
use crate::settings::{seats, RuleVariant};
use crate::state_logic::deal::shortchanged_seats;
use crate::{GameImpl, GameState, GameView};
use vstd::prelude::*;

verus! {

/// The highest index that a discard may name: one less than the number of cards dealt.
pub open spec fn highest_discard_index(variant: RuleVariant) -> int {
    match variant {
        RuleVariant::TwoStandard => 5,
        RuleVariant::TwoSevenCard => 6,
        _ => 4,
    }
}

/// The number of cards that a seat discards: two with two seats, else one; none for a seat
/// that was dealt one card less.
pub open spec fn discards_required(variant: RuleVariant, is_short: bool) -> int {
    if seats(variant) == 2 {
        2
    } else if is_short && seats(variant) >= 5 {
        0
    } else {
        1
    }
}

/// The error for a wrong number of discards.
pub open spec fn wrong_count(variant: RuleVariant, is_short: bool, seat: u8) -> DiscardError {
    match variant {
        RuleVariant::TwoStandard | RuleVariant::TwoFiveCard | RuleVariant::TwoSevenCard => DiscardError::TwoCardsAreDiscardedWithTwoPlayers(
            seat,
        ),
        RuleVariant::ThreeStandard | RuleVariant::ThreeCaptain => DiscardError::OneCardIsDiscardedWithThreePlayers(
            seat,
        ),
        RuleVariant::FourIndividual | RuleVariant::FourPairs => DiscardError::OneCardIsDiscardedWithFourPlayers(
            seat,
        ),
        RuleVariant::FiveStandard => if is_short {
            DiscardError::NoCardsAreDiscardedForDealerWithFivePlayers(seat)
        } else {
            DiscardError::OneCardIsDiscardedForNonDealersWithFivePlayers(seat)
        },
        RuleVariant::SixPairs => if is_short {
            DiscardError::NoCardsAreDiscardedForDealerAndDealerPartnerWithSixPlayers(seat)
        } else {
            DiscardError::OneCardIsDiscardedForNonDealersAndNonDealerPartnersWithSixPlayers(seat)
        },
    }
}

/// The error for an index that is too high.
pub open spec fn out_of_range(variant: RuleVariant, seat: u8) -> DiscardError {
    match variant {
        RuleVariant::TwoStandard => DiscardError::IndicesAreBetween0And5InclusiveWithTwoStandard(
            seat,
        ),
        RuleVariant::TwoFiveCard => DiscardError::IndicesAreBetween0And4InclusiveWithTwoFiveCard(
            seat,
        ),
        RuleVariant::TwoSevenCard => DiscardError::IndicesAreBetween0And6InclusiveWithTwoSevenCard(
            seat,
        ),
        _ => DiscardError::IndicesAreBetween0And4InclusiveWithThreeOrMorePlayers(seat),
    }
}

/// What is wrong with the discards of one seat, if anything: first their number, then a
/// repeated index, then an index that is too high.
pub open spec fn discard_error(
    variant: RuleVariant,
    is_short: bool,
    seat: u8,
    indices: Seq<u8>,
) -> Option<DiscardError> {
    let required = discards_required(variant, is_short);
    if indices.len() != required {
        Some(wrong_count(variant, is_short, seat))
    } else if required == 2 && indices[0] == indices[1] {
        Some(DiscardError::TwoCardIndicesMayNotBeRepeated(seat))
    } else if (required >= 1 && indices[0] > highest_discard_index(variant)) || (required == 2
        && indices[1] > highest_discard_index(variant)) {
        Some(out_of_range(variant, seat))
    } else {
        None
    }
}

/// Whether the seat was dealt one card less than the others.
pub open spec fn is_short_seat(game: GameView, seat: int) -> bool {
    seat == shortchanged_seats(game).0 || seat == shortchanged_seats(game).1
}

/// What is wrong with the discards of the seats below `n`, in the order of the seats.
pub open spec fn discard_errors(game: GameView, selection: Seq<Seq<u8>>, n: int) -> Seq<DiscardError>
    decreases n,
{
    if n <= 0 {
        Seq::empty()
    } else {
        let rest = discard_errors(game, selection, n - 1);
        match discard_error(
            game.settings->0.variant,
            is_short_seat(game, n - 1),
            (n - 1) as u8,
            selection[n - 1],
        ) {
            Some(error) => rest.push(error),
            None => rest,
        }
    }
}

/// Whether the discards can be looked at: the dealer is known where the dealer discards
/// nothing, there are no more seats than an index can name, and every seat that discards
/// holds the cards that were dealt.
pub open spec fn discard_is_possible(game: GameView) -> bool {
    &&& game.settings matches Some(settings)
    &&& game.players.len() <= 255
    &&& seats(settings.variant) >= 5 ==> (game.index_dealer matches Some(dealer) && dealer
        < game.players.len())
    &&& settings.variant == RuleVariant::SixPairs
        ==> game.players[game.index_dealer->0 as int].partner_index is Some
    &&& forall|seat: int|
        0 <= seat < game.players.len() && discards_required(
            settings.variant,
            is_short_seat(game, seat),
        ) > 0 ==> (#[trigger] game.players[seat]).hand.len() > highest_discard_index(
            settings.variant,
        )
}

/// The cards of the hand at the given indices, in the order of the indices.
pub open spec fn chosen_cards(hand: Seq<Card>, indices: Seq<u8>) -> Seq<Card> {
    Seq::new(indices.len(), |k: int| hand[indices[k] as int])
}

/// The test that keeps the cards that are not among the chosen.
pub open spec fn not_among(chosen: Seq<Card>) -> spec_fn(Card) -> bool {
    |card: Card| !chosen.contains(card)
}

/// The cards chosen by the seats below `n`, seat after seat.
pub open spec fn all_chosen(game: GameView, selection: Seq<Seq<u8>>, n: int) -> Seq<Card>
    decreases n,
{
    if n <= 0 {
        Seq::empty()
    } else {
        all_chosen(game, selection, n - 1) + chosen_cards(
            game.players[n - 1].hand,
            selection[n - 1],
        )
    }
}

/// The players without the cards that they chose.
pub open spec fn after_discards(players: Seq<PlayerView>, selection: Seq<Seq<u8>>) -> Seq<
    PlayerView,
> {
    Seq::new(
        players.len(),
        |i: int|
            PlayerView {
                hand: players[i].hand.filter(
                    not_among(chosen_cards(players[i].hand, selection[i])),
                ),
                ..players[i]
            },
    )
}

/// What the discards do. A selection that does not hold one list per player, a game without
/// settings and a game whose record cannot be right are refused, in this order; so is a
/// selection with errors, which are all reported. Nothing changes then. Else the chosen cards
/// leave the hands, the crib takes them and is sorted, and the starter is cut next.
pub open spec fn discard_step(game: GameView, selection: Seq<Seq<u8>>) -> (
    GameView,
    Result<SuccessView, ErrorView>,
) {
    let n = game.players.len() as int;
    if selection.len() != n {
        (
            game,
            Err(
                ErrorView::ImplementationError(
                    ImplError::ThereShouldBeOneDiscardIndicesVectorPerPlayer,
                ),
            ),
        )
    } else if game.settings is None {
        (game, Err(ErrorView::ImplementationError(ImplError::NoConfig)))
    } else if !discard_is_possible(game) {
        (game, Err(ErrorView::ImplementationError(ImplError::InconsistentGameRecord)))
    } else if discard_errors(game, selection, n).len() > 0 {
        (game, Err(ErrorView::DiscardErrors(discard_errors(game, selection, n))))
    } else {
        (
            GameView {
                players: after_discards(game.players, selection),
                crib: (game.crib + all_chosen(game, selection, n)).sort_by(card_order()),
                state: GameState::CutStarter,
                ..game
            },
            Ok(SuccessView::Discard),
        )
    }
}

/// The index lists of a selection as sequences.
pub open spec fn selection_view(selection: Seq<Vec<u8>>) -> Seq<Seq<u8>> {
    Seq::new(selection.len(), |i: int| selection[i]@)
}

/// Moves the chosen cards from the hands into the crib, where the selection is right.
pub fn process_discard(game: &mut GameImpl, discard_indices_group: Vec<Vec<u8>>) -> (result: Result<
    Success,
    Error,
>)
    ensures
        (final(game)@, crate::game_process_return::result_view(result)) == discard_step(
            old(game)@,
            selection_view(discard_indices_group@),
        ),
{
    match check_discard_validity(game, &discard_indices_group) {
        Ok(discard_errors) => {
            if discard_errors.len() > 0 {
                Err(Error::DiscardErrors(discard_errors))
            } else {
                execute_discard(game, discard_indices_group);
                Ok(Success::Discard)
            }
        },
        Err(e) => Err(e),
    }
}

/// Whether the discards can be looked at.
fn can_discard(game: &GameImpl) -> (r: bool)
    ensures
        r == discard_is_possible(game@),
{
    let settings = match game.settings {
        None => {
            return false;
        },
        Some(settings) => settings,
    };
    if game.players.len() > 255 {
        return false;
    }
    let n: u8 = crate::util::return_num_players_for_variant(settings.variant);
    let mut short: (Option<u8>, Option<u8>) = (None, None);
    if n >= 5 {
        match game.index_dealer {
            None => {
                return false;
            },
            Some(dealer) => {
                if dealer as usize >= game.players.len() {
                    return false;
                }
                assert(game@.players[dealer as int] == game.players[dealer as int]@);
                short = (Some(dealer), None);
                if settings.variant == RuleVariant::SixPairs {
                    match game.players[dealer as usize].partner_index {
                        None => {
                            return false;
                        },
                        Some(partner) => {
                            short = (Some(dealer), Some(partner));
                        },
                    }
                }
            },
        }
    }
    let highest: usize = highest_index(settings.variant) as usize;
    let mut seat: usize = 0;
    while seat < game.players.len()
        invariant
            seat <= game.players.len(),
            game.players.len() <= 255,
            game@.settings == Some(settings),
            highest as int == highest_discard_index(settings.variant),
            n as int == seats(settings.variant),
            forall|k: int| 0 <= k < game.players.len() ==> (is_short_seat(game@, k) && n >= 5) == (
            n >= 5 && (short.0 == Some(k as u8) || short.1 == Some(k as u8))),
            forall|k: int|
                0 <= k < seat && discards_required(settings.variant, is_short_seat(game@, k)) > 0
                    ==> (#[trigger] game@.players[k]).hand.len() > highest,
        decreases game.players.len() - seat,
    {
        assert(game@.players[seat as int] == game.players[seat as int]@);
        let is_short: bool = n >= 5 && (short.0 == Some(seat as u8) || short.1 == Some(seat as u8));
        if !is_short && game.players[seat].hand.len() <= highest {
            return false;
        }
        seat += 1;
    }
    true
}

/// The highest index that a discard may name.
fn highest_index(variant: RuleVariant) -> (r: u8)
    ensures
        r as int == highest_discard_index(variant),
{
    match variant {
        RuleVariant::TwoStandard => 5,
        RuleVariant::TwoSevenCard => 6,
        _ => 4,
    }
}

/// Checks the selection. The selection can be looked at where it holds one list per player,
/// the game has settings and its record can be right; the result is then the list of what is
/// wrong with the discards of each player, in the order of the seats, which is empty where
/// nothing is. Else the result is the error that says why it cannot be looked at.
pub fn check_discard_validity(game: &GameImpl, discard_indices_group: &Vec<Vec<u8>>) -> (result:
    Result<Vec<DiscardError>, Error>)
    ensures
        result is Ok <==> discard_indices_group@.len() == game@.players.len()
            && game@.settings is Some && discard_is_possible(game@),
        match result {
            Ok(errors) => {
                &&& errors@.len() > 0 ==> discard_step(
                    game@,
                    selection_view(discard_indices_group@),
                ) == (game@, Err::<SuccessView, ErrorView>(ErrorView::DiscardErrors(errors@)))
                &&& errors@.len() == 0 ==> discard_step(
                    game@,
                    selection_view(discard_indices_group@),
                ).1 == Ok::<SuccessView, ErrorView>(SuccessView::Discard)
                &&& discard_indices_group@.len() == game@.players.len()
                &&& discard_is_possible(game@)
                &&& errors@ == discard_errors(
                    game@,
                    selection_view(discard_indices_group@),
                    game@.players.len() as int,
                )
            },
            Err(error) => discard_step(game@, selection_view(discard_indices_group@)) == (
                game@,
                Err::<SuccessView, ErrorView>(error@),
            ),
        },
{
    // There should be one list of indices for each player
    if discard_indices_group.len() != game.players.len() {
        return Err(
            Error::ImplementationError(ImplError::ThereShouldBeOneDiscardIndicesVectorPerPlayer),
        );
    }
    let settings = match game.settings {
        None => {
            return Err(Error::ImplementationError(ImplError::NoConfig));
        },
        Some(settings) => settings,
    };
    if !can_discard(game) {
        return Err(Error::ImplementationError(ImplError::InconsistentGameRecord));
    }
    let ghost selection = selection_view(discard_indices_group@);
    let mut errors: Vec<DiscardError> = Vec::new();
    let mut player_index: usize = 0;
    while player_index < discard_indices_group.len()
        invariant
            player_index <= discard_indices_group.len(),
            discard_indices_group.len() == game.players.len(),
            game.players.len() <= 255,
            game@.settings == Some(settings),
            discard_is_possible(game@),
            selection == selection_view(discard_indices_group@),
            errors@ == discard_errors(game@, selection, player_index as int),
        decreases discard_indices_group.len() - player_index,
    {
        let discards = &discard_indices_group[player_index];
        assert(selection[player_index as int] == discards@);
        let seat: u8 = player_index as u8;
        let error: Option<DiscardError> = match settings.variant {
            RuleVariant::TwoStandard => check_two_player_validity(
                seat,
                discards,
                RuleVariant::TwoStandard,
            ),
            RuleVariant::TwoFiveCard => check_two_player_validity(
                seat,
                discards,
                RuleVariant::TwoFiveCard,
            ),
            RuleVariant::TwoSevenCard => check_two_player_validity(
                seat,
                discards,
                RuleVariant::TwoSevenCard,
            ),
            RuleVariant::ThreeStandard => check_three_or_four_player_validity(seat, discards, 3),
            RuleVariant::ThreeCaptain => check_three_or_four_player_validity(seat, discards, 3),
            RuleVariant::FourIndividual => check_three_or_four_player_validity(seat, discards, 4),
            RuleVariant::FourPairs => check_three_or_four_player_validity(seat, discards, 4),
            RuleVariant::FiveStandard => check_five_player_validity(
                seat,
                discards,
                game.index_dealer.unwrap(),
            ),
            RuleVariant::SixPairs => {
                let dealer: u8 = game.index_dealer.unwrap();
                assert(game@.players[dealer as int] == game.players[dealer as int]@);
                check_six_player_validity(
                    seat,
                    discards,
                    dealer,
                    game.players[dealer as usize].partner_index.unwrap(),
                )
            },
        };
        if let Some(error) = error {
            errors.push(error);
        }
        player_index += 1;
    }
    Ok(errors)
}

/// The variant for two by whose rules the discards of a player are checked: the five-card
/// and the seven-card game are themselves, and every other variant counts as the standard
/// game.
pub open spec fn as_game_for_two(variant: RuleVariant) -> RuleVariant {
    match variant {
        RuleVariant::TwoFiveCard => RuleVariant::TwoFiveCard,
        RuleVariant::TwoSevenCard => RuleVariant::TwoSevenCard,
        _ => RuleVariant::TwoStandard,
    }
}

/// What is wrong with the discards of a player in a game for two.
pub fn check_two_player_validity(
    player_index: u8,
    discard_indices: &Vec<u8>,
    variant: RuleVariant,
) -> (error: Option<DiscardError>)
    ensures
        error == discard_error(as_game_for_two(variant), false, player_index, discard_indices@),
        error == discard_error(as_game_for_two(variant), true, player_index, discard_indices@),
{
    if discard_indices.len() != 2 {
        Some(DiscardError::TwoCardsAreDiscardedWithTwoPlayers(player_index))
    } else if discard_indices[0] == discard_indices[1] {
        Some(DiscardError::TwoCardIndicesMayNotBeRepeated(player_index))
    } else {
        match variant {
            RuleVariant::TwoFiveCard => {
                if discard_indices[0] > 4 || discard_indices[1] > 4 {
                    Some(DiscardError::IndicesAreBetween0And4InclusiveWithTwoFiveCard(player_index))
                } else {
                    None
                }
            },
            RuleVariant::TwoSevenCard => {
                if discard_indices[0] > 6 || discard_indices[1] > 6 {
                    Some(
                        DiscardError::IndicesAreBetween0And6InclusiveWithTwoSevenCard(player_index),
                    )
                } else {
                    None
                }
            },
            _ => {
                if discard_indices[0] > 5 || discard_indices[1] > 5 {
                    Some(DiscardError::IndicesAreBetween0And5InclusiveWithTwoStandard(player_index))
                } else {
                    None
                }
            },
        }
    }
}

/// What is wrong with the discards of a player in a game for three or four.
pub fn check_three_or_four_player_validity(
    player_index: u8,
    discard_indices: &Vec<u8>,
    num_players: u8,
) -> (error: Option<DiscardError>)
    ensures
        forall|variant: RuleVariant, short: bool|
            seats(variant) == (if num_players == 3 { 3int } else { 4int }) ==> error
                == #[trigger] discard_error(variant, short, player_index, discard_indices@),
{
    if discard_indices.len() != 1 {
        if num_players == 3 {
            Some(DiscardError::OneCardIsDiscardedWithThreePlayers(player_index))
        } else {
            Some(DiscardError::OneCardIsDiscardedWithFourPlayers(player_index))
        }
    } else if discard_indices[0] > 4 {
        Some(DiscardError::IndicesAreBetween0And4InclusiveWithThreeOrMorePlayers(player_index))
    } else {
        None
    }
}

/// What is wrong with the discards of a player in a game for five.
pub fn check_five_player_validity(
    player_index: u8,
    discard_indices: &Vec<u8>,
    index_dealer: u8,
) -> (error: Option<DiscardError>)
    ensures
        error == discard_error(
            RuleVariant::FiveStandard,
            player_index == index_dealer,
            player_index,
            discard_indices@,
        ),
{
    if player_index == index_dealer {
        if discard_indices.len() != 0 {
            Some(DiscardError::NoCardsAreDiscardedForDealerWithFivePlayers(player_index))
        } else {
            None
        }
    } else {
        if discard_indices.len() != 1 {
            Some(DiscardError::OneCardIsDiscardedForNonDealersWithFivePlayers(player_index))
        } else if discard_indices[0] > 4 {
            Some(
                DiscardError::IndicesAreBetween0And4InclusiveWithThreeOrMorePlayers(player_index),
            )
        } else {
            None
        }
    }
}

/// What is wrong with the discards of a player in a game for six.
pub fn check_six_player_validity(
    player_index: u8,
    discard_indices: &Vec<u8>,
    index_dealer: u8,
    index_dealer_partner: u8,
) -> (error: Option<DiscardError>)
    ensures
        error == discard_error(
            RuleVariant::SixPairs,
            player_index == index_dealer || player_index == index_dealer_partner,
            player_index,
            discard_indices@,
        ),
{
    if player_index == index_dealer || player_index == index_dealer_partner {
        if discard_indices.len() != 0 {
            Some(
                DiscardError::NoCardsAreDiscardedForDealerAndDealerPartnerWithSixPlayers(
                    player_index,
                ),
            )
        } else {
            None
        }
    } else {
        if discard_indices.len() != 1 {
            Some(
                DiscardError::OneCardIsDiscardedForNonDealersAndNonDealerPartnersWithSixPlayers(
                    player_index,
                ),
            )
        } else if discard_indices[0] > 4 {
            Some(
                DiscardError::IndicesAreBetween0And4InclusiveWithThreeOrMorePlayers(player_index),
            )
        } else {
            None
        }
    }
}

/// Where nothing is wrong with the discards of the seats below `n`, nothing is wrong with
/// those of any one of them.
pub proof fn lemma_no_discard_errors(game: GameView, selection: Seq<Seq<u8>>, n: int, seat: int)
    requires
        0 <= seat < n,
        discard_errors(game, selection, n).len() == 0,
    ensures
        discard_error(
            game.settings->0.variant,
            is_short_seat(game, seat),
            seat as u8,
            selection[seat],
        ) is None,
    decreases n,
{
    if seat < n - 1 {
        lemma_no_discard_errors(game, selection, n - 1, seat);
    }
}

/// Moves the chosen cards of every player into the crib and sorts the crib. The selection must
/// have been checked and found right.
pub fn execute_discard(game: &mut GameImpl, discard_indices_group: Vec<Vec<u8>>)
    requires
        discard_indices_group@.len() == old(game)@.players.len(),
        discard_is_possible(old(game)@),
        discard_errors(
            old(game)@,
            selection_view(discard_indices_group@),
            old(game)@.players.len() as int,
        ).len() == 0,
    ensures
        final(game)@ == discard_step(old(game)@, selection_view(discard_indices_group@)).0,
{
    let ghost before = game@;
    let ghost selection = selection_view(discard_indices_group@);
    let ghost n = before.players.len() as int;
    let mut player_index: usize = 0;
    assert(before.crib + all_chosen(before, selection, 0) =~= before.crib);
    while player_index < game.players.len()
        invariant
            player_index <= game.players.len(),
            game.players.len() == before.players.len(),
            n == before.players.len(),
            discard_indices_group@.len() == n,
            selection == selection_view(discard_indices_group@),
            discard_is_possible(before),
            discard_errors(before, selection, n).len() == 0,
            game@ == (GameView { players: game@.players, crib: game@.crib, ..before }),
            game@.crib == before.crib + all_chosen(before, selection, player_index as int),
            forall|k: int|
                0 <= k < player_index ==> (#[trigger] game@.players[k]) == after_discards(
                    before.players,
                    selection,
                )[k],
            forall|k: int| player_index <= k < game.players.len() ==> (#[trigger] game@.players[k])
                == before.players[k],
        decreases game.players.len() - player_index,
    {
        let ghost players = game@.players;
        let ghost crib = game@.crib;
        assert(players[player_index as int] == game.players[player_index as int]@);
        let discard_indices = &discard_indices_group[player_index];
        assert(selection[player_index as int] == discard_indices@);
        let ghost hand = before.players[player_index as int].hand;
        proof {
            lemma_no_discard_errors(before, selection, n, player_index as int);
        }
        let mut selected_cards: Vec<Card> = Vec::new();
        let mut k: usize = 0;
        while k < discard_indices.len()
            invariant
                k <= discard_indices.len(),
                player_index < game.players.len(),
                game@.players == players,
                game@.crib == crib,
                game@ == (GameView { players: game@.players, crib: game@.crib, ..before }),
                hand == players[player_index as int].hand,
                hand == game.players[player_index as int].hand@,
                forall|j: int| 0 <= j < discard_indices.len() ==> (#[trigger] discard_indices@[j])
                    < hand.len(),
                selected_cards@ == chosen_cards(hand, discard_indices@.subrange(0, k as int)),
            decreases discard_indices.len() - k,
        {
            let index: usize = discard_indices[k] as usize;
            selected_cards.push(game.players[player_index].hand[index]);
            assert(selected_cards@ =~= chosen_cards(
                hand,
                discard_indices@.subrange(0, k as int + 1),
            ));
            k += 1;
        }
        assert(discard_indices@.subrange(0, k as int) =~= discard_indices@);
        let ghost chosen = selected_cards@;
        let ghost keep = not_among(chosen);

        let mut kept: Vec<Card> = Vec::new();
        let mut c: usize = 0;
        proof {
            assert(hand.subrange(0, 0) =~= Seq::<Card>::empty());
            reveal(Seq::filter);
            assert(kept@ =~= hand.subrange(0, 0).filter(keep));
        }
        while c < game.players[player_index].hand.len()
            invariant
                player_index < game.players.len(),
                c <= game.players[player_index as int].hand.len(),
                game@.players == players,
                game@.crib == crib,
                game@ == (GameView { players: game@.players, crib: game@.crib, ..before }),
                hand == game.players[player_index as int].hand@,
                chosen == selected_cards@,
                keep == not_among(chosen),
                kept@ == hand.subrange(0, c as int).filter(keep),
            decreases game.players[player_index as int].hand.len() - c,
        {
            let card: Card = game.players[player_index].hand[c];
            proof {
                assert(hand.subrange(0, c as int + 1) =~= hand.subrange(0, c as int).push(card));
                hand.subrange(0, c as int).lemma_filter_push(card, keep);
            }
            if !is_among(&selected_cards, card) {
                kept.push(card);
            }
            c += 1;
        }
        assert(hand.subrange(0, c as int) =~= hand);
        game.players[player_index].hand = kept;
        assert(game@.players =~= players.update(
            player_index as int,
            after_discards(before.players, selection)[player_index as int],
        ));

        let mut s: usize = 0;
        while s < selected_cards.len()
            invariant
                s <= selected_cards.len(),
                chosen == selected_cards@,
                game@ == (GameView { players: game@.players, crib: game@.crib, ..before }),
                game@.players == players.update(
                    player_index as int,
                    after_discards(before.players, selection)[player_index as int],
                ),
                game@.crib == crib + chosen.subrange(0, s as int),
            decreases selected_cards.len() - s,
        {
            game.crib.push(selected_cards[s]);
            assert(game@.crib =~= crib + chosen.subrange(0, s as int + 1));
            s += 1;
        }
        assert(chosen.subrange(0, s as int) =~= chosen);
        assert(game@.crib =~= before.crib + all_chosen(before, selection, player_index as int + 1));
        player_index += 1;
    }
    assert(game@.players =~= after_discards(before.players, selection));
    sort_cards(&mut game.crib);
    game.state = GameState::CutStarter;
}

/// Whether the card is among the cards.
fn is_among(cards: &Vec<Card>, card: Card) -> (r: bool)
    ensures
        r == cards@.contains(card),
{
    let mut i: usize = 0;
    while i < cards.len()
        invariant
            i <= cards.len(),
            forall|k: int| 0 <= k < i ==> cards@[k] != card,
        decreases cards.len() - i,
    {
        if cards[i] == card {
            return true;
        }
        i += 1;
    }
    false
}

/// The discards take no player away and lower no score.
pub proof fn lemma_discard_never_lowers_a_score(game: GameView, selection: Seq<Seq<u8>>)
    ensures
        crate::no_score_is_lower(game, discard_step(game, selection).0),
{
}

} // verus!
