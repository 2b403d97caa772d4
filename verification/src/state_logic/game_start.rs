//! Setting up a game: the settings are checked, the players are seated and the deck is
//! shuffled for the first cut.

use crate::deck::{full_deck, Card};
use crate::game_process_return::{ConfigError, Error, ErrorView, Success, SuccessView};
use crate::player::{Player, PlayerView};
use crate::settings::{partner_of, seats, GameSettings, RuleVariant, VictorDealerOption};
use crate::util::return_num_players_for_variant;
use crate::{GameImpl, GameState, GameView};
use vstd::prelude::*;

verus! {

/// What is wrong with the settings, if anything. The dealer option is checked first, then
/// lowball against the variant, then the scoring options.
pub open spec fn settings_error(settings: GameSettings) -> Option<ConfigError> {
    let two = seats(settings.variant) == 2;
    let captain = settings.variant == RuleVariant::ThreeCaptain;
    let pairs = settings.variant == RuleVariant::FourPairs || settings.variant
        == RuleVariant::SixPairs;
    let option = settings.victor_dealer_option;
    if two && option != VictorDealerOption::TwoPlayers {
        Some(ConfigError::VDOIsNotTwoPlayersWhenVariantIsTwoPlayers)
    } else if !two && option == VictorDealerOption::TwoPlayers {
        Some(ConfigError::VDOIsTwoPlayersWhenVariantIsMoreThanTwoPlayers)
    } else if captain && option != VictorDealerOption::CaptainDeals {
        Some(ConfigError::VDOIsNotCaptainDealsWhenVariantIsThreeCaptain)
    } else if !captain && option == VictorDealerOption::CaptainDeals {
        Some(ConfigError::VDOIsCaptainDealsWhenVariantIsNotThreeCaptain)
    } else if pairs && option == VictorDealerOption::LastPlaceIsDealer {
        Some(ConfigError::VDOIsNotLoserDrawsForDealerWhenVariantHasPairs)
    } else if settings.is_lowball && (settings.variant == RuleVariant::ThreeStandard
        || settings.variant == RuleVariant::FourIndividual || seats(settings.variant) > 4) {
        Some(ConfigError::LowballEnabledWhenVariantIsNotTwoPlayersOrPairs)
    } else if !settings.is_manual_scoring && settings.is_underpegging {
        Some(ConfigError::UnderpeggingEnabledWhenManualScoringIsDisabled)
    } else if !settings.is_manual_scoring && settings.is_muggins {
        Some(ConfigError::MugginsEnabledWhenManualScoringIsDisabled)
    } else if !settings.is_manual_scoring && settings.is_overpegging {
        Some(ConfigError::OverpeggingEnabledWhenManualScoringIsDisabled)
    } else if !settings.is_underpegging && settings.is_muggins {
        Some(ConfigError::MugginsEnabledWhenUnderpeggingIsDisabled)
    } else if settings.is_underpegging && settings.is_lowball {
        Some(ConfigError::LowballIsEnabledWhenUnderpeggingIsEnabled)
    } else {
        None
    }
}

/// A player who has not scored and holds no cards.
pub open spec fn new_player(partner_index: Option<u8>) -> PlayerView {
    PlayerView { back_peg_pos: 0, front_peg_pos: 0, hand: Seq::empty(), partner_index }
}

/// The players of a variant as they sit down: no score, no cards, partners as the variant
/// pairs them.
pub open spec fn seated_players(variant: RuleVariant) -> Seq<PlayerView> {
    Seq::new(seats(variant) as nat, |seat: int| new_player(partner_of(variant, seat)))
}

/// The seats from 0 up to, not including, `n`.
pub open spec fn seats_below(n: int) -> Seq<u8> {
    Seq::new(n as nat, |seat: int| seat as u8)
}

/// The players who cut for the first deal: in the captain's variant the captain alone, who
/// therefore deals; else everybody.
pub open spec fn first_contenders(variant: RuleVariant) -> Seq<u8> {
    if variant == RuleVariant::ThreeCaptain {
        seq![0u8]
    } else {
        seats_below(seats(variant))
    }
}

/// Whether the deck holds each of the 52 cards once.
pub open spec fn is_shuffled(deck: Seq<Card>) -> bool {
    deck.len() == 52 && deck.to_multiset() == full_deck().to_multiset()
}

/// What setting up a game does. Settings that do not go together are refused and nothing
/// changes. Else the players are seated, the deck is reset, the crib is emptied, and the game
/// waits for the first cut.
pub open spec fn game_setup_outcome(
    pre: GameView,
    settings: GameSettings,
    post: GameView,
    result: Result<SuccessView, ErrorView>,
) -> bool {
    match settings_error(settings) {
        Some(error) => result == Err::<SuccessView, ErrorView>(
            ErrorView::GameStartInvalidConfig(error),
        ) && post == pre,
        None => {
            &&& result == Ok::<SuccessView, ErrorView>(SuccessView::GameStart)
            &&& is_shuffled(post.deck)
            &&& post == GameView {
                settings: Some(settings),
                players: seated_players(settings.variant),
                deck: post.deck,
                crib: Seq::empty(),
                contenders: first_contenders(settings.variant),
                state: GameState::CutInitial,
                ..pre
            }
        },
    }
}

/// Sets the game up with the given settings.
pub fn game_setup(game: &mut GameImpl, settings: GameSettings) -> (result: Result<Success, Error>)
    ensures
        game_setup_outcome(
            old(game)@,
            settings,
            final(game)@,
            crate::game_process_return::result_view(result),
        ),
{
    if let Err(e) = check_settings_validity(settings) {
        return Err(e);
    }
    game.settings = Some(settings);

    set_up_players(game);

    game.deck.reset_deck();
    game.crib = Vec::new();

    // The first cut is between all players, but in the captain's variant the captain always
    // deals first
    let mut contenders: Vec<u8> = Vec::new();
    if settings.variant == RuleVariant::ThreeCaptain {
        contenders.push(0);
        assert(contenders@ =~= first_contenders(settings.variant));
    } else {
        let count: u8 = return_num_players_for_variant(settings.variant);
        let mut index: u8 = 0;
        while index < count
            invariant
                index <= count,
                count as int == seats(settings.variant),
                contenders@ == seats_below(index as int),
            decreases count - index,
        {
            contenders.push(index);
            assert(contenders@ =~= seats_below(index as int + 1));
            index += 1;
        }
    }
    game.initial_cut_between_players_with_these_indices = contenders;

    game.state = GameState::CutInitial;

    Ok(Success::GameStart)
}

/// Checks that the settings go together.
pub fn check_settings_validity(settings: GameSettings) -> (result: Result<(), Error>)
    ensures
        match settings_error(settings) {
            Some(error) => result matches Err(e) && e@ == ErrorView::GameStartInvalidConfig(error),
            None => result is Ok,
        },
{
    let num_players: u8 = return_num_players_for_variant(settings.variant);
    // If the variant is one of the two player variants but the VictorDealerOption isn't TwoPlayers
    if num_players == 2 && settings.victor_dealer_option != VictorDealerOption::TwoPlayers {
        return Err(
            Error::GameStartInvalidConfig(ConfigError::VDOIsNotTwoPlayersWhenVariantIsTwoPlayers),
        );
    }
    // If the variant is three or more players but the VictorDealerOption is TwoPlayers
    if num_players != 2 && settings.victor_dealer_option == VictorDealerOption::TwoPlayers {
        return Err(
            Error::GameStartInvalidConfig(
                ConfigError::VDOIsTwoPlayersWhenVariantIsMoreThanTwoPlayers,
            ),
        );
    }
    // If the variant is ThreeCaptain, but the VictorDealerOption isn't CaptainDeals
    if settings.variant == RuleVariant::ThreeCaptain && settings.victor_dealer_option
        != VictorDealerOption::CaptainDeals {
        return Err(
            Error::GameStartInvalidConfig(
                ConfigError::VDOIsNotCaptainDealsWhenVariantIsThreeCaptain,
            ),
        );
    }
    // If the variant isn't ThreeCaptain, but the VictorDealerOption is CaptainDeals
    if settings.variant != RuleVariant::ThreeCaptain && settings.victor_dealer_option
        == VictorDealerOption::CaptainDeals {
        return Err(
            Error::GameStartInvalidConfig(
                ConfigError::VDOIsCaptainDealsWhenVariantIsNotThreeCaptain,
            ),
        );
    }
    // With pairs the losers always draw for the first deal of the next game
    if (settings.variant == RuleVariant::FourPairs || settings.variant == RuleVariant::SixPairs)
        && settings.victor_dealer_option == VictorDealerOption::LastPlaceIsDealer {
        return Err(
            Error::GameStartInvalidConfig(
                ConfigError::VDOIsNotLoserDrawsForDealerWhenVariantHasPairs,
            ),
        );
    }
    // With more than two players or pairs the game cannot go on once one of them is out, so
    // lowball does not work
    if (settings.variant == RuleVariant::ThreeStandard || settings.variant
        == RuleVariant::FourIndividual || num_players > 4) && settings.is_lowball {
        return Err(
            Error::GameStartInvalidConfig(
                ConfigError::LowballEnabledWhenVariantIsNotTwoPlayersOrPairs,
            ),
        );
    }
    // Underpegging, muggins and overpegging need manual scoring
    if !settings.is_manual_scoring {
        if settings.is_underpegging {
            return Err(
                Error::GameStartInvalidConfig(
                    ConfigError::UnderpeggingEnabledWhenManualScoringIsDisabled,
                ),
            );
        } else if settings.is_muggins {
            return Err(
                Error::GameStartInvalidConfig(
                    ConfigError::MugginsEnabledWhenManualScoringIsDisabled,
                ),
            );
        } else if settings.is_overpegging {
            return Err(
                Error::GameStartInvalidConfig(
                    ConfigError::OverpeggingEnabledWhenManualScoringIsDisabled,
                ),
            );
        }
    }
    // Muggins needs underpegging
    if !settings.is_underpegging && settings.is_muggins {
        return Err(
            Error::GameStartInvalidConfig(ConfigError::MugginsEnabledWhenUnderpeggingIsDisabled),
        );
    }
    // Underpegging does not work with lowball
    if settings.is_underpegging && settings.is_lowball {
        return Err(
            Error::GameStartInvalidConfig(ConfigError::LowballIsEnabledWhenUnderpeggingIsEnabled),
        );
    }
    Ok(())
}

/// Seats the players of the variant that the settings of the game name; without settings
/// nothing changes.
pub fn set_up_players(game: &mut GameImpl)
    ensures
        final(game)@ == (match old(game)@.settings {
            Some(settings) => GameView {
                players: seated_players(settings.variant),
                ..old(game)@
            },
            None => old(game)@,
        }),
{
    if let Some(settings) = game.settings {
        game.players = match settings.variant {
            RuleVariant::TwoStandard => set_up_no_partners(2, 6),
            RuleVariant::TwoFiveCard => set_up_no_partners(2, 5),
            RuleVariant::TwoSevenCard => set_up_no_partners(2, 7),
            RuleVariant::ThreeStandard => set_up_no_partners(3, 5),
            RuleVariant::ThreeCaptain => set_up_three_captain(),
            RuleVariant::FourIndividual => set_up_no_partners(4, 5),
            RuleVariant::FourPairs => set_up_four_pairs(),
            RuleVariant::FiveStandard => set_up_no_partners(5, 5),
            RuleVariant::SixPairs => set_up_six_pairs(),
        };
        assert(game@.players =~= seated_players(settings.variant));
    }
}

/// A player with no score, no cards and the given partner.
pub fn set_up_player(partner_index: Option<u8>, num_cards: u8) -> (player: Player)
    ensures
        player@ == new_player(partner_index),
{
    Player {
        back_peg_pos: 0,
        front_peg_pos: 0,
        hand: Vec::with_capacity(num_cards as usize),
        partner_index,
    }
}

/// The given number of players, none with a partner.
pub fn set_up_no_partners(num_players: u8, num_cards: u8) -> (players: Vec<Player>)
    ensures
        players.deep_view() == Seq::new(num_players as nat, |seat: int| new_player(None)),
{
    let mut players: Vec<Player> = Vec::new();
    let mut index: u8 = 0;
    while index < num_players
        invariant
            index <= num_players,
            players.len() == index,
            forall|k: int| 0 <= k < index ==> (#[trigger] players@[k])@ == new_player(None),
        decreases num_players - index,
    {
        players.push(set_up_player(None, num_cards));
        index += 1;
    }
    assert(players.deep_view() =~= Seq::new(num_players as nat, |seat: int| new_player(None)));
    players
}

/// The three players of the captain's variant: the captain alone, the other two a pair.
pub fn set_up_three_captain() -> (players: Vec<Player>)
    ensures
        players.deep_view() == seated_players(RuleVariant::ThreeCaptain),
{
    let mut players: Vec<Player> = Vec::new();
    players.push(set_up_player(None, 5));
    players.push(set_up_player(Some(2), 5));
    players.push(set_up_player(Some(1), 5));
    assert(players.deep_view() =~= seated_players(RuleVariant::ThreeCaptain));
    players
}

/// Four players in two pairs; partners sit opposite each other.
pub fn set_up_four_pairs() -> (players: Vec<Player>)
    ensures
        players.deep_view() == seated_players(RuleVariant::FourPairs),
{
    let mut players: Vec<Player> = Vec::new();
    players.push(set_up_player(Some(2), 5));
    players.push(set_up_player(Some(3), 5));
    players.push(set_up_player(Some(0), 5));
    players.push(set_up_player(Some(1), 5));
    assert(players.deep_view() =~= seated_players(RuleVariant::FourPairs));
    players
}

/// Six players in three pairs; partners sit opposite each other.
pub fn set_up_six_pairs() -> (players: Vec<Player>)
    ensures
        players.deep_view() == seated_players(RuleVariant::SixPairs),
{
    let mut players: Vec<Player> = Vec::new();
    players.push(set_up_player(Some(3), 5));
    players.push(set_up_player(Some(4), 5));
    players.push(set_up_player(Some(5), 5));
    players.push(set_up_player(Some(0), 5));
    players.push(set_up_player(Some(1), 5));
    players.push(set_up_player(Some(2), 5));
    assert(players.deep_view() =~= seated_players(RuleVariant::SixPairs));
    players
}

} // verus!
