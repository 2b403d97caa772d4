//! The configuration of a game and what each rule variant fixes.

use vstd::prelude::*;

verus! {

/// The rule variants. Each fixes the number of seats, the pairing of partners, the number of
/// cards dealt and the score that wins.
#[derive(PartialEq, Eq, Copy, Clone, Debug, Structural)]
pub enum RuleVariant {
    /// Two players to 121
    TwoStandard,
    /// Two players to 61
    TwoFiveCard,
    /// Two players to 151
    TwoSevenCard,
    /// Three players to 121
    ThreeStandard,
    /// One player to 61 and one pair to 121
    ThreeCaptain,
    /// Four players to 121
    FourIndividual,
    /// Two pairs to 121
    FourPairs,
    /// Five players to 121
    FiveStandard,
    /// Three pairs to 121
    SixPairs,
}

/// How the first dealer of the next game of a match is chosen.
#[derive(Copy, Clone, Debug, PartialEq, Eq, Structural)]
pub enum VictorDealerOption {
    /// The loser of a two-player game deals
    TwoPlayers,
    /// All losers cut for the deal
    LosersDrawForDealer,
    /// The player in last place deals
    LastPlaceIsDealer,
    /// The captain always deals first
    CaptainDeals,
}

/// The settings of a game.
#[derive(Copy, Clone, Debug, PartialEq, Eq, Structural)]
pub struct GameSettings {
    pub variant: RuleVariant,
    pub victor_dealer_option: VictorDealerOption,
    pub is_manual_scoring: bool,
    pub is_underpegging: bool,
    pub is_muggins: bool,
    pub is_overpegging: bool,
    pub is_lowball: bool,
}

/// The number of seats of a variant.
pub open spec fn seats(variant: RuleVariant) -> int {
    match variant {
        RuleVariant::TwoStandard | RuleVariant::TwoFiveCard | RuleVariant::TwoSevenCard => 2,
        RuleVariant::ThreeStandard | RuleVariant::ThreeCaptain => 3,
        RuleVariant::FourIndividual | RuleVariant::FourPairs => 4,
        RuleVariant::FiveStandard => 5,
        RuleVariant::SixPairs => 6,
    }
}

/// The partner of a seat in a variant, where the variant pairs that seat.
pub open spec fn partner_of(variant: RuleVariant, seat: int) -> Option<u8> {
    match variant {
        RuleVariant::ThreeCaptain => if seat == 1 {
            Some(2u8)
        } else if seat == 2 {
            Some(1u8)
        } else {
            None
        },
        RuleVariant::FourPairs => if 0 <= seat < 4 {
            Some(((seat + 2) % 4) as u8)
        } else {
            None
        },
        RuleVariant::SixPairs => if 0 <= seat < 6 {
            Some(((seat + 3) % 6) as u8)
        } else {
            None
        },
        _ => None,
    }
}

/// The number of cards that each seat is dealt in a variant, before the dealer's side is
/// shortchanged with five and six seats.
pub open spec fn cards_per_seat(variant: RuleVariant) -> int {
    match variant {
        RuleVariant::TwoStandard => 6,
        RuleVariant::TwoSevenCard => 7,
        _ => 5,
    }
}

/// Whether the deal of a variant puts one card of the deck straight into the crib.
pub open spec fn deal_seeds_crib(variant: RuleVariant) -> bool {
    variant == RuleVariant::TwoSevenCard || variant == RuleVariant::ThreeStandard || variant
        == RuleVariant::ThreeCaptain
}

/// The score at which a seat wins. In the captain's variant the captain, who has no partner,
/// plays to 61 and the pair to 121.
pub open spec fn win_threshold(variant: RuleVariant, has_partner: bool) -> int {
    match variant {
        RuleVariant::TwoFiveCard => 61,
        RuleVariant::TwoSevenCard => 151,
        RuleVariant::ThreeCaptain => if has_partner {
            121
        } else {
            61
        },
        _ => 121,
    }
}

} // verus!
