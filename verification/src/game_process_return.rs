//! What processing an event returns: a success that says what happened, or an error that says
//! what was wrong.

use crate::score::{ScoreEvent, ScoreEventView};
use vstd::prelude::*;

verus! {

/// Settings that do not go together.
#[derive(Debug, Clone, Copy, PartialEq, Eq, Structural)]
pub enum ConfigError {
    UnderpeggingEnabledWhenManualScoringIsDisabled,
    MugginsEnabledWhenManualScoringIsDisabled,
    OverpeggingEnabledWhenManualScoringIsDisabled,
    MugginsEnabledWhenUnderpeggingIsDisabled,
    VDOIsNotTwoPlayersWhenVariantIsTwoPlayers,
    VDOIsTwoPlayersWhenVariantIsMoreThanTwoPlayers,
    VDOIsNotCaptainDealsWhenVariantIsThreeCaptain,
    VDOIsCaptainDealsWhenVariantIsNotThreeCaptain,
    VDOIsNotLoserDrawsForDealerWhenVariantHasPairs,
    LowballEnabledWhenVariantIsNotTwoPlayersOrPairs,
    LowballIsEnabledWhenUnderpeggingIsEnabled,
}

/// The kinds of event that a state may expect.
#[derive(Debug, Clone, Copy, PartialEq, Eq, Structural)]
pub enum Event {
    GameSetup,
    Confirmation,
    DiscardSelection,
    Nibs,
    Play,
    ManScoreSelection,
    Muggins,
    Denial,
}

/// What is wrong with the discards of one player; the number is the index of that player.
#[derive(Debug, Clone, Copy, PartialEq, Eq, Structural)]
pub enum DiscardError {
    // Errors with number of indices given
    TwoCardsAreDiscardedWithTwoPlayers(u8),
    OneCardIsDiscardedWithThreePlayers(u8),
    OneCardIsDiscardedWithFourPlayers(u8),
    OneCardIsDiscardedForNonDealersWithFivePlayers(u8),
    NoCardsAreDiscardedForDealerWithFivePlayers(u8),
    OneCardIsDiscardedForNonDealersAndNonDealerPartnersWithSixPlayers(u8),
    NoCardsAreDiscardedForDealerAndDealerPartnerWithSixPlayers(u8),
    // Error with the indices given
    TwoCardIndicesMayNotBeRepeated(u8),
    IndicesAreBetween0And5InclusiveWithTwoStandard(u8),
    IndicesAreBetween0And6InclusiveWithTwoSevenCard(u8),
    IndicesAreBetween0And4InclusiveWithTwoFiveCard(u8),
    IndicesAreBetween0And4InclusiveWithThreeOrMorePlayers(u8),
}

/// Errors that a player cannot cause: the game record was not in a shape that play through the
/// public interface leaves it in.
#[derive(Debug, Clone, Copy, PartialEq, Eq, Structural)]
pub enum ImplError {
    /// The game has no settings
    NoConfig,
    /// A discard selection holds one list of indices per player, empty where a player discards
    /// nothing
    ThereShouldBeOneDiscardIndicesVectorPerPlayer,
    /// Nibs cannot be checked before the starter card is cut
    NibsCheckWhenNoStarterCard,
    /// The seats, the dealer, the active player, the deck, the cards or a score are not what
    /// the current state needs
    InconsistentGameRecord,
}

/// What is wrong with a call of nibs, or with the lack of one.
#[derive(Debug, Clone, Copy, PartialEq, Eq, Structural)]
pub enum NibsError {
    NoNibsCallWhenUnderscoringIsDisabled,
    NibsCallWhenNoCutJack,
    InvalidScoreEventToNibsCheck,
}

/// What is wrong with a turn in the play.
#[derive(Debug, Clone, Copy, PartialEq, Eq, Structural)]
pub enum PlayTurnError {
    CardHasAlreadyBeenPlayed,
    IndexIsBetween0And2InclusiveWithTwoFiveCard,
    IndexIsBetween0And4InclusiveWithTwoSevenCard,
    // This is true for all other variants
    IndexIsBetween0And3InclusiveWithThisRuleVariant,
    MustPlayCardIfAble,
    PlayGroupTotalMayNotExceed31,
}

/// What is wrong with a selection of scores or with a claim of missed scores.
#[derive(Debug, PartialEq)]
pub enum PlayScoreError {
    /// The event is not among the scores that were made
    OverpeggingIsNotAllowed(ScoreEvent),
    /// A score that was made is missing from the selection
    UnderpeggingIsNotAllowed,
}

/// The errors of the game.
#[derive(Debug, PartialEq)]
pub enum Error {
    ImplementationError(ImplError),
    /// The event does not fit the state; the list holds the kinds of event that do
    ExpectedEvent(Vec<Event>),
    GameStartInvalidConfig(ConfigError),
    InitialCutError,
    DiscardErrors(Vec<DiscardError>),
    NibsCallError(NibsError),
    PlayWaitForCardError(PlayTurnError),
    PlayScoreError(PlayScoreError),
    ShowScoreError(PlayScoreError),
    MugginsError(PlayScoreError),
    UnrecognizedState,
}

/// How a cut for the first deal ended.
#[derive(Debug, Clone, Copy, PartialEq, Eq, Structural)]
pub enum InitialCutReturn {
    /// Several players cut the lowest card and cut again
    CutTie,
    /// One player cut the lowest card and deals
    DealerChosen,
}

/// How the cut of the starter card ended.
#[derive(Debug, Clone, Copy, PartialEq, Eq, Structural)]
pub enum StarterCutReturn {
    /// Scoring is manual: the dealer is asked about nibs
    ManualScoring,
    /// A jack was cut and the dealer was given the two points
    AutoNibs,
    /// No jack was cut
    AutoNoNibs,
}

/// Whether the dealer scored for nibs.
#[derive(Debug, Clone, Copy, PartialEq, Eq, Structural)]
pub enum NibsCheckReturn {
    Nibs,
    NoNibs,
}

/// How a turn of the play ended.
#[derive(Debug, PartialEq)]
pub enum PlayWaitForCardReturn {
    /// The scores that the player was given for the turn
    AutomaticScoring(Vec<ScoreEvent>),
    /// Scoring is manual: the player is asked for the scores
    ManualScoring,
}

/// How the reset of the play ended.
#[derive(Debug, Clone, Copy, PartialEq, Eq, Structural)]
pub enum ResetPlayReturn {
    /// Cards are left to play: a new group was opened
    NextPlayGroup,
    /// No card is left to play: the hands are shown next
    ToShowScore,
}

/// What happened when an event was processed.
#[derive(Debug, PartialEq)]
pub enum Success {
    GameStart,
    InitialCut(InitialCutReturn),
    Deal,
    Sort,
    Discard,
    StarterCut(StarterCutReturn),
    NibsCheck(NibsCheckReturn),
    PlayWaitForCard(PlayWaitForCardReturn),
    /// The scores that were pegged for the last turn of the play
    PlayScore(Vec<ScoreEvent>),
    /// The missed scores that were claimed
    Muggins(Vec<ScoreEvent>),
    ResetPlay(ResetPlayReturn),
    /// The scores that were pegged for a hand
    ShowScore(Vec<ScoreEvent>),
    /// The scores that were pegged for the crib
    CribScore(Vec<ScoreEvent>),
    /// The index of the player who has won
    Win(u8),
}

/// An error of a selection or a claim, with the event as its view.
pub enum PlayScoreErrorView {
    OverpeggingIsNotAllowed(ScoreEventView),
    UnderpeggingIsNotAllowed,
}

/// An error with its lists as sequences.
pub enum ErrorView {
    ImplementationError(ImplError),
    ExpectedEvent(Seq<Event>),
    GameStartInvalidConfig(ConfigError),
    InitialCutError,
    DiscardErrors(Seq<DiscardError>),
    NibsCallError(NibsError),
    PlayWaitForCardError(PlayTurnError),
    PlayScoreError(PlayScoreErrorView),
    ShowScoreError(PlayScoreErrorView),
    MugginsError(PlayScoreErrorView),
    UnrecognizedState,
}

/// The end of a turn of the play with its scores as a sequence.
pub enum PlayWaitForCardReturnView {
    AutomaticScoring(Seq<ScoreEventView>),
    ManualScoring,
}

/// A success with its lists as sequences.
pub enum SuccessView {
    GameStart,
    InitialCut(InitialCutReturn),
    Deal,
    Sort,
    Discard,
    StarterCut(StarterCutReturn),
    NibsCheck(NibsCheckReturn),
    PlayWaitForCard(PlayWaitForCardReturnView),
    PlayScore(Seq<ScoreEventView>),
    Muggins(Seq<ScoreEventView>),
    ResetPlay(ResetPlayReturn),
    ShowScore(Seq<ScoreEventView>),
    CribScore(Seq<ScoreEventView>),
    Win(u8),
}

impl View for PlayScoreError {
    type V = PlayScoreErrorView;

    open spec fn view(&self) -> PlayScoreErrorView {
        match self {
            PlayScoreError::OverpeggingIsNotAllowed(event) => PlayScoreErrorView::OverpeggingIsNotAllowed(
                event@,
            ),
            PlayScoreError::UnderpeggingIsNotAllowed => PlayScoreErrorView::UnderpeggingIsNotAllowed,
        }
    }
}

impl View for Error {
    type V = ErrorView;

    open spec fn view(&self) -> ErrorView {
        match self {
            Error::ImplementationError(e) => ErrorView::ImplementationError(*e),
            Error::ExpectedEvent(events) => ErrorView::ExpectedEvent(events@),
            Error::GameStartInvalidConfig(e) => ErrorView::GameStartInvalidConfig(*e),
            Error::InitialCutError => ErrorView::InitialCutError,
            Error::DiscardErrors(errors) => ErrorView::DiscardErrors(errors@),
            Error::NibsCallError(e) => ErrorView::NibsCallError(*e),
            Error::PlayWaitForCardError(e) => ErrorView::PlayWaitForCardError(*e),
            Error::PlayScoreError(e) => ErrorView::PlayScoreError(e@),
            Error::ShowScoreError(e) => ErrorView::ShowScoreError(e@),
            Error::MugginsError(e) => ErrorView::MugginsError(e@),
            Error::UnrecognizedState => ErrorView::UnrecognizedState,
        }
    }
}

impl View for PlayWaitForCardReturn {
    type V = PlayWaitForCardReturnView;

    open spec fn view(&self) -> PlayWaitForCardReturnView {
        match self {
            PlayWaitForCardReturn::AutomaticScoring(events) => PlayWaitForCardReturnView::AutomaticScoring(
                events.deep_view(),
            ),
            PlayWaitForCardReturn::ManualScoring => PlayWaitForCardReturnView::ManualScoring,
        }
    }
}

impl View for Success {
    type V = SuccessView;

    open spec fn view(&self) -> SuccessView {
        match self {
            Success::GameStart => SuccessView::GameStart,
            Success::InitialCut(r) => SuccessView::InitialCut(*r),
            Success::Deal => SuccessView::Deal,
            Success::Sort => SuccessView::Sort,
            Success::Discard => SuccessView::Discard,
            Success::StarterCut(r) => SuccessView::StarterCut(*r),
            Success::NibsCheck(r) => SuccessView::NibsCheck(*r),
            Success::PlayWaitForCard(r) => SuccessView::PlayWaitForCard(r@),
            Success::PlayScore(events) => SuccessView::PlayScore(events.deep_view()),
            Success::Muggins(events) => SuccessView::Muggins(events.deep_view()),
            Success::ResetPlay(r) => SuccessView::ResetPlay(*r),
            Success::ShowScore(events) => SuccessView::ShowScore(events.deep_view()),
            Success::CribScore(events) => SuccessView::CribScore(events.deep_view()),
            Success::Win(seat) => SuccessView::Win(*seat),
        }
    }
}

/// The view of a result of processing an event.
pub open spec fn result_view(result: Result<Success, Error>) -> Result<SuccessView, ErrorView> {
    match result {
        Ok(success) => Ok(success@),
        Err(error) => Err(error@),
    }
}

} // verus!
