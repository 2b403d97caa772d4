//! A rules engine for cribbage and its variants for two to six players.
//!
//! A game is driven by events. Each event is checked against the state that the game is in;
//! it either moves the game on, or is refused with an error that says what was wrong.

use crate::deck::{peg_value, Card, Deck};
use crate::game_process_return::{Error, ErrorView, Event, Success, SuccessView};
use crate::player::{Player, PlayerView};
use crate::score::{ScoreEvent, ScoreEventView};
use crate::settings::GameSettings;
use crate::state_logic::manual::Phase;
use vstd::prelude::*;

pub mod deck;
pub mod game_process_return;
pub mod player;
pub mod score;
pub mod settings;
pub mod state_logic;
pub mod util;

verus! {

/// An event sent to the game to move it on.
#[derive(Debug, Clone)]
pub enum GameEvent {
    /// The settings to start the game with
    GameSetup(GameSettings),
    /// For each player the indices in the hand of the cards to put into the crib
    DiscardSelection(Vec<Vec<u8>>),
    /// The card that the active player plays, or a go
    Play(PlayTurn),
    /// The scores that the active player pegs when scoring is manual
    ManScoreSelection(Option<Vec<ScoreEvent>>),
    /// Whether the dealer calls nibs
    Nibs(Option<ScoreEvent>),
    /// A score of another player that is contested
    Contest(Option<ScoreEvent>),
    /// The missed scores that other players claim
    Muggins(Option<Vec<ScoreEvent>>),
    /// Go on to the next state
    Confirmation,
    /// Decline what a confirmation would accept
    Denial,
}

/// A turn in the play: the index in the hand of the card played, or a go where no card can be
/// played.
#[derive(Debug, Clone, Copy, PartialEq, Eq, Structural)]
pub enum PlayTurn {
    CardSelected(u8),
    Go,
}

/// The states of a game.
#[derive(Debug, Clone, Copy, PartialEq, Eq, Structural)]
pub enum GameState {
    /// Waits for the settings
    GameStart,
    /// Cuts for the first deal
    CutInitial,
    /// Deals the cards
    Deal,
    /// Sorts the hands
    Sort,
    /// Moves the discards into the crib
    Discard,
    /// Cuts the starter card
    CutStarter,
    /// Waits for the dealer to call nibs or not
    NibsCheck,
    /// Waits for the active player to play a card or to say go
    PlayWaitForCard,
    /// Waits for the scores of the last turn when scoring is manual
    PlayScore,
    /// Waits for claims on the scores missed in the last turn
    PlayMuggins,
    /// Opens the next group of the play, or goes on to the show
    ResetPlay,
    /// Scores the hand of the active player
    ShowScore,
    /// Waits for claims on the scores missed in the last hand
    ShowMuggins,
    /// Sorts the crib
    CribSort,
    /// Scores the crib
    CribScore,
    /// Waits for claims on the scores missed in the crib
    CribMuggins,
    /// A player has won
    Win,
    /// The game is over
    End,
}

/// The cards played in one group of the play, and their total.
#[derive(Debug, Clone, PartialEq)]
pub struct PlayGroup {
    pub total: u8,
    pub cards: Vec<Card>,
}

/// A group of the play with the cards as a sequence.
pub struct PlayGroupView {
    pub total: u8,
    pub cards: Seq<Card>,
}

impl View for PlayGroup {
    type V = PlayGroupView;

    open spec fn view(&self) -> PlayGroupView {
        PlayGroupView { total: self.total, cards: self.cards@ }
    }
}

impl DeepView for PlayGroup {
    type V = PlayGroupView;

    open spec fn deep_view(&self) -> PlayGroupView {
        self@
    }
}

/// The sum of the counting values of the cards.
pub open spec fn peg_total(cards: Seq<Card>) -> int
    decreases cards.len(),
{
    if cards.len() == 0 {
        0
    } else {
        peg_total(cards.drop_last()) + peg_value(cards.last())
    }
}

/// A group whose total is the sum of the counting values of its cards and is at most 31.
pub open spec fn group_is_consistent(group: PlayGroupView) -> bool {
    group.total == peg_total(group.cards) && group.total <= 31
}

/// Whether a card may be added to a group: the total must not go over 31.
pub open spec fn card_fits(group: PlayGroupView, card: Card) -> bool {
    group.total + peg_value(card) <= 31
}

/// A group after a card was played to it; a card that does not fit leaves it as it was.
pub open spec fn group_after_card(group: PlayGroupView, card: Card) -> PlayGroupView {
    if card_fits(group, card) {
        PlayGroupView {
            total: (group.total + peg_value(card)) as u8,
            cards: group.cards.push(card),
        }
    } else {
        group
    }
}

/// A group after one card after another was played to it.
pub open spec fn group_after_cards(group: PlayGroupView, cards: Seq<Card>) -> PlayGroupView
    decreases cards.len(),
{
    if cards.len() == 0 {
        group
    } else {
        group_after_card(group_after_cards(group, cards.drop_last()), cards.last())
    }
}

impl PlayGroup {
    /// A group with no cards.
    pub fn new() -> (group: PlayGroup)
        ensures
            group@ == (PlayGroupView { total: 0, cards: Seq::empty() }),
            group_is_consistent(group@),
    {
        PlayGroup { total: 0, cards: Vec::new() }
    }

    /// Plays a card to the group if the total stays within 31, and says whether it did.
    pub fn play(&mut self, card: Card) -> (played: bool)
        ensures
            played == card_fits(old(self)@, card),
            final(self)@ == group_after_card(old(self)@, card),
            group_is_consistent(old(self)@) ==> group_is_consistent(final(self)@),
    {
        let value: u8 = crate::deck::return_play_value(card);
        if self.total > 31 - value {
            false
        } else {
            proof {
                assert(self.cards@.push(card).drop_last() =~= self.cards@);
            }
            self.cards.push(card);
            self.total += value;
            true
        }
    }
}

/// However many cards are played to a new group, one after another, its total stays the sum
/// of the counting values of the cards it holds and never goes over 31.
pub proof fn lemma_group_stays_consistent(cards: Seq<Card>)
    ensures
        group_is_consistent(
            group_after_cards(PlayGroupView { total: 0, cards: Seq::empty() }, cards),
        ),
    decreases cards.len(),
{
    let start = PlayGroupView { total: 0, cards: Seq::empty() };
    if cards.len() > 0 {
        lemma_group_stays_consistent(cards.drop_last());
        let before = group_after_cards(start, cards.drop_last());
        if card_fits(before, cards.last()) {
            assert(before.cards.push(cards.last()).drop_last() =~= before.cards);
        }
    }
}


/// The record of a game: everything that the states read and change.
pub struct GameImpl {
    /// The settings, once the game is set up
    pub settings: Option<GameSettings>,
    pub state: GameState,
    pub players: Vec<Player>,
    pub deck: Deck,
    /// The index of the player who deals
    pub index_dealer: Option<u8>,
    /// The index of the player whose turn it is to play or to score
    pub index_active: Option<u8>,
    /// The index of the player who last played a card to the current group
    pub last_player_index: Option<u8>,
    pub starter_card: Option<Card>,
    pub crib: Vec<Card>,
    /// The groups of cards played in this hand; the last one is the current group
    pub play_groups: Vec<PlayGroup>,
    /// The scores that the active player has missed and that other players may claim
    pub remaining_score_events: Vec<ScoreEvent>,
    /// Whether the last turn of the play was a go
    pub last_play_was_go: bool,
    /// The players who cut for the first deal
    pub initial_cut_between_players_with_these_indices: Vec<u8>,
    /// With this set the deck is never reset, so that its cards can be chosen
    pub is_debug: bool,
}

/// The record of a game with its lists as sequences.
pub struct GameView {
    pub settings: Option<GameSettings>,
    pub state: GameState,
    pub players: Seq<PlayerView>,
    pub deck: Seq<Card>,
    pub index_dealer: Option<u8>,
    pub index_active: Option<u8>,
    pub last_player_index: Option<u8>,
    pub starter_card: Option<Card>,
    pub crib: Seq<Card>,
    pub play_groups: Seq<PlayGroupView>,
    pub remaining_score_events: Seq<ScoreEventView>,
    pub last_play_was_go: bool,
    pub contenders: Seq<u8>,
    pub is_debug: bool,
}

impl View for GameImpl {
    type V = GameView;

    open spec fn view(&self) -> GameView {
        GameView {
            settings: self.settings,
            state: self.state,
            players: self.players.deep_view(),
            deck: self.deck@,
            index_dealer: self.index_dealer,
            index_active: self.index_active,
            last_player_index: self.last_player_index,
            starter_card: self.starter_card,
            crib: self.crib@,
            play_groups: self.play_groups.deep_view(),
            remaining_score_events: self.remaining_score_events.deep_view(),
            last_play_was_go: self.last_play_was_go,
            contenders: self.initial_cut_between_players_with_these_indices@,
            is_debug: self.is_debug,
        }
    }
}

/// The record of a game that has not been set up.
pub open spec fn new_game() -> GameView {
    GameView {
        settings: None,
        state: GameState::GameStart,
        players: Seq::empty(),
        deck: crate::deck::full_deck(),
        index_dealer: None,
        index_active: None,
        last_player_index: None,
        starter_card: None,
        crib: Seq::empty(),
        play_groups: Seq::empty(),
        remaining_score_events: Seq::empty(),
        last_play_was_go: false,
        contenders: Seq::empty(),
        is_debug: false,
    }
}

impl GameImpl {
    /// The record of a game that waits to be set up.
    pub fn new() -> (game: GameImpl)
        ensures
            game@ == new_game(),
    {
        let game = GameImpl {
            crib: Vec::new(),
            deck: Deck::new(),
            index_active: None,
            index_dealer: None,
            last_player_index: None,
            play_groups: Vec::new(),
            players: Vec::new(),
            remaining_score_events: Vec::new(),
            last_play_was_go: false,
            settings: None,
            starter_card: None,
            state: GameState::GameStart,
            initial_cut_between_players_with_these_indices: Vec::new(),
            is_debug: false,
        };
        assert(game@.players =~= Seq::empty());
        assert(game@.play_groups =~= Seq::empty());
        assert(game@.remaining_score_events =~= Seq::empty());
        game
    }
}


/// An event with its lists as sequences. A selection or a claim that is left out stands for
/// an empty one.
pub enum GameEventView {
    GameSetup(GameSettings),
    DiscardSelection(Seq<Seq<u8>>),
    Play(PlayTurn),
    ManScoreSelection(Seq<ScoreEventView>),
    Nibs(Option<ScoreEventView>),
    Contest(Option<ScoreEventView>),
    Muggins(Seq<ScoreEventView>),
    Confirmation,
    Denial,
}

impl View for GameEvent {
    type V = GameEventView;

    open spec fn view(&self) -> GameEventView {
        match self {
            GameEvent::GameSetup(settings) => GameEventView::GameSetup(*settings),
            GameEvent::DiscardSelection(selection) => GameEventView::DiscardSelection(
                crate::state_logic::discard::selection_view(selection@),
            ),
            GameEvent::Play(turn) => GameEventView::Play(*turn),
            GameEvent::ManScoreSelection(selection) => GameEventView::ManScoreSelection(
                crate::state_logic::play::muggins::claims_of(*selection),
            ),
            GameEvent::Nibs(call) => GameEventView::Nibs(
                crate::state_logic::cut_starter_and_nibs_check::call_view(*call),
            ),
            GameEvent::Contest(call) => GameEventView::Contest(
                crate::state_logic::cut_starter_and_nibs_check::call_view(*call),
            ),
            GameEvent::Muggins(selection) => GameEventView::Muggins(
                crate::state_logic::play::muggins::claims_of(*selection),
            ),
            GameEvent::Confirmation => GameEventView::Confirmation,
            GameEvent::Denial => GameEventView::Denial,
        }
    }
}

/// The kinds of event that a state takes. The state in which the game is over takes none.
pub open spec fn expected_events(state: GameState) -> Seq<Event> {
    match state {
        GameState::GameStart => seq![Event::GameSetup],
        GameState::CutInitial | GameState::Deal | GameState::Sort | GameState::CutStarter
        | GameState::ResetPlay => seq![Event::Confirmation],
        GameState::Discard => seq![Event::DiscardSelection],
        GameState::NibsCheck => seq![Event::Nibs],
        GameState::PlayWaitForCard => seq![Event::Play],
        GameState::PlayScore | GameState::ShowScore | GameState::CribScore => seq![
            Event::Confirmation,
            Event::ManScoreSelection,
        ],
        GameState::PlayMuggins | GameState::ShowMuggins | GameState::CribMuggins => seq![
            Event::Confirmation,
            Event::Muggins,
        ],
        GameState::Win => seq![Event::Confirmation, Event::Denial],
        GameState::CribSort | GameState::End => Seq::empty(),
    }
}

/// Nothing changes, and the result is the given error.
pub open spec fn refused(
    pre: GameView,
    post: GameView,
    result: Result<SuccessView, ErrorView>,
    error: ErrorView,
) -> bool {
    post == pre && result == Err::<SuccessView, ErrorView>(error)
}

/// What processing an event does: the state that the game is in takes the event where it is
/// of a kind that the state expects, with a confirmation standing for an empty selection or
/// for no claims. Every other event is refused with the kinds of event that the state expects,
/// and nothing changes. The state that sorts the crib is never entered and is not recognized.
pub open spec fn event_outcome(
    pre: GameView,
    event: GameEventView,
    post: GameView,
    result: Result<SuccessView, ErrorView>,
) -> bool {
    let unexpected = refused(pre, post, result, ErrorView::ExpectedEvent(expected_events(pre.state)));
    let none = Seq::<ScoreEventView>::empty();
    match pre.state {
        GameState::GameStart => match event {
            GameEventView::GameSetup(settings) => crate::state_logic::game_start::game_setup_outcome(
                pre,
                settings,
                post,
                result,
            ),
            _ => unexpected,
        },
        GameState::CutInitial => match event {
            GameEventView::Confirmation => crate::state_logic::cut_initial::process_cut_outcome(
                pre,
                post,
                result,
            ),
            _ => unexpected,
        },
        GameState::Deal => match event {
            GameEventView::Confirmation => crate::state_logic::deal::process_deal_outcome(
                pre,
                post,
                result,
            ),
            _ => unexpected,
        },
        GameState::Sort => match event {
            GameEventView::Confirmation => (post, result) == crate::state_logic::sort::sort_step(
                pre,
            ),
            _ => unexpected,
        },
        GameState::Discard => match event {
            GameEventView::DiscardSelection(selection) => (post, result)
                == crate::state_logic::discard::discard_step(pre, selection),
            _ => unexpected,
        },
        GameState::CutStarter => match event {
            GameEventView::Confirmation => (post, result)
                == crate::state_logic::cut_starter_and_nibs_check::starter_cut_step(pre),
            _ => unexpected,
        },
        GameState::NibsCheck => match event {
            GameEventView::Nibs(call) => (post, result)
                == crate::state_logic::cut_starter_and_nibs_check::nibs_step(pre, call),
            _ => unexpected,
        },
        GameState::PlayWaitForCard => match event {
            GameEventView::Play(turn) => (post, result)
                == crate::state_logic::play::wait_for_card::play_step(pre, turn),
            _ => unexpected,
        },
        GameState::PlayScore => match event {
            GameEventView::Confirmation => (post, result)
                == crate::state_logic::play::score::play_score_step(pre, none),
            GameEventView::ManScoreSelection(selected) => (post, result)
                == crate::state_logic::play::score::play_score_step(pre, selected),
            _ => unexpected,
        },
        GameState::PlayMuggins => match event {
            GameEventView::Confirmation => (post, result)
                == crate::state_logic::manual::muggins_step(pre, Phase::Play, none),
            GameEventView::Muggins(claims) => (post, result)
                == crate::state_logic::manual::muggins_step(pre, Phase::Play, claims),
            _ => unexpected,
        },
        GameState::ResetPlay => match event {
            GameEventView::Confirmation => (post, result)
                == crate::state_logic::play::reset_play::reset_play_step(pre),
            _ => unexpected,
        },
        GameState::ShowScore => match event {
            GameEventView::Confirmation => (post, result)
                == crate::state_logic::show::show_score_step(pre, none),
            GameEventView::ManScoreSelection(selected) => (post, result)
                == crate::state_logic::show::show_score_step(pre, selected),
            _ => unexpected,
        },
        GameState::ShowMuggins => match event {
            GameEventView::Confirmation => (post, result)
                == crate::state_logic::manual::muggins_step(pre, Phase::Show, none),
            GameEventView::Muggins(claims) => (post, result)
                == crate::state_logic::manual::muggins_step(pre, Phase::Show, claims),
            _ => unexpected,
        },
        GameState::CribScore => match event {
            GameEventView::Confirmation => (post, result)
                == crate::state_logic::show::crib_score_step(pre, none),
            GameEventView::ManScoreSelection(selected) => (post, result)
                == crate::state_logic::show::crib_score_step(pre, selected),
            _ => unexpected,
        },
        GameState::CribMuggins => match event {
            GameEventView::Confirmation => (post, result)
                == crate::state_logic::manual::muggins_step(pre, Phase::Crib, none),
            GameEventView::Muggins(claims) => (post, result)
                == crate::state_logic::manual::muggins_step(pre, Phase::Crib, claims),
            _ => unexpected,
        },
        GameState::Win => match event {
            GameEventView::Confirmation | GameEventView::Denial => (post, result)
                == crate::state_logic::win::win_step(pre),
            _ => unexpected,
        },
        GameState::CribSort => refused(pre, post, result, ErrorView::UnrecognizedState),
        GameState::End => unexpected,
    }
}

/// The kinds of event that a state takes.
fn events_expected_in(state: GameState) -> (events: Vec<Event>)
    ensures
        events@ == expected_events(state),
{
    let mut events: Vec<Event> = Vec::new();
    match state {
        GameState::GameStart => {
            events.push(Event::GameSetup);
        },
        GameState::CutInitial | GameState::Deal | GameState::Sort | GameState::CutStarter
        | GameState::ResetPlay => {
            events.push(Event::Confirmation);
        },
        GameState::Discard => {
            events.push(Event::DiscardSelection);
        },
        GameState::NibsCheck => {
            events.push(Event::Nibs);
        },
        GameState::PlayWaitForCard => {
            events.push(Event::Play);
        },
        GameState::PlayScore | GameState::ShowScore | GameState::CribScore => {
            events.push(Event::Confirmation);
            events.push(Event::ManScoreSelection);
        },
        GameState::PlayMuggins | GameState::ShowMuggins | GameState::CribMuggins => {
            events.push(Event::Confirmation);
            events.push(Event::Muggins);
        },
        GameState::Win => {
            events.push(Event::Confirmation);
            events.push(Event::Denial);
        },
        GameState::CribSort | GameState::End => {},
    }
    assert(events@ =~= expected_events(state));
    events
}

impl GameImpl {
    /// Processes an event: hands it to the state that the game is in.
    pub fn process_event(&mut self, event: GameEvent) -> (result: Result<Success, Error>)
        ensures
            event_outcome(
                old(self)@,
                event@,
                final(self)@,
                crate::game_process_return::result_view(result),
            ),
    {
        let state = self.state;
        match state {
            GameState::GameStart => match event {
                GameEvent::GameSetup(settings) => crate::state_logic::game_start::game_setup(
                    self,
                    settings,
                ),
                _ => Err(Error::ExpectedEvent(events_expected_in(state))),
            },
            GameState::CutInitial => match event {
                GameEvent::Confirmation => crate::state_logic::cut_initial::process_cut(self),
                _ => Err(Error::ExpectedEvent(events_expected_in(state))),
            },
            GameState::Deal => match event {
                GameEvent::Confirmation => crate::state_logic::deal::process_deal(self),
                _ => Err(Error::ExpectedEvent(events_expected_in(state))),
            },
            GameState::Sort => match event {
                GameEvent::Confirmation => crate::state_logic::sort::process_sort(self),
                _ => Err(Error::ExpectedEvent(events_expected_in(state))),
            },
            GameState::Discard => match event {
                GameEvent::DiscardSelection(player_discards) => crate::state_logic::discard::process_discard(
                    self,
                    player_discards,
                ),
                _ => Err(Error::ExpectedEvent(events_expected_in(state))),
            },
            GameState::CutStarter => match event {
                GameEvent::Confirmation => crate::state_logic::cut_starter_and_nibs_check::process_cut(
                    self,
                ),
                _ => Err(Error::ExpectedEvent(events_expected_in(state))),
            },
            GameState::NibsCheck => match event {
                GameEvent::Nibs(nibs_call) => crate::state_logic::cut_starter_and_nibs_check::process_nibs(
                    self,
                    nibs_call,
                ),
                _ => Err(Error::ExpectedEvent(events_expected_in(state))),
            },
            GameState::PlayWaitForCard => match event {
                GameEvent::Play(play) => crate::state_logic::play::play_card(self, play),
                _ => Err(Error::ExpectedEvent(events_expected_in(state))),
            },
            GameState::PlayScore => match event {
                GameEvent::Confirmation => crate::state_logic::play::play_score(
                    self,
                    crate::state_logic::play::muggins::events_of_selection(None),
                ),
                GameEvent::ManScoreSelection(selection) => crate::state_logic::play::play_score(
                    self,
                    crate::state_logic::play::muggins::events_of_selection(selection),
                ),
                _ => Err(Error::ExpectedEvent(events_expected_in(state))),
            },
            GameState::PlayMuggins => match event {
                GameEvent::Confirmation => crate::state_logic::play::muggins::play_muggins(
                    self,
                    None,
                ),
                GameEvent::Muggins(selection) => crate::state_logic::play::muggins::play_muggins(
                    self,
                    selection,
                ),
                _ => Err(Error::ExpectedEvent(events_expected_in(state))),
            },
            GameState::ResetPlay => match event {
                GameEvent::Confirmation => crate::state_logic::play::reset_play::reset_play(self),
                _ => Err(Error::ExpectedEvent(events_expected_in(state))),
            },
            GameState::ShowScore => match event {
                GameEvent::Confirmation => crate::state_logic::show::show_score(self, None),
                GameEvent::ManScoreSelection(selection) => crate::state_logic::show::show_score(
                    self,
                    selection,
                ),
                _ => Err(Error::ExpectedEvent(events_expected_in(state))),
            },
            GameState::ShowMuggins => match event {
                GameEvent::Confirmation => crate::state_logic::show::show_muggins(self, None),
                GameEvent::Muggins(selection) => crate::state_logic::show::show_muggins(
                    self,
                    selection,
                ),
                _ => Err(Error::ExpectedEvent(events_expected_in(state))),
            },
            GameState::CribScore => match event {
                GameEvent::Confirmation => crate::state_logic::show::crib_score(self, None),
                GameEvent::ManScoreSelection(selection) => crate::state_logic::show::crib_score(
                    self,
                    selection,
                ),
                _ => Err(Error::ExpectedEvent(events_expected_in(state))),
            },
            GameState::CribMuggins => match event {
                GameEvent::Confirmation => crate::state_logic::show::crib_muggins(self, None),
                GameEvent::Muggins(selection) => crate::state_logic::show::crib_muggins(
                    self,
                    selection,
                ),
                _ => Err(Error::ExpectedEvent(events_expected_in(state))),
            },
            GameState::Win => match event {
                GameEvent::Confirmation => crate::state_logic::win::process_win(self),
                GameEvent::Denial => crate::state_logic::win::process_win(self),
                _ => Err(Error::ExpectedEvent(events_expected_in(state))),
            },
            GameState::CribSort => Err(Error::UnrecognizedState),
            GameState::End => Err(Error::ExpectedEvent(events_expected_in(state))),
        }
    }
}

/// A game. Events are the only way to change it.
pub struct Game {
    game: GameImpl,
}

impl View for Game {
    type V = GameView;

    closed spec fn view(&self) -> GameView {
        self.game@
    }
}

impl Game {
    /// A game that waits to be set up.
    pub fn new() -> (game: Game)
        ensures
            game@ == new_game(),
    {
        Game { game: GameImpl::new() }
    }

    /// The record of the game, to look at.
    pub fn record(&self) -> (record: &GameImpl)
        ensures
            record@ == self@,
    {
        &self.game
    }

    /// Processes an event. The event either moves the game on or is refused with an error
    /// that says what was wrong; a refused event changes nothing.
    pub fn process_event(&mut self, event: GameEvent) -> (result: Result<Success, Error>)
        ensures
            event_outcome(
                old(self)@,
                event@,
                final(self)@,
                crate::game_process_return::result_view(result),
            ),
    {
        self.game.process_event(event)
    }
}


/// Whether the total of every group of the play is the sum of the counting values of its
/// cards and is at most 31.
pub open spec fn groups_are_consistent(game: GameView) -> bool {
    forall|i: int|
        0 <= i < game.play_groups.len() ==> group_is_consistent(#[trigger] game.play_groups[i])
}

/// An event that is refused changes nothing: the game after it is the game before it.
pub proof fn lemma_refused_event_changes_nothing(
    pre: GameView,
    event: GameEventView,
    post: GameView,
    result: Result<SuccessView, ErrorView>,
)
    requires
        event_outcome(pre, event, post, result),
        result is Err,
    ensures
        post == pre,
{
    match pre.state {
        GameState::CutInitial => {
            if event is Confirmation && !pre.is_debug && crate::state_logic::cut_initial::cut_is_possible(
                pre,
                52,
            ) {
                let deck = choose|deck: Seq<Card>|
                    crate::state_logic::game_start::is_shuffled(deck) && (post, result)
                        == crate::state_logic::cut_initial::cut_step(GameView { deck, ..pre });
                assert(crate::state_logic::cut_initial::cut_is_possible(
                    GameView { deck, ..pre },
                    52,
                ));
            }
        },
        GameState::Deal => {
            if event is Confirmation && !pre.is_debug && pre.settings is Some
                && crate::state_logic::deal::deal_is_possible(pre, 52) {
                let deck = choose|deck: Seq<Card>|
                    crate::state_logic::game_start::is_shuffled(deck) && (post, result)
                        == crate::state_logic::deal::deal_step(GameView { deck, ..pre });
                let with_deck = GameView { deck, ..pre };
                assert(crate::state_logic::deal::shortchanged_seats(with_deck)
                    == crate::state_logic::deal::shortchanged_seats(pre));
                assert(crate::state_logic::deal::deal_is_possible(with_deck, 52));
            }
        },
        _ => {},
    }
}

/// The groups of the play stay consistent: where the total of every group is the sum of the
/// counting values of its cards and at most 31 before an event, it is so after the event,
/// whatever the event is.
pub proof fn lemma_events_keep_groups_consistent(
    pre: GameView,
    event: GameEventView,
    post: GameView,
    result: Result<SuccessView, ErrorView>,
)
    requires
        event_outcome(pre, event, post, result),
        groups_are_consistent(pre),
    ensures
        groups_are_consistent(post),
{
    if result is Err {
        lemma_refused_event_changes_nothing(pre, event, post, result);
    } else {
        match pre.state {
            GameState::CutInitial => {
                if event is Confirmation && !pre.is_debug {
                    let deck = choose|deck: Seq<Card>|
                        crate::state_logic::game_start::is_shuffled(deck) && (post, result)
                            == crate::state_logic::cut_initial::cut_step(GameView { deck, ..pre });
                }
                assert(post.play_groups == pre.play_groups);
            },
            GameState::Deal => {
                if event is Confirmation {
                    if !pre.is_debug {
                        let deck = choose|deck: Seq<Card>|
                            crate::state_logic::game_start::is_shuffled(deck) && (post, result)
                                == crate::state_logic::deal::deal_step(GameView { deck, ..pre });
                        crate::state_logic::deal::lemma_deal_keeps_groups(GameView { deck, ..pre });
                    } else {
                        crate::state_logic::deal::lemma_deal_keeps_groups(pre);
                    }
                }
                assert(post.play_groups == pre.play_groups);
            },
            GameState::PlayMuggins | GameState::ShowMuggins | GameState::CribMuggins => {
                let phase = match pre.state {
                    GameState::PlayMuggins => Phase::Play,
                    GameState::ShowMuggins => Phase::Show,
                    _ => Phase::Crib,
                };
                let claims = match event {
                    GameEventView::Muggins(claims) => claims,
                    _ => Seq::empty(),
                };
                crate::state_logic::manual::lemma_claim_scores_keep_groups(
                    crate::state_logic::manual::moved_on(pre, phase),
                    claims,
                );
                assert(post.play_groups == pre.play_groups);
            },
            GameState::CutStarter => {
                assert(Seq::<Card>::empty().len() == 0);
                assert(forall|i: int|
                    0 <= i < post.play_groups.len() ==> #[trigger] post.play_groups[i]
                        == (PlayGroupView { total: 0, cards: Seq::empty() })
                        || post.play_groups[i] == pre.play_groups[i]);
            },
            GameState::PlayWaitForCard => {
                match event {
                    GameEventView::Play(PlayTurn::CardSelected(index)) => {
                        let hand = pre.players[pre.index_active->0 as int].hand;
                        let last = pre.play_groups.len() - 1;
                        lemma_card_keeps_group_consistent(pre.play_groups[last], hand[index as int]);
                        assert(post.play_groups == pre.play_groups.update(
                            last,
                            group_after_card(pre.play_groups[last], hand[index as int]),
                        ));
                    },
                    _ => {
                        assert(post.play_groups == pre.play_groups);
                    },
                }
            },
            GameState::ResetPlay => {
                assert(Seq::<Card>::empty().len() == 0);
                assert(post.play_groups == pre.play_groups || post.play_groups
                    == pre.play_groups.push(PlayGroupView { total: 0, cards: Seq::empty() }));
            },
            _ => {
                assert(post.play_groups == pre.play_groups);
            },
        }
    }
}

/// Whether the players are the same in number and none has a lower score than before.
pub open spec fn no_score_is_lower(pre: GameView, post: GameView) -> bool {
    &&& post.players.len() == pre.players.len()
    &&& forall|i: int|
        0 <= i < pre.players.len() ==> pre.players[i].front_peg_pos <= (
        #[trigger] post.players[i]).front_peg_pos
}

/// Scores only go up: once the game is set up, no event takes a player away or lowers the
/// score of a player.
pub proof fn lemma_events_never_lower_a_score(
    pre: GameView,
    event: GameEventView,
    post: GameView,
    result: Result<SuccessView, ErrorView>,
)
    requires
        event_outcome(pre, event, post, result),
        pre.state != GameState::GameStart,
    ensures
        no_score_is_lower(pre, post),
{
    let none = Seq::<ScoreEventView>::empty();
    if result is Err {
        lemma_refused_event_changes_nothing(pre, event, post, result);
    } else {
        match pre.state {
            GameState::CutInitial => {
                if pre.is_debug {
                    crate::state_logic::cut_initial::lemma_cut_never_lowers_a_score(pre);
                } else {
                    let deck = choose|deck: Seq<Card>|
                        crate::state_logic::game_start::is_shuffled(deck) && (post, result)
                            == crate::state_logic::cut_initial::cut_step(GameView { deck, ..pre });
                    crate::state_logic::cut_initial::lemma_cut_never_lowers_a_score(
                        GameView { deck, ..pre },
                    );
                }
            },
            GameState::Deal => {
                if pre.is_debug {
                    crate::state_logic::deal::lemma_deal_never_lowers_a_score(pre);
                } else {
                    let deck = choose|deck: Seq<Card>|
                        crate::state_logic::game_start::is_shuffled(deck) && (post, result)
                            == crate::state_logic::deal::deal_step(GameView { deck, ..pre });
                    crate::state_logic::deal::lemma_deal_never_lowers_a_score(
                        GameView { deck, ..pre },
                    );
                }
            },
            GameState::Sort => {
                crate::state_logic::sort::lemma_sort_never_lowers_a_score(pre);
            },
            GameState::Discard => {
                if let GameEventView::DiscardSelection(selection) = event {
                    crate::state_logic::discard::lemma_discard_never_lowers_a_score(pre, selection);
                }
            },
            GameState::CutStarter => {
                crate::state_logic::cut_starter_and_nibs_check::lemma_starter_cut_never_lowers_a_score(
                    pre,
                );
            },
            GameState::NibsCheck => {
                if let GameEventView::Nibs(call) = event {
                    crate::state_logic::cut_starter_and_nibs_check::lemma_nibs_never_lowers_a_score(
                        pre,
                        call,
                    );
                }
            },
            GameState::PlayWaitForCard => {
                if let GameEventView::Play(turn) = event {
                    crate::state_logic::play::wait_for_card::lemma_turn_never_lowers_a_score(
                        pre,
                        turn,
                    );
                }
            },
            GameState::PlayScore => {
                let selected = match event {
                    GameEventView::ManScoreSelection(selected) => selected,
                    _ => none,
                };
                crate::state_logic::manual::lemma_pegging_never_lowers_a_score(
                    pre,
                    Phase::Play,
                    crate::state_logic::play::score::scores_of_turn(pre),
                    selected,
                );
            },
            GameState::ShowScore => {
                let selected = match event {
                    GameEventView::ManScoreSelection(selected) => selected,
                    _ => none,
                };
                let active = pre.index_active->0;
                crate::state_logic::manual::lemma_pegging_never_lowers_a_score(
                    pre,
                    Phase::Show,
                    crate::score::show::show_events(
                        active,
                        pre.players[active as int].hand,
                        pre.starter_card->0,
                    ),
                    selected,
                );
            },
            GameState::CribScore => {
                let selected = match event {
                    GameEventView::ManScoreSelection(selected) => selected,
                    _ => none,
                };
                crate::state_logic::manual::lemma_pegging_never_lowers_a_score(
                    pre,
                    Phase::Crib,
                    crate::score::show::crib_events(
                        pre.index_dealer->0,
                        pre.crib,
                        pre.starter_card->0,
                    ),
                    selected,
                );
            },
            GameState::PlayMuggins | GameState::ShowMuggins | GameState::CribMuggins => {
                let phase = match pre.state {
                    GameState::PlayMuggins => Phase::Play,
                    GameState::ShowMuggins => Phase::Show,
                    _ => Phase::Crib,
                };
                let claims = match event {
                    GameEventView::Muggins(claims) => claims,
                    _ => none,
                };
                crate::state_logic::manual::lemma_muggins_never_lowers_a_score(pre, phase, claims);
            },
            GameState::ResetPlay => {
                crate::state_logic::play::reset_play::lemma_reset_never_lowers_a_score(pre);
            },
            GameState::Win => {
                crate::state_logic::win::lemma_end_never_lowers_a_score(pre);
            },
            _ => {},
        }
    }
}

/// A group that is consistent stays so when a card is played to it.
pub proof fn lemma_card_keeps_group_consistent(group: PlayGroupView, card: Card)
    requires
        group_is_consistent(group),
    ensures
        group_is_consistent(group_after_card(group, card)),
{
    if card_fits(group, card) {
        assert(group.cards.push(card).drop_last() =~= group.cards);
    }
}

} // verus!
