use cribbage::deck::{Card, Deck};
use cribbage::game_process_return::{
    ConfigError, DiscardError, Error, Event, ImplError, InitialCutReturn, NibsCheckReturn,
    NibsError, PlayScoreError, PlayTurnError, PlayWaitForCardReturn, ResetPlayReturn,
    StarterCutReturn, Success,
};
use cribbage::score::{PlayScoreType, ScoreEvent, ScoreType, ShowScoreType};
use cribbage::settings::{GameSettings, RuleVariant, VictorDealerOption};
use cribbage::util::return_card;
use cribbage::{Game, GameEvent, GameImpl, GameState, PlayGroup, PlayTurn};

fn settings_for(
    players: u8,
    input_manual: bool,
    input_underscoring: bool,
    input_muggins: bool,
    input_overscoring: bool,
) -> GameSettings {
    let variant = match players {
        2 => RuleVariant::TwoStandard,
        3 => RuleVariant::ThreeStandard,
        4 => RuleVariant::FourIndividual,
        5 => RuleVariant::FiveStandard,
        _ => panic!("no individual game for that number of players"),
    };
    GameSettings {
        variant,
        victor_dealer_option: if players == 2 {
            VictorDealerOption::TwoPlayers
        } else {
            VictorDealerOption::LosersDrawForDealer
        },
        is_manual_scoring: input_manual,
        is_underpegging: input_underscoring,
        is_muggins: input_muggins,
        is_overpegging: input_overscoring,
        is_lowball: false,
    }
}

// Return a basic game with a specified length and debug status
fn return_basic_game(len: u8, debug: bool) -> GameImpl {
    let mut game = GameImpl::new();
    if debug {
        game.is_debug = true;
    }

    game.process_event(GameEvent::GameSetup(settings_for(len, false, false, false, false)))
        .unwrap();

    game
}

fn cut_until_dealer_chosen(game: &mut GameImpl) {
    while game.state == GameState::CutInitial {
        game.process_event(GameEvent::Confirmation).unwrap();
    }
}

fn cut_deal_and_sort(game: &mut GameImpl) {
    cut_until_dealer_chosen(game);
    game.process_event(GameEvent::Confirmation).unwrap();
    game.process_event(GameEvent::Confirmation).unwrap();
}

// Sets up a game with the given hands, crib, and starter card such as to test playing and/or
// showing
fn game_setup(hands_and_crib: Vec<Vec<Card>>, starter: Card, state: GameState) -> GameImpl {
    // Ensures the given state is a valid location to start the simulation from
    assert!(state == GameState::PlayWaitForCard || state == GameState::ShowScore);
    // There will be one hand for every player and a crib in hands_and_crib so the length minus
    // one is the number of players
    let mut game = return_basic_game(hands_and_crib.len() as u8 - 1, false);

    // Push the card to the hand or crib
    for (index, hand) in hands_and_crib.iter().enumerate() {
        for card in hand {
            if index != hands_and_crib.len() - 1 {
                game.players[index].hand.push(*card);
            } else {
                game.crib.push(*card);
            }
        }
    }

    game.starter_card = Some(starter);

    game.state = state;

    game.index_dealer = Some(0);
    game.index_active = Some(1);
    game.play_groups = vec![PlayGroup::new()];

    game
}

// A full deck whose cards from the end on are replaced by the given cards, the first of which
// is drawn first
fn deck_ending_in(drawn_first: Vec<Card>) -> Deck {
    let mut cards = Deck::new().cards();
    for (index, card) in drawn_first.iter().enumerate() {
        cards[51 - index] = *card;
    }
    Deck::from_vec(cards)
}

fn play(kind: PlayScoreType, player_index: u8, point_value: u8) -> ScoreEvent {
    ScoreEvent { score_type: ScoreType::Play(kind), player_index, point_value }
}

fn card_played(game: &mut GameImpl, index: u8) -> Result<Success, Error> {
    game.process_event(GameEvent::Play(PlayTurn::CardSelected(index)))
}

fn scored(events: Vec<ScoreEvent>) -> Result<Success, Error> {
    Ok(Success::PlayWaitForCard(PlayWaitForCardReturn::AutomaticScoring(events)))
}

#[test]
fn game_setup_test() {
    let mut test = GameImpl::new();

    // Test that game does not accept invalid settings eg. muggins being on while manual
    // scoring is off
    assert!(
        test.process_event(GameEvent::GameSetup(settings_for(2, false, true, false, false)))
            == Err(Error::GameStartInvalidConfig(
                ConfigError::UnderpeggingEnabledWhenManualScoringIsDisabled
            ))
    );

    assert!(
        test.process_event(GameEvent::GameSetup(settings_for(2, true, false, true, false)))
            == Err(Error::GameStartInvalidConfig(
                ConfigError::MugginsEnabledWhenUnderpeggingIsDisabled
            ))
    );

    assert!(
        test.process_event(GameEvent::GameSetup(settings_for(2, false, false, true, false)))
            == Err(Error::GameStartInvalidConfig(
                ConfigError::MugginsEnabledWhenManualScoringIsDisabled
            ))
    );

    assert!(
        test.process_event(GameEvent::GameSetup(settings_for(2, false, false, false, true)))
            == Err(Error::GameStartInvalidConfig(
                ConfigError::OverpeggingEnabledWhenManualScoringIsDisabled
            ))
    );
    assert!(test.state == GameState::GameStart);

    // Tests that valid play options succeed
    assert!(
        test.process_event(GameEvent::GameSetup(settings_for(2, false, false, false, false)))
            == Ok(Success::GameStart)
    );

    test = GameImpl::new();

    assert_eq!(
        test.process_event(GameEvent::GameSetup(settings_for(3, true, false, false, false))),
        Ok(Success::GameStart)
    );

    assert!(test.state == GameState::CutInitial);

    test = GameImpl::new();

    assert!(
        test.process_event(GameEvent::GameSetup(settings_for(4, true, false, false, true)))
            == Ok(Success::GameStart)
    );

    assert!(test.state == GameState::CutInitial);

    test = GameImpl::new();

    assert!(
        test.process_event(GameEvent::GameSetup(settings_for(5, true, true, true, false)))
            == Ok(Success::GameStart)
    );

    assert!(test.state == GameState::CutInitial);
    assert_eq!(test.players.len(), 5);

    // Once the game is set up it cannot be set up again
    assert!(
        test.process_event(GameEvent::GameSetup(settings_for(2, false, false, false, false)))
            == Err(Error::ExpectedEvent(vec![Event::Confirmation]))
    );
    assert_eq!(test.players.len(), 5);
}

#[test]
fn cut_initial_test() {
    // Set up test game
    let mut test = return_basic_game(2, true);

    // Set the last two cards of the deck to cards of equal value, and the two before them to
    // cards of different value
    test.deck = deck_ending_in(vec![
        return_card('A', 'S'),
        return_card('A', 'C'),
        return_card('2', 'S'),
        return_card('A', 'S'),
    ]);
    assert_eq!(
        test.process_event(GameEvent::Confirmation),
        Ok(Success::InitialCut(InitialCutReturn::CutTie)),
    );
    assert_eq!(test.state, GameState::CutInitial);

    assert_eq!(
        test.process_event(GameEvent::Confirmation),
        Ok(Success::InitialCut(InitialCutReturn::DealerChosen))
    );
    assert_eq!(test.index_dealer, Some(1));
    assert_eq!(test.state, GameState::Deal);

    // Add third player, and set last three cards of the deck to equal value
    test = return_basic_game(3, true);
    test.deck = deck_ending_in(vec![
        return_card('A', 'S'),
        return_card('A', 'C'),
        return_card('A', 'D'),
        // Two cards of equal value and one card of higher value
        return_card('A', 'S'),
        return_card('A', 'C'),
        return_card('2', 'S'),
        // The two players who tied cut again
        return_card('2', 'S'),
        return_card('A', 'S'),
    ]);

    assert_eq!(
        test.process_event(GameEvent::Confirmation),
        Ok(Success::InitialCut(InitialCutReturn::CutTie)),
    );
    assert_eq!(test.initial_cut_between_players_with_these_indices, vec![0, 1, 2]);

    assert_eq!(
        test.process_event(GameEvent::Confirmation),
        Ok(Success::InitialCut(InitialCutReturn::CutTie)),
    );
    assert_eq!(test.initial_cut_between_players_with_these_indices, vec![0, 1]);
    for player in &test.players {
        assert!(player.hand.is_empty());
    }

    assert_eq!(
        test.process_event(GameEvent::Confirmation),
        Ok(Success::InitialCut(InitialCutReturn::DealerChosen)),
    );
    assert_eq!(test.index_dealer, Some(1));
    assert!(test.players[2].hand.is_empty());

    // With third player, set the last three cards of the deck to cards of different value
    test = return_basic_game(3, true);
    test.deck = deck_ending_in(vec![
        return_card('A', 'S'),
        return_card('2', 'S'),
        return_card('3', 'S'),
    ]);

    assert_eq!(
        test.process_event(GameEvent::Confirmation),
        Ok(Success::InitialCut(InitialCutReturn::DealerChosen)),
    );
    assert_eq!(test.index_dealer, Some(0));
}

#[test]
fn deal_test() {
    // Confirm that program deals six cards to each player when there are two players
    let mut test = return_basic_game(2, false);
    cut_until_dealer_chosen(&mut test);
    test.process_event(GameEvent::Confirmation).unwrap();
    for player in &test.players {
        assert_eq!(player.hand.len(), 6);
    }

    // Confirm that program deals five cards to each player when there are three players
    test = return_basic_game(3, false);
    cut_until_dealer_chosen(&mut test);
    test.process_event(GameEvent::Confirmation).unwrap();
    for player in &test.players {
        assert_eq!(player.hand.len(), 5);
    }

    // Confirm that program deals five cards to each player when there are four players
    test = return_basic_game(4, false);
    cut_until_dealer_chosen(&mut test);
    test.process_event(GameEvent::Confirmation).unwrap();
    for player in &test.players {
        assert_eq!(player.hand.len(), 5);
    }

    // Confirm that program deals five cards to every player but the dealer and four card to
    // the dealer when there are five players
    test = return_basic_game(5, false);
    cut_until_dealer_chosen(&mut test);
    test.process_event(GameEvent::Confirmation).unwrap();
    for (index, player) in test.players.iter().enumerate() {
        if index == test.index_dealer.unwrap() as usize {
            assert_eq!(player.hand.len(), 4);
        } else {
            assert_eq!(player.hand.len(), 5);
        }
    }
}

#[test]
fn discards_test() {
    // Sets up test for two players
    let mut test = return_basic_game(2, false);
    cut_deal_and_sort(&mut test);
    let mut discards: Vec<Vec<u8>> = Vec::new();

    // Tests that the number of players check works
    assert_eq!(
        test.process_event(GameEvent::DiscardSelection(discards.clone())),
        Err(Error::ImplementationError(ImplError::ThereShouldBeOneDiscardIndicesVectorPerPlayer)),
    );
    // Pushes one discard to both players and tests that the discard number check works
    for index in 0..test.players.len() {
        discards.push(Vec::new());
        discards[index].push(0);
    }
    assert_eq!(
        test.process_event(GameEvent::DiscardSelection(discards.clone())),
        Err(Error::DiscardErrors(vec![
            DiscardError::TwoCardsAreDiscardedWithTwoPlayers(0),
            DiscardError::TwoCardsAreDiscardedWithTwoPlayers(1)
        ]))
    );
    // Pushes another discard to both players and tests that a proper input works
    for index in 0..test.players.len() {
        discards[index].push(1);
    }
    let chosen: Vec<Card> = vec![
        test.players[0].hand[0],
        test.players[0].hand[1],
        test.players[1].hand[0],
        test.players[1].hand[1],
    ];
    // Tests that the discard of a proper input results in an Ok
    assert_eq!(
        test.process_event(GameEvent::DiscardSelection(discards.clone())),
        Ok(Success::Discard),
    );
    // Tests that the crib is of proper length and is made up of the discards
    assert_eq!(test.crib.len(), 4);
    for crib_card in &test.crib {
        assert_eq!(chosen.contains(crib_card), true);
    }
    // Tests that the player hands are of proper length
    for player in &test.players {
        assert_eq!(player.hand.len(), 4);
    }

    // Sets up tests for three players
    test = return_basic_game(3, false);
    cut_deal_and_sort(&mut test);
    discards[0].clear();
    discards[1].clear();
    discards.push(Vec::new());

    // Tests that the number discarded check works
    assert_eq!(
        test.process_event(GameEvent::DiscardSelection(discards.clone())),
        Err(Error::DiscardErrors(vec![
            DiscardError::OneCardIsDiscardedWithThreePlayers(0),
            DiscardError::OneCardIsDiscardedWithThreePlayers(1),
            DiscardError::OneCardIsDiscardedWithThreePlayers(2),
        ])),
    );
    // Pushes a card to each discards member to test a proper input
    for index in 0..test.players.len() {
        discards[index].push(0);
    }
    let chosen: Vec<Card> =
        vec![test.players[0].hand[0], test.players[1].hand[0], test.players[2].hand[0]];
    // Tests that a correct number of discards results in Ok
    assert_eq!(
        test.process_event(GameEvent::DiscardSelection(discards.clone())),
        Ok(Success::Discard),
    );
    // Tests that the crib is the right length
    assert_eq!(test.crib.len(), 4);
    // Tests that the crib has three cards from the discard selections and one from the deck
    let mut num_matching_cards = 0;
    let mut num_nonmatching_cards = 0;
    for crib_card in &test.crib {
        if chosen.contains(crib_card) {
            num_matching_cards += 1;
        } else {
            num_nonmatching_cards += 1;
        }
    }
    assert_eq!(num_matching_cards, 3);
    assert_eq!(num_nonmatching_cards, 1);
    // Tests that each player's hand is the right length
    for player in &test.players {
        assert_eq!(player.hand.len(), 4);
    }

    // Checks for four players are the same as for three players

    // Sets up the test for five players
    test = return_basic_game(5, false);
    cut_deal_and_sort(&mut test);
    discards[0].clear();
    discards[1].clear();
    discards[2].clear();
    discards.push(Vec::new());
    discards.push(Vec::new());

    for index in 0..test.players.len() {
        discards[index].push(0);
    }
    let dealer = test.index_dealer.unwrap();
    // Tests check for number of cards
    assert_eq!(
        test.process_event(GameEvent::DiscardSelection(discards.clone())),
        Err(Error::DiscardErrors(vec![
            DiscardError::NoCardsAreDiscardedForDealerWithFivePlayers(dealer)
        ])),
    );
    // Tests a proper discards input
    discards[dealer as usize].clear();
    assert_eq!(test.process_event(GameEvent::DiscardSelection(discards)), Ok(Success::Discard),);
    // Tests that the crib and each had is the proper length
    assert_eq!(test.crib.len(), 4);
    for player in &test.players {
        assert_eq!(player.hand.len(), 4);
    }
}

#[test]
fn starter_card_test() {
    // For when manual scoring or underpegging are disabled
    let mut test = return_basic_game(2, true);
    // Jack with score of 119 or higher
    test.state = GameState::CutStarter;
    test.index_dealer = Some(0);
    test.players[0].change_score(119);
    test.deck = Deck::from_vec(vec![return_card('J', 'S')]);
    assert_eq!(
        test.process_event(GameEvent::Confirmation),
        Ok(Success::StarterCut(StarterCutReturn::AutoNibs)),
    );
    assert_eq!(test.starter_card, Some(return_card('J', 'S')));
    assert_eq!(test.state, GameState::Win);

    // Jack with score less than 119
    test = return_basic_game(2, true);
    test.state = GameState::CutStarter;
    test.index_dealer = Some(0);
    test.deck = Deck::from_vec(vec![return_card('J', 'S')]);
    assert_eq!(
        test.process_event(GameEvent::Confirmation),
        Ok(Success::StarterCut(StarterCutReturn::AutoNibs))
    );
    assert_eq!(test.players[0].front_peg_pos, 2);
    assert_eq!(test.state, GameState::PlayWaitForCard);

    // No jack
    test = return_basic_game(2, true);
    test.state = GameState::CutStarter;
    test.index_dealer = Some(0);
    test.deck = Deck::from_vec(vec![return_card('A', 'S')]);
    assert_eq!(
        test.process_event(GameEvent::Confirmation),
        Ok(Success::StarterCut(StarterCutReturn::AutoNoNibs)),
    );
    assert_eq!(test.state, GameState::PlayWaitForCard);

    // With manual scoring and underpegging enabled
    test = GameImpl::new();
    test.process_event(GameEvent::GameSetup(settings_for(2, true, true, false, false))).unwrap();
    test.state = GameState::CutStarter;
    test.index_dealer = Some(0);
    test.deck.reset_deck();
    assert_eq!(
        test.process_event(GameEvent::Confirmation),
        Ok(Success::StarterCut(StarterCutReturn::ManualScoring)),
    );
    assert_eq!(test.state, GameState::NibsCheck);
}

#[test]
fn check_nibs_test() {
    // Nibs not called
    let mut test = return_basic_game(2, false);
    test.state = GameState::NibsCheck;
    test.index_dealer = Some(0);
    test.starter_card = Some(return_card('A', 'S'));
    assert_eq!(
        test.process_event(GameEvent::Nibs(None)),
        Ok(Success::NibsCheck(NibsCheckReturn::NoNibs)),
    );
    assert_eq!(test.state, GameState::PlayWaitForCard);

    // Nibs called with Jack
    test.state = GameState::NibsCheck;
    test.starter_card = Some(return_card('J', 'S'));
    assert_eq!(
        test.process_event(GameEvent::Nibs(Some(ScoreEvent {
            score_type: ScoreType::Play(PlayScoreType::Nibs),
            player_index: test.index_dealer.unwrap(),
            point_value: 2,
        }))),
        Ok(Success::NibsCheck(NibsCheckReturn::Nibs)),
    );
    assert_eq!(test.players[0].front_peg_pos, 2);

    // Nibs called without Jack
    test.state = GameState::NibsCheck;
    test.starter_card = Some(return_card('A', 'S'));
    assert_eq!(
        test.process_event(GameEvent::Nibs(Some(ScoreEvent {
            score_type: ScoreType::Play(PlayScoreType::Nibs),
            player_index: test.index_dealer.unwrap(),
            point_value: 2,
        }))),
        Err(Error::NibsCallError(NibsError::NibsCallWhenNoCutJack)),
    );

    // Invalid ScoreEvent
    test.state = GameState::NibsCheck;
    test.starter_card = Some(return_card('J', 'S'));
    assert_eq!(
        test.process_event(GameEvent::Nibs(Some(ScoreEvent {
            score_type: ScoreType::Play(PlayScoreType::Pair),
            player_index: 0,
            point_value: 2,
        }))),
        Err(Error::NibsCallError(NibsError::InvalidScoreEventToNibsCheck))
    );
    assert_eq!(test.players[0].front_peg_pos, 2);
    assert_eq!(test.state, GameState::NibsCheck);
}

#[test]
fn play_automatic_test() {
    // Tests the play and score loop of the game with automatic scoring

    // Test game setup
    let mut hands: Vec<Vec<Card>> = Vec::new();
    hands.push(Vec::new());
    hands.push(Vec::new());
    hands.push(Vec::new());
    hands[1].push(return_card('T', 'S'));
    hands[0].push(return_card('T', 'C'));
    hands[1].push(return_card('T', 'D'));
    hands[0].push(return_card('A', 'S'));
    hands[1].push(return_card('2', 'S'));
    hands[0].push(return_card('2', 'C'));
    let mut test = game_setup(hands.clone(), return_card('A', 'C'), GameState::PlayWaitForCard);

    // Player 0 is dealer when skipping cut so player 1 goes first

    // Valid play
    assert_eq!(card_played(&mut test, 0), scored(vec![]));
    assert_eq!(test.players[1].front_peg_pos, 0);

    assert_eq!(card_played(&mut test, 0), scored(vec![play(PlayScoreType::Pair, 0, 2)]));
    assert_eq!(test.players[0].front_peg_pos, 2);

    assert_eq!(card_played(&mut test, 1), scored(vec![play(PlayScoreType::Triple, 1, 6)]));
    assert_eq!(test.players[1].front_peg_pos, 6);

    // Invalid go
    assert_eq!(
        test.process_event(GameEvent::Play(PlayTurn::Go)),
        Err(Error::PlayWaitForCardError(PlayTurnError::MustPlayCardIfAble))
    );

    // Valid go
    test.players[0].hand[1] = return_card('2', 'C');
    assert_eq!(test.process_event(GameEvent::Play(PlayTurn::Go)), scored(vec![]));

    // Valid last card point
    assert_eq!(
        test.process_event(GameEvent::Play(PlayTurn::Go)),
        scored(vec![play(PlayScoreType::LastCard, 1, 1)]),
    );
    assert_eq!(test.players[1].front_peg_pos, 7);
    assert_eq!(test.state, GameState::ResetPlay);

    // Create next PlayGroup
    assert_eq!(
        test.process_event(GameEvent::Confirmation),
        Ok(Success::ResetPlay(ResetPlayReturn::NextPlayGroup)),
    );

    // Repeated card
    assert_eq!(
        card_played(&mut test, 0),
        Err(Error::PlayWaitForCardError(PlayTurnError::CardHasAlreadyBeenPlayed)),
    );

    // Total over 31
    test.play_groups[1].total = 30;
    assert_eq!(
        card_played(&mut test, 2),
        Err(Error::PlayWaitForCardError(PlayTurnError::PlayGroupTotalMayNotExceed31)),
    );

    // Card not in player's hand
    test.play_groups[1].total = 0;
    assert_eq!(
        card_played(&mut test, 3),
        Err(Error::PlayWaitForCardError(
            PlayTurnError::IndexIsBetween0And3InclusiveWithThisRuleVariant
        )),
    );

    // No cards left test
    assert_eq!(card_played(&mut test, 2), scored(vec![]));
    assert_eq!(card_played(&mut test, 2), scored(vec![play(PlayScoreType::Pair, 1, 2)]));
    assert_eq!(test.process_event(GameEvent::Play(PlayTurn::Go)), scored(vec![]));
    assert_eq!(
        test.process_event(GameEvent::Play(PlayTurn::Go)),
        scored(vec![play(PlayScoreType::LastCard, 1, 1)])
    );
    assert_eq!(test.players[1].front_peg_pos, 10);
    assert_eq!(
        test.process_event(GameEvent::Confirmation),
        Ok(Success::ResetPlay(ResetPlayReturn::ToShowScore)),
    );
    assert_eq!(test.state, GameState::ShowScore);
}

#[test]
fn play_manual_test() {
    // Tests the scoring of cards when manual scoring is enabled

    // Test game setup
    let hands: Vec<Vec<Card>> = vec![
        vec![
            return_card('5', 'S'),
            return_card('A', 'S'),
            return_card('3', 'S'),
            return_card('4', 'D'),
        ],
        vec![
            return_card('4', 'S'),
            return_card('6', 'S'),
            return_card('2', 'S'),
            return_card('3', 'C'),
        ],
        Vec::new(),
    ];
    let mut game = game_setup(hands.clone(), return_card('2', 'C'), GameState::PlayWaitForCard);
    let mut manual = game.settings.unwrap();
    manual.is_manual_scoring = true;
    game.settings = Some(manual);

    assert_eq!(
        card_played(&mut game, 0),
        Ok(Success::PlayWaitForCard(PlayWaitForCardReturn::ManualScoring))
    );

    // Overscoring disabled error check
    assert_eq!(
        game.process_event(GameEvent::ManScoreSelection(Some(vec![play(
            PlayScoreType::Fifteen,
            1,
            2
        )]))),
        Err(Error::PlayScoreError(PlayScoreError::OverpeggingIsNotAllowed(play(
            PlayScoreType::Fifteen,
            1,
            2
        ))))
    );

    // Test with underscoring disabled

    // Valid none with underscoring disabled
    assert_eq!(game.process_event(GameEvent::Confirmation), Ok(Success::PlayScore(vec![])));

    // Invalid none with underscoring disabled
    card_played(&mut game, 3).unwrap();
    assert_eq!(
        game.process_event(GameEvent::Confirmation),
        Err(Error::PlayScoreError(PlayScoreError::UnderpeggingIsNotAllowed))
    );
    assert_eq!(
        game.process_event(GameEvent::ManScoreSelection(None)),
        Err(Error::PlayScoreError(PlayScoreError::UnderpeggingIsNotAllowed))
    );

    // Valid score selection passed
    assert_eq!(
        game.process_event(GameEvent::ManScoreSelection(Some(vec![play(
            PlayScoreType::Pair,
            0,
            2
        )]))),
        Ok(Success::PlayScore(vec![play(PlayScoreType::Pair, 0, 2)]))
    );
    assert_eq!(game.players[0].front_peg_pos, 2);

    // Incomplete score selection with underscoring disabled
    let mut game = game_setup(hands.clone(), return_card('2', 'C'), GameState::PlayWaitForCard);
    game.settings = Some(manual);

    card_played(&mut game, 0).unwrap();
    game.process_event(GameEvent::Confirmation).unwrap();
    card_played(&mut game, 0).unwrap();
    game.process_event(GameEvent::Confirmation).unwrap();
    card_played(&mut game, 1).unwrap();

    assert_eq!(
        game.process_event(GameEvent::ManScoreSelection(Some(vec![play(
            PlayScoreType::Fifteen,
            1,
            2
        )]))),
        Err(Error::PlayScoreError(PlayScoreError::UnderpeggingIsNotAllowed))
    );
    // Nothing is scored and the scores are still asked for
    assert_eq!(game.players[1].front_peg_pos, 0);
    assert_eq!(game.state, GameState::PlayScore);
    assert_eq!(game.index_active, Some(1));

    // Complete score selection with underscoring disabled
    let complete =
        vec![play(PlayScoreType::Fifteen, 1, 2), play(PlayScoreType::Straight(3), 1, 3)];
    assert_eq!(
        game.process_event(GameEvent::ManScoreSelection(Some(complete.clone()))),
        Ok(Success::PlayScore(complete))
    );
    assert_eq!(game.players[1].front_peg_pos, 5);
    assert_eq!(game.state, GameState::PlayWaitForCard);
}

#[test]
fn show_automatic_test() {
    let hands: Vec<Vec<Card>> = vec![
        vec![
            return_card('A', 'S'),
            return_card('2', 'S'),
            return_card('3', 'S'),
            return_card('4', 'S'),
        ],
        vec![
            return_card('4', 'C'),
            return_card('5', 'S'),
            return_card('5', 'C'),
            return_card('6', 'S'),
        ],
        vec![
            return_card('7', 'S'),
            return_card('7', 'C'),
            return_card('7', 'D'),
            return_card('7', 'H'),
        ],
    ];

    let mut game = game_setup(hands.clone(), return_card('8', 'S'), GameState::ShowScore);

    // Pone scores
    let result = game.process_event(GameEvent::Confirmation);
    assert!(matches!(result, Ok(Success::ShowScore(_))));
    assert_eq!(game.players[1].front_peg_pos, 12);
    assert_eq!(game.state, GameState::ShowScore);
    assert_eq!(game.index_active, Some(0));

    // Dealer scores main hand
    let result = game.process_event(GameEvent::Confirmation);
    assert!(matches!(result, Ok(Success::ShowScore(_))));
    assert_eq!(game.players[0].front_peg_pos, 13);
    assert_eq!(game.state, GameState::CribScore);

    // Dealer scores crib
    let result = game.process_event(GameEvent::Confirmation);
    match result {
        Ok(Success::CribScore(events)) => {
            assert_eq!(events.len(), 5);
            assert_eq!(
                events[4],
                ScoreEvent {
                    score_type: ScoreType::Show(ShowScoreType::Quadruple(vec![
                        return_card('7', 'H'),
                        return_card('7', 'D'),
                        return_card('7', 'C'),
                        return_card('7', 'S'),
                    ])),
                    player_index: 0,
                    point_value: 12,
                }
            );
        }
        _ => panic!("the crib was not scored"),
    }
    assert_eq!(game.players[0].front_peg_pos, 33);
    assert_eq!(game.players[0].back_peg_pos, 13);
    // The deal passes to the left
    assert_eq!(game.state, GameState::Deal);
    assert_eq!(game.index_dealer, Some(1));
}

#[test]
fn events_that_a_state_does_not_take_are_refused() {
    let mut game = Game::new();
    assert_eq!(
        game.process_event(GameEvent::Confirmation),
        Err(Error::ExpectedEvent(vec![Event::GameSetup]))
    );
    assert_eq!(game.record().state, GameState::GameStart);
    game.process_event(GameEvent::GameSetup(settings_for(2, true, true, true, false))).unwrap();
    assert_eq!(game.record().state, GameState::CutInitial);
    assert_eq!(
        game.process_event(GameEvent::Denial),
        Err(Error::ExpectedEvent(vec![Event::Confirmation]))
    );

    let mut game = return_basic_game(2, false);
    let expected: Vec<(GameState, Vec<Event>)> = vec![
        (GameState::GameStart, vec![Event::GameSetup]),
        (GameState::CutInitial, vec![Event::Confirmation]),
        (GameState::Deal, vec![Event::Confirmation]),
        (GameState::Sort, vec![Event::Confirmation]),
        (GameState::Discard, vec![Event::DiscardSelection]),
        (GameState::CutStarter, vec![Event::Confirmation]),
        (GameState::NibsCheck, vec![Event::Nibs]),
        (GameState::PlayWaitForCard, vec![Event::Play]),
        (GameState::PlayScore, vec![Event::Confirmation, Event::ManScoreSelection]),
        (GameState::PlayMuggins, vec![Event::Confirmation, Event::Muggins]),
        (GameState::ResetPlay, vec![Event::Confirmation]),
        (GameState::ShowScore, vec![Event::Confirmation, Event::ManScoreSelection]),
        (GameState::ShowMuggins, vec![Event::Confirmation, Event::Muggins]),
        (GameState::CribScore, vec![Event::Confirmation, Event::ManScoreSelection]),
        (GameState::CribMuggins, vec![Event::Confirmation, Event::Muggins]),
        (GameState::Win, vec![Event::Confirmation, Event::Denial]),
        (GameState::End, vec![]),
    ];
    for (state, events) in expected {
        game.state = state;
        assert_eq!(
            game.process_event(GameEvent::Contest(None)),
            Err(Error::ExpectedEvent(events))
        );
        assert_eq!(game.state, state);
    }
    game.state = GameState::CribSort;
    assert_eq!(game.process_event(GameEvent::Confirmation), Err(Error::UnrecognizedState));
}

#[test]
fn whole_hand_through_the_public_game() {
    let mut game = Game::new();
    assert_eq!(
        game.process_event(GameEvent::GameSetup(settings_for(2, false, false, false, false))),
        Ok(Success::GameStart)
    );
    while game.record().state == GameState::CutInitial {
        game.process_event(GameEvent::Confirmation).unwrap();
    }
    let dealer = game.record().index_dealer.unwrap();
    assert_eq!(game.process_event(GameEvent::Confirmation), Ok(Success::Deal));
    assert_eq!(game.process_event(GameEvent::Confirmation), Ok(Success::Sort));
    for player in &game.record().players {
        let mut sorted = player.hand.clone();
        sorted.sort();
        assert_eq!(player.hand, sorted);
    }
    assert_eq!(
        game.process_event(GameEvent::DiscardSelection(vec![vec![0, 1], vec![4, 5]])),
        Ok(Success::Discard)
    );
    let cut = game.process_event(GameEvent::Confirmation);
    assert!(matches!(cut, Ok(Success::StarterCut(_))));
    assert_eq!(game.record().deck.len(), 39);
    assert_eq!(game.record().index_active, Some((dealer + 1) % 2));

    // Every player plays the first card that can be played, or says go
    let mut turns = 0;
    while game.record().state == GameState::PlayWaitForCard
        || game.record().state == GameState::ResetPlay
    {
        if game.record().state == GameState::ResetPlay {
            game.process_event(GameEvent::Confirmation).unwrap();
            continue;
        }
        let mut played = false;
        for index in 0..4 {
            if game.process_event(GameEvent::Play(PlayTurn::CardSelected(index))).is_ok() {
                played = true;
                break;
            }
        }
        if !played {
            game.process_event(GameEvent::Play(PlayTurn::Go)).unwrap();
        }
        for group in &game.record().play_groups {
            let sum: u8 = group.cards.iter().map(|c| cribbage::deck::return_play_value(*c)).sum();
            assert_eq!(group.total, sum);
            assert!(group.total <= 31);
        }
        turns += 1;
        assert!(turns < 100);
    }
    assert_eq!(game.record().state, GameState::ShowScore);
    let played: usize = game.record().play_groups.iter().map(|g| g.cards.len()).sum();
    assert_eq!(played, 8);

    let before: Vec<u8> = game.record().players.iter().map(|p| p.front_peg_pos).collect();
    let pone = game.process_event(GameEvent::Confirmation);
    assert!(matches!(pone, Ok(Success::ShowScore(_))));
    let dealt = game.process_event(GameEvent::Confirmation);
    assert!(matches!(dealt, Ok(Success::ShowScore(_))));
    let crib = game.process_event(GameEvent::Confirmation);
    assert!(matches!(crib, Ok(Success::CribScore(_))));
    for (index, player) in game.record().players.iter().enumerate() {
        assert!(player.front_peg_pos >= before[index]);
    }
    // The deal passes to the other player and the next hand is dealt from a fresh deck
    assert_eq!(game.record().state, GameState::Deal);
    assert_eq!(game.record().index_dealer, Some((dealer + 1) % 2));
    assert_eq!(game.process_event(GameEvent::Confirmation), Ok(Success::Deal));
    assert_eq!(game.record().deck.len(), 40);
    assert!(game.record().crib.is_empty());
}

#[test]
fn muggins_through_events() {
    let hands: Vec<Vec<Card>> = vec![
        vec![return_card('T', 'S'), return_card('K', 'D')],
        vec![return_card('5', 'S'), return_card('5', 'D')],
        vec![
            return_card('2', 'S'),
            return_card('6', 'S'),
            return_card('9', 'D'),
            return_card('9', 'C'),
        ],
    ];
    let mut game = game_setup(hands, return_card('7', 'H'), GameState::PlayWaitForCard);
    game.settings = Some(settings_for(2, true, true, true, false));

    // The pone plays a five and pegs nothing; nothing was made
    assert_eq!(
        card_played(&mut game, 0),
        Ok(Success::PlayWaitForCard(PlayWaitForCardReturn::ManualScoring))
    );
    assert_eq!(game.process_event(GameEvent::Confirmation), Ok(Success::PlayScore(vec![])));
    assert_eq!(game.state, GameState::PlayMuggins);
    assert_eq!(
        game.process_event(GameEvent::Play(PlayTurn::Go)),
        Err(Error::ExpectedEvent(vec![Event::Confirmation, Event::Muggins]))
    );
    assert_eq!(game.process_event(GameEvent::Confirmation), Ok(Success::Muggins(vec![])));
    assert_eq!(game.state, GameState::PlayWaitForCard);

    // The dealer plays a ten for fifteen and misses it; the pone claims it
    card_played(&mut game, 0).unwrap();
    assert_eq!(
        game.process_event(GameEvent::ManScoreSelection(Some(vec![]))),
        Ok(Success::PlayScore(vec![]))
    );
    assert_eq!(game.state, GameState::PlayMuggins);
    let claim = play(PlayScoreType::Fifteen, 1, 2);
    assert_eq!(
        game.process_event(GameEvent::Muggins(Some(vec![claim.clone()]))),
        Ok(Success::Muggins(vec![claim]))
    );
    assert_eq!(game.players[0].front_peg_pos, 0);
    assert_eq!(game.players[1].front_peg_pos, 2);
    assert_eq!(game.state, GameState::PlayWaitForCard);
    assert_eq!(game.index_active, Some(1));

    // The play is cut short for the show: the pone pegs the pair of fives, which is all that
    // the hand makes
    game.state = GameState::ShowScore;
    let pair = ScoreEvent {
        score_type: ScoreType::Show(ShowScoreType::Pair(vec![
            return_card('5', 'D'),
            return_card('5', 'S'),
        ])),
        player_index: 1,
        point_value: 2,
    };
    assert_eq!(
        game.process_event(GameEvent::ManScoreSelection(Some(vec![pair.clone()]))),
        Ok(Success::ShowScore(vec![pair]))
    );
    assert_eq!(game.state, GameState::ShowMuggins);
    assert_eq!(game.players[1].front_peg_pos, 4);
    assert_eq!(game.players[1].back_peg_pos, 2);
    assert!(game.remaining_score_events.is_empty());
    assert_eq!(game.process_event(GameEvent::Muggins(None)), Ok(Success::Muggins(vec![])));
    assert_eq!(game.state, GameState::ShowScore);
    assert_eq!(game.index_active, Some(0));

    // The hand of the dealer makes nothing
    assert_eq!(game.process_event(GameEvent::Confirmation), Ok(Success::ShowScore(vec![])));
    assert_eq!(game.state, GameState::ShowMuggins);
    assert_eq!(game.process_event(GameEvent::Confirmation), Ok(Success::Muggins(vec![])));
    assert_eq!(game.state, GameState::CribScore);

    // The crib: the pair of nines is pegged, and the pone claims a score that was not missed
    let nines = ScoreEvent {
        score_type: ScoreType::Show(ShowScoreType::Pair(vec![
            return_card('9', 'D'),
            return_card('9', 'C'),
        ])),
        player_index: 0,
        point_value: 2,
    };
    assert_eq!(
        game.process_event(GameEvent::ManScoreSelection(Some(vec![nines.clone()]))),
        Ok(Success::CribScore(vec![nines.clone()]))
    );
    assert_eq!(game.state, GameState::CribMuggins);
    let mut wrong = nines.clone();
    wrong.player_index = 1;
    assert_eq!(
        game.process_event(GameEvent::Muggins(Some(vec![wrong.clone()]))),
        Err(Error::MugginsError(PlayScoreError::OverpeggingIsNotAllowed(wrong)))
    );
    assert_eq!(game.state, GameState::CribMuggins);
    // The dealer has missed three fifteens: 6 + 9 twice, and 2 + 6 + 7; the pone claims them
    let mut claims = game.remaining_score_events.clone();
    assert_eq!(claims.len(), 3);
    for claim in &mut claims {
        assert!(matches!(&claim.score_type, ScoreType::Show(ShowScoreType::Fifteen(_))));
        claim.player_index = 1;
    }
    assert_eq!(
        game.process_event(GameEvent::Muggins(Some(claims.clone()))),
        Ok(Success::Muggins(claims))
    );
    assert_eq!(game.players[1].front_peg_pos, 10);
    assert_eq!(game.players[1].back_peg_pos, 8);
    assert_eq!(game.players[0].front_peg_pos, 2);
    assert_eq!(game.state, GameState::Deal);
    assert_eq!(game.index_dealer, Some(1));
}
