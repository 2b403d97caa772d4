use cribbage::deck::Deck;
use cribbage::game_process_return::{
    Error, ImplError, NibsCheckReturn, NibsError, StarterCutReturn, Success,
};
use cribbage::score::{PlayScoreType, ScoreEvent, ScoreType};
use cribbage::settings::{GameSettings, RuleVariant, VictorDealerOption};
use cribbage::state_logic::cut_starter_and_nibs_check::{process_cut, process_nibs};
use cribbage::util::return_card;
use cribbage::{GameImpl, GameState, PlayGroup};

// Cut should work the same regardless of the RuleVariant
fn set_up_game(is_partner: bool, is_man: bool, is_under: bool, is_mug: bool) -> GameImpl {
    let mut game = GameImpl::new();
    game.is_debug = true;

    let settings = GameSettings {
        variant: RuleVariant::TwoStandard,
        victor_dealer_option: VictorDealerOption::TwoPlayers,
        is_manual_scoring: is_man,
        is_underpegging: is_under,
        is_muggins: is_mug,
        is_overpegging: false,
        is_lowball: false,
    };

    cribbage::state_logic::game_start::game_setup(&mut game, settings).unwrap();

    // This is an invalid config, but this will only be used to test that the partner's score
    // advances with the dealer who scores nibs
    if is_partner {
        game.players[0].partner_index = Some(1);
        game.players[1].partner_index = Some(0);
    }

    game.deck = Deck::new();

    cribbage::state_logic::cut_initial::process_cut(&mut game).unwrap();

    game.deck = Deck::new();

    cribbage::state_logic::deal::process_deal(&mut game).unwrap();

    cribbage::state_logic::sort::process_sort(&mut game).unwrap();

    let discard_selecions: Vec<Vec<u8>> = vec![vec![0, 1], vec![0, 1]];
    cribbage::state_logic::discard::process_discard(&mut game, discard_selecions).unwrap();

    game
}

fn nibs(player_index: u8, point_value: u8) -> ScoreEvent {
    ScoreEvent { score_type: ScoreType::Play(PlayScoreType::Nibs), player_index, point_value }
}

#[test]
fn process_cut_no_nibs() {
    let mut game = set_up_game(false, false, false, false);
    assert_eq!(process_cut(&mut game), Ok(Success::StarterCut(StarterCutReturn::AutoNoNibs)));
    // AH to QH are dealt to the players with the debug deck
    assert_eq!(game.starter_card, Some(return_card('K', 'H')));

    // Cut should end with the index_active set to the pone next to the dealer
    // ((dealer+1)%num_players)
    assert_eq!(game.index_active, Some(1));

    assert_eq!(game.state, GameState::PlayWaitForCard);
}

#[test]
fn process_cut_nibs_no_partner() {
    let mut game = set_up_game(false, false, false, false);
    // Set the deck to contain only the Jack of hearts
    game.deck = Deck::from_vec(vec![return_card('J', 'H')]);

    assert_eq!(process_cut(&mut game), Ok(Success::StarterCut(StarterCutReturn::AutoNibs)));
    assert_eq!(game.starter_card, Some(return_card('J', 'H')));
    assert_eq!(game.players[0].front_peg_pos, 2);
    assert_eq!(game.index_active, Some(1));
    assert_eq!(game.state, GameState::PlayWaitForCard);
}

#[test]
fn process_cut_nibs_and_win_no_partner() {
    let mut game = set_up_game(false, false, false, false);
    game.deck = Deck::from_vec(vec![return_card('J', 'H')]);
    game.players[0].change_score(120);

    assert_eq!(process_cut(&mut game), Ok(Success::StarterCut(StarterCutReturn::AutoNibs)));
    assert_eq!(game.starter_card, Some(return_card('J', 'H')));
    assert_eq!(game.players[0].front_peg_pos, 122);
    assert_eq!(game.index_active, Some(1));
    assert_eq!(game.state, GameState::Win);
}

#[test]
fn process_cut_nibs_with_partner() {
    let mut game = set_up_game(true, false, false, false);
    game.deck = Deck::from_vec(vec![return_card('J', 'H')]);

    assert_eq!(process_cut(&mut game), Ok(Success::StarterCut(StarterCutReturn::AutoNibs)));
    assert_eq!(game.starter_card, Some(return_card('J', 'H')));
    assert_eq!(game.players[0].front_peg_pos, 2);
    assert_eq!(game.players[1].front_peg_pos, 2);
    assert_eq!(game.index_active, Some(1));
    assert_eq!(game.state, GameState::PlayWaitForCard);
}

#[test]
fn process_cut_nibs_and_win_with_partner() {
    let mut game = set_up_game(true, false, false, false);
    game.deck = Deck::from_vec(vec![return_card('J', 'H')]);
    game.players[0].change_score(120);
    game.players[1].change_score(120);
    assert_eq!(process_cut(&mut game), Ok(Success::StarterCut(StarterCutReturn::AutoNibs)));
    assert_eq!(game.starter_card, Some(return_card('J', 'H')));
    assert_eq!(game.players[0].front_peg_pos, 122);
    assert_eq!(game.players[1].front_peg_pos, 122);
    assert_eq!(game.index_active, Some(1));
    assert_eq!(game.state, GameState::Win);
}

#[test]
fn process_cut_with_manual_scoring() {
    let mut game = set_up_game(false, true, false, false);
    assert_eq!(process_cut(&mut game), Ok(Success::StarterCut(StarterCutReturn::ManualScoring)));
    assert_eq!(game.starter_card, Some(return_card('K', 'H')));
    assert_eq!(game.index_active, Some(1));
    assert_eq!(game.state, GameState::NibsCheck);
}

#[test]
fn process_nibs_no_nibs() {
    let mut game = set_up_game(false, true, false, false);
    process_cut(&mut game).unwrap();
    assert_eq!(process_nibs(&mut game, None), Ok(Success::NibsCheck(NibsCheckReturn::NoNibs)));
    assert_eq!(game.state, GameState::PlayWaitForCard);
}

#[test]
fn process_nibs_nibs_but_not_claimed_underpegging_disabled() {
    let mut game = set_up_game(false, true, false, false);
    process_cut(&mut game).unwrap();
    game.starter_card = Some(return_card('J', 'H'));
    assert_eq!(
        process_nibs(&mut game, None),
        Err(Error::NibsCallError(NibsError::NoNibsCallWhenUnderscoringIsDisabled))
    );
    assert_eq!(game.state, GameState::NibsCheck);
}

#[test]
fn process_nibs_nibs_but_not_claimed_underpegging_enabled() {
    let mut game = set_up_game(false, true, true, false);
    process_cut(&mut game).unwrap();
    game.starter_card = Some(return_card('J', 'H'));
    assert_eq!(process_nibs(&mut game, None), Ok(Success::NibsCheck(NibsCheckReturn::NoNibs)));
    assert_eq!(game.players[0].front_peg_pos, 0);
    assert_eq!(game.state, GameState::PlayWaitForCard);
}

#[test]
fn process_nibs_nibs_no_partner() {
    let mut game = set_up_game(false, true, false, false);
    process_cut(&mut game).unwrap();
    game.starter_card = Some(return_card('J', 'H'));

    let score_event = nibs(0, 2);

    assert_eq!(
        process_nibs(&mut game, Some(score_event)),
        Ok(Success::NibsCheck(NibsCheckReturn::Nibs))
    );
    assert_eq!(game.players[0].front_peg_pos, 2);
    assert_eq!(game.state, GameState::PlayWaitForCard);
}

#[test]
fn process_nibs_nibs_and_win_no_partner() {
    let mut game = set_up_game(false, true, false, false);
    process_cut(&mut game).unwrap();
    game.starter_card = Some(return_card('J', 'H'));
    game.players[0].change_score(119);

    let score_event = nibs(0, 2);

    assert_eq!(
        process_nibs(&mut game, Some(score_event)),
        Ok(Success::NibsCheck(NibsCheckReturn::Nibs))
    );
    assert_eq!(game.players[0].front_peg_pos, 121);
    assert_eq!(game.state, GameState::Win);
}

#[test]
fn process_nibs_nibs_invalid_call() {
    let mut game = set_up_game(false, true, false, false);
    process_cut(&mut game).unwrap();
    game.starter_card = Some(return_card('J', 'H'));

    let score_event = nibs(0, 3);

    assert_eq!(
        process_nibs(&mut game, Some(score_event)),
        Err(Error::NibsCallError(NibsError::InvalidScoreEventToNibsCheck))
    );
    assert_eq!(game.state, GameState::NibsCheck);
}

#[test]
fn process_nibs_nibs_with_partner() {
    let mut game = set_up_game(true, true, false, false);
    process_cut(&mut game).unwrap();
    game.starter_card = Some(return_card('J', 'H'));

    let score_event = nibs(0, 2);

    assert_eq!(
        process_nibs(&mut game, Some(score_event)),
        Ok(Success::NibsCheck(NibsCheckReturn::Nibs))
    );
    assert_eq!(game.players[0].front_peg_pos, 2);
    assert_eq!(game.players[1].front_peg_pos, 2);
    assert_eq!(game.state, GameState::PlayWaitForCard);
}

#[test]
fn process_nibs_nibs_and_win_with_partner() {
    let mut game = set_up_game(true, true, false, false);
    process_cut(&mut game).unwrap();
    game.starter_card = Some(return_card('J', 'H'));
    game.players[0].change_score(119);
    game.players[1].change_score(119);

    let score_event = nibs(0, 2);

    assert_eq!(
        process_nibs(&mut game, Some(score_event)),
        Ok(Success::NibsCheck(NibsCheckReturn::Nibs))
    );
    assert_eq!(game.players[0].front_peg_pos, 121);
    assert_eq!(game.players[1].front_peg_pos, 121);
    assert_eq!(game.state, GameState::Win);
}

#[test]
fn starter_cut_makes_the_game_ready_for_the_play() {
    let mut game = set_up_game(false, false, false, false);
    game.play_groups.push(PlayGroup { total: 12, cards: vec![return_card('Q', 'S')] });
    game.last_player_index = Some(0);
    game.last_play_was_go = true;
    game.remaining_score_events.push(nibs(0, 2));
    let cards_before = game.deck.len();
    assert_eq!(process_cut(&mut game), Ok(Success::StarterCut(StarterCutReturn::AutoNoNibs)));
    assert_eq!(game.deck.len(), cards_before - 1);
    assert_eq!(game.play_groups, vec![PlayGroup { total: 0, cards: vec![] }]);
    assert_eq!(game.last_player_index, None);
    assert!(!game.last_play_was_go);
    assert!(game.remaining_score_events.is_empty());
    assert_eq!(game.players[0].back_peg_pos, 0);
}

#[test]
fn starter_cut_and_nibs_are_refused_on_a_broken_record() {
    let mut game = GameImpl::new();
    assert_eq!(process_cut(&mut game), Err(Error::ImplementationError(ImplError::NoConfig)));
    assert_eq!(
        process_nibs(&mut game, None),
        Err(Error::ImplementationError(ImplError::NibsCheckWhenNoStarterCard))
    );
    game.starter_card = Some(return_card('J', 'H'));
    assert_eq!(process_nibs(&mut game, None), Err(Error::ImplementationError(ImplError::NoConfig)));

    // An empty deck
    let mut game = set_up_game(false, false, false, false);
    game.deck = Deck::from_vec(vec![]);
    assert_eq!(
        process_cut(&mut game),
        Err(Error::ImplementationError(ImplError::InconsistentGameRecord))
    );
    assert_eq!(game.starter_card, None);
    assert_eq!(game.state, GameState::CutStarter);

    // No dealer
    let mut game = set_up_game(false, false, false, false);
    game.index_dealer = None;
    assert_eq!(
        process_cut(&mut game),
        Err(Error::ImplementationError(ImplError::InconsistentGameRecord))
    );

    // A score that cannot take the points of nibs
    let mut game = set_up_game(false, false, false, false);
    game.deck = Deck::from_vec(vec![return_card('J', 'H')]);
    game.players[0].front_peg_pos = 254;
    assert_eq!(
        process_cut(&mut game),
        Err(Error::ImplementationError(ImplError::InconsistentGameRecord))
    );
    assert_eq!(game.players[0].front_peg_pos, 254);
    assert_eq!(game.deck.len(), 1);
}

#[test]
fn nibs_call_without_a_jack_is_refused() {
    let mut game = set_up_game(false, true, false, false);
    process_cut(&mut game).unwrap();
    assert_eq!(
        process_nibs(&mut game, Some(nibs(0, 2))),
        Err(Error::NibsCallError(NibsError::NibsCallWhenNoCutJack))
    );
    assert_eq!(game.state, GameState::NibsCheck);
    assert_eq!(game.players[0].front_peg_pos, 0);
    // A call for the wrong player, and a call of another kind
    game.starter_card = Some(return_card('J', 'H'));
    assert_eq!(
        process_nibs(&mut game, Some(nibs(1, 2))),
        Err(Error::NibsCallError(NibsError::InvalidScoreEventToNibsCheck))
    );
    assert_eq!(
        process_nibs(
            &mut game,
            Some(ScoreEvent {
                score_type: ScoreType::Play(PlayScoreType::Pair),
                player_index: 0,
                point_value: 2
            })
        ),
        Err(Error::NibsCallError(NibsError::InvalidScoreEventToNibsCheck))
    );
}
