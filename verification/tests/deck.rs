use cribbage::deck::{Card, CardSuit, CardValue, Deck};
use cribbage::util::return_card;

#[test]
fn return_play_value_test_values() {
    let expected: Vec<(char, u8)> = vec![
        ('A', 1),
        ('2', 2),
        ('3', 3),
        ('4', 4),
        ('5', 5),
        ('6', 6),
        ('7', 7),
        ('8', 8),
        ('9', 9),
        ('T', 10),
        ('J', 10),
        ('Q', 10),
        ('K', 10),
    ];
    for (name, value) in expected {
        for suit in vec!['H', 'D', 'C', 'S'] {
            assert_eq!(cribbage::deck::return_play_value(return_card(name, suit)), value);
        }
    }
}

#[test]
fn return_play_value() {
    assert_eq!(cribbage::deck::return_play_value(return_card('A', 'H')), 1);
    assert_eq!(cribbage::deck::return_play_value(return_card('2', 'H')), 2);
    assert_eq!(cribbage::deck::return_play_value(return_card('3', 'H')), 3);
    assert_eq!(cribbage::deck::return_play_value(return_card('4', 'H')), 4);
    assert_eq!(cribbage::deck::return_play_value(return_card('5', 'H')), 5);
    assert_eq!(cribbage::deck::return_play_value(return_card('6', 'H')), 6);
    assert_eq!(cribbage::deck::return_play_value(return_card('7', 'H')), 7);
    assert_eq!(cribbage::deck::return_play_value(return_card('8', 'H')), 8);
    assert_eq!(cribbage::deck::return_play_value(return_card('9', 'H')), 9);
    assert_eq!(cribbage::deck::return_play_value(return_card('T', 'H')), 10);
    assert_eq!(cribbage::deck::return_play_value(return_card('J', 'H')), 10);
    assert_eq!(cribbage::deck::return_play_value(return_card('Q', 'H')), 10);
    assert_eq!(cribbage::deck::return_play_value(return_card('K', 'H')), 10);
}

#[test]
fn return_value() {
    assert_eq!(cribbage::deck::return_value(return_card('A', 'H')), 1);
    assert_eq!(cribbage::deck::return_value(return_card('2', 'H')), 2);
    assert_eq!(cribbage::deck::return_value(return_card('3', 'H')), 3);
    assert_eq!(cribbage::deck::return_value(return_card('4', 'H')), 4);
    assert_eq!(cribbage::deck::return_value(return_card('5', 'H')), 5);
    assert_eq!(cribbage::deck::return_value(return_card('6', 'H')), 6);
    assert_eq!(cribbage::deck::return_value(return_card('7', 'H')), 7);
    assert_eq!(cribbage::deck::return_value(return_card('8', 'H')), 8);
    assert_eq!(cribbage::deck::return_value(return_card('9', 'H')), 9);
    assert_eq!(cribbage::deck::return_value(return_card('T', 'H')), 10);
    assert_eq!(cribbage::deck::return_value(return_card('J', 'H')), 11);
    assert_eq!(cribbage::deck::return_value(return_card('Q', 'H')), 12);
    assert_eq!(cribbage::deck::return_value(return_card('K', 'H')), 13);
}

#[test]
fn reset_deck() {
    let mut deck = Deck::new();
    deck.reset_deck();
    let first_deck = deck.clone();
    deck.reset_deck();
    assert!(deck != first_deck);
}

#[test]
fn deal() {
    let mut deck = Deck::new();
    assert_eq!(deck.deal(), return_card('A', 'H'));
    for _ in 0..51 {
        let _ = deck.deal();
    }
}

#[test]
fn new_deck_is_dealt_in_fixed_order() {
    let mut deck = Deck::new();
    assert_eq!(deck.len(), 52);
    let suits = vec![CardSuit::Hearts, CardSuit::Diamonds, CardSuit::Clubs, CardSuit::Spades];
    let values = vec![
        CardValue::Ace,
        CardValue::Two,
        CardValue::Three,
        CardValue::Four,
        CardValue::Five,
        CardValue::Six,
        CardValue::Seven,
        CardValue::Eight,
        CardValue::Nine,
        CardValue::Ten,
        CardValue::Jack,
        CardValue::Queen,
        CardValue::King,
    ];
    for suit in &suits {
        for value in &values {
            assert_eq!(deck.next_card(), Some(Card { value: *value, suit: *suit }));
            assert_eq!(deck.deal(), Card { value: *value, suit: *suit });
        }
    }
    assert_eq!(deck.len(), 0);
    assert_eq!(deck.next_card(), None);
}

#[test]
fn reset_deck_holds_every_card_once() {
    let mut deck = Deck::new();
    for _ in 0..10 {
        let _ = deck.deal();
    }
    deck.reset_deck();
    assert_eq!(deck.len(), 52);
    let mut drawn: Vec<Card> = Vec::new();
    for _ in 0..52 {
        drawn.push(deck.deal());
    }
    assert_eq!(deck.len(), 0);
    let mut full = Deck::new();
    for _ in 0..52 {
        let card = full.deal();
        assert_eq!(drawn.iter().filter(|c| **c == card).count(), 1);
    }
}

#[test]
fn shuffle_changes_the_order() {
    // A shuffle that left the deck as it was twenty times in a row would not be one
    let mut changed = false;
    for _ in 0..20 {
        let mut deck = Deck::new();
        deck.reset_deck();
        if deck.cards() != Deck::new().cards() {
            changed = true;
        }
        let mut sorted = deck.cards();
        sorted.sort();
        let mut full = Deck::new().cards();
        full.sort();
        assert_eq!(sorted, full);
    }
    assert!(changed);
}

#[test]
fn from_vec_draws_the_last_card_first() {
    let mut deck = Deck::from_vec(vec![return_card('2', 'C'), return_card('J', 'H')]);
    assert_eq!(deck.cards(), vec![return_card('2', 'C'), return_card('J', 'H')]);
    assert_eq!(deck.deal(), return_card('J', 'H'));
    assert_eq!(deck.deal(), return_card('2', 'C'));
    assert_eq!(deck.len(), 0);
}

#[test]
fn card_order_is_rank_then_suit() {
    let mut cards = vec![
        return_card('K', 'H'),
        return_card('A', 'S'),
        return_card('A', 'H'),
        return_card('5', 'C'),
        return_card('5', 'D'),
    ];
    let mut by_std = cards.clone();
    by_std.sort();
    cribbage::deck::sort_cards(&mut cards);
    assert_eq!(
        cards,
        vec![
            return_card('A', 'H'),
            return_card('A', 'S'),
            return_card('5', 'D'),
            return_card('5', 'C'),
            return_card('K', 'H'),
        ]
    );
    assert_eq!(cards, by_std);
    assert!(cribbage::deck::card_precedes(return_card('A', 'S'), return_card('2', 'H')));
    assert!(cribbage::deck::card_precedes(return_card('2', 'H'), return_card('2', 'H')));
    assert!(!cribbage::deck::card_precedes(return_card('2', 'D'), return_card('2', 'H')));
    assert_eq!(cribbage::deck::return_suit_value(CardSuit::Clubs), 2);
    assert_eq!(cribbage::deck::return_value(return_card('1', 'D')), 1);
}

#[test]
#[should_panic(expected = "Dealt more than 52 cards")]
fn deal_past_52() {
    let mut deck = Deck::new();
    for _ in 0..53 {
        let _ = deck.deal();
    }
}
