//! Cards, their two numeric readings, their order, and the deck they are drawn from.

use rand::seq::SliceRandom;
use rand::thread_rng;
use vstd::prelude::*;

verus! {

/// The four suits, in ascending order.
#[derive(Copy, Clone, Debug, PartialEq, Eq, PartialOrd, Ord, Structural)]
pub enum CardSuit {
    Hearts,
    Diamonds,
    Clubs,
    Spades,
}

/// The thirteen ranks, in ascending order.
#[derive(Copy, Clone, Debug, PartialEq, Eq, PartialOrd, Ord, Structural)]
pub enum CardValue {
    Ace,
    Two,
    Three,
    Four,
    Five,
    Six,
    Seven,
    Eight,
    Nine,
    Ten,
    Jack,
    Queen,
    King,
}

/// A playing card. Cards are ordered by rank first and by suit second.
#[derive(Debug, Clone, Copy, PartialEq, Eq, PartialOrd, Ord, Structural)]
pub struct Card {
    pub value: CardValue,
    pub suit: CardSuit,
}

/// The ordinal of a rank: 1 for the ace up to 13 for the king.
pub open spec fn value_ordinal(value: CardValue) -> int {
    match value {
        CardValue::Ace => 1,
        CardValue::Two => 2,
        CardValue::Three => 3,
        CardValue::Four => 4,
        CardValue::Five => 5,
        CardValue::Six => 6,
        CardValue::Seven => 7,
        CardValue::Eight => 8,
        CardValue::Nine => 9,
        CardValue::Ten => 10,
        CardValue::Jack => 11,
        CardValue::Queen => 12,
        CardValue::King => 13,
    }
}

/// The position of a suit in the suit order, from 0.
pub open spec fn suit_ordinal(suit: CardSuit) -> int {
    match suit {
        CardSuit::Hearts => 0,
        CardSuit::Diamonds => 1,
        CardSuit::Clubs => 2,
        CardSuit::Spades => 3,
    }
}

/// The ordinal of a card, used for adjacency in runs and for the initial cut.
pub open spec fn ordinal(card: Card) -> int {
    value_ordinal(card.value)
}

/// The counting value of a card: its ordinal, capped at ten.
pub open spec fn peg_value(card: Card) -> int {
    if ordinal(card) < 10 {
        ordinal(card)
    } else {
        10
    }
}

/// The order on cards: by rank, then by suit.
pub open spec fn card_le(a: Card, b: Card) -> bool {
    ordinal(a) < ordinal(b) || (ordinal(a) == ordinal(b) && suit_ordinal(a.suit) <= suit_ordinal(
        b.suit,
    ))
}

/// `card_le` as a relation value, for the sequence library.
pub open spec fn card_order() -> spec_fn(Card, Card) -> bool {
    |a: Card, b: Card| card_le(a, b)
}

/// The rank with the given ordinal.
pub open spec fn value_with_ordinal(n: int) -> CardValue {
    if n <= 1 {
        CardValue::Ace
    } else if n == 2 {
        CardValue::Two
    } else if n == 3 {
        CardValue::Three
    } else if n == 4 {
        CardValue::Four
    } else if n == 5 {
        CardValue::Five
    } else if n == 6 {
        CardValue::Six
    } else if n == 7 {
        CardValue::Seven
    } else if n == 8 {
        CardValue::Eight
    } else if n == 9 {
        CardValue::Nine
    } else if n == 10 {
        CardValue::Ten
    } else if n == 11 {
        CardValue::Jack
    } else if n == 12 {
        CardValue::Queen
    } else {
        CardValue::King
    }
}

/// The suit at the given position of the suit order.
pub open spec fn suit_with_ordinal(n: int) -> CardSuit {
    if n <= 0 {
        CardSuit::Hearts
    } else if n == 1 {
        CardSuit::Diamonds
    } else if n == 2 {
        CardSuit::Clubs
    } else {
        CardSuit::Spades
    }
}

/// The card at position `i` of a freshly populated deck. The deck is drawn from its end, so the
/// ace of hearts, at position 51, comes out first and the king of spades, at position 0, last.
pub open spec fn full_deck_card(i: int) -> Card {
    Card { value: value_with_ordinal(13 - i % 13), suit: suit_with_ordinal(3 - i / 13) }
}

/// The 52 cards of a freshly populated deck, in order.
pub open spec fn full_deck() -> Seq<Card> {
    Seq::new(52, |i: int| full_deck_card(i))
}

/// The position of a card in a freshly populated deck.
pub open spec fn full_deck_position(card: Card) -> int {
    (3 - suit_ordinal(card.suit)) * 13 + (13 - ordinal(card))
}

/// The first `n` cards that a deck holding `cards` hands out, in the order they come: each
/// is the card that `Deck::deal` takes from the end of what the draws before it left.
pub open spec fn draws(cards: Seq<Card>, n: nat) -> Seq<Card>
    recommends
        n <= cards.len(),
    decreases n,
{
    if n == 0 || cards.len() == 0 {
        Seq::empty()
    } else {
        seq![cards.last()] + draws(cards.drop_last(), (n - 1) as nat)
    }
}

/// The ordinal of a card: 1 for an ace up to 13 for a king.
pub fn return_value(card: Card) -> (r: u8)
    ensures
        r as int == ordinal(card),
        1 <= r <= 13,
{
    match card.value {
        CardValue::Ace => 1,
        CardValue::Two => 2,
        CardValue::Three => 3,
        CardValue::Four => 4,
        CardValue::Five => 5,
        CardValue::Six => 6,
        CardValue::Seven => 7,
        CardValue::Eight => 8,
        CardValue::Nine => 9,
        CardValue::Ten => 10,
        CardValue::Jack => 11,
        CardValue::Queen => 12,
        CardValue::King => 13,
    }
}

/// The counting value of a card: its ordinal, with ten for the jack, queen and king.
pub fn return_play_value(card: Card) -> (r: u8)
    ensures
        r as int == peg_value(card),
        1 <= r <= 10,
{
    match card.value {
        CardValue::Ace => 1,
        CardValue::Two => 2,
        CardValue::Three => 3,
        CardValue::Four => 4,
        CardValue::Five => 5,
        CardValue::Six => 6,
        CardValue::Seven => 7,
        CardValue::Eight => 8,
        CardValue::Nine => 9,
        CardValue::Ten => 10,
        CardValue::Jack => 10,
        CardValue::Queen => 10,
        CardValue::King => 10,
    }
}

/// The position of a suit in the suit order.
pub fn return_suit_value(suit: CardSuit) -> (r: u8)
    ensures
        r as int == suit_ordinal(suit),
        r <= 3,
{
    match suit {
        CardSuit::Hearts => 0,
        CardSuit::Diamonds => 1,
        CardSuit::Clubs => 2,
        CardSuit::Spades => 3,
    }
}

/// Whether `a` comes before `b` in the card order, or is the same card.
pub fn card_precedes(a: Card, b: Card) -> (r: bool)
    ensures
        r == card_le(a, b),
{
    let rank_a: u8 = return_value(a);
    let rank_b: u8 = return_value(b);
    rank_a < rank_b || (rank_a == rank_b && return_suit_value(a.suit) <= return_suit_value(b.suit))
}

/// The ordinal of a card lies between 1 and 13.
pub proof fn lemma_ordinal_range(card: Card)
    ensures
        1 <= ordinal(card) <= 13,
{
}

/// The card order is a total order, and two cards that precede each other are the same card.
pub proof fn lemma_card_order_total()
    ensures
        vstd::relations::total_ordering(card_order()),
{
    let r = card_order();
    assert(vstd::relations::reflexive(r));
    assert(vstd::relations::antisymmetric(r)) by {
        assert forall|x: Card, y: Card| #[trigger] r(x, y) && #[trigger] r(y, x) implies x == y by {
            lemma_card_determined(x, y);
        }
    }
    assert(vstd::relations::transitive(r));
    assert(vstd::relations::strongly_connected(r));
}

/// Two cards with the same ordinal and suit position are the same card.
pub proof fn lemma_card_determined(x: Card, y: Card)
    requires
        ordinal(x) == ordinal(y),
        suit_ordinal(x.suit) == suit_ordinal(y.suit),
    ensures
        x == y,
{
}

/// Sorts the cards into the card order.
pub fn sort_cards(cards: &mut Vec<Card>)
    ensures
        final(cards)@ == old(cards)@.sort_by(card_order()),
        final(cards)@.len() == old(cards)@.len(),
        final(cards)@.to_multiset() == old(cards)@.to_multiset(),
        vstd::relations::sorted_by(final(cards)@, card_order()),
{
    let ghost leq = card_order();
    let mut sorted: Vec<Card> = Vec::new();
    let mut i: usize = 0;
    assert(cards@.subrange(0, 0) =~= sorted@);
    while i < cards.len()
        invariant
            i <= cards.len(),
            *cards == *old(cards),
            leq == card_order(),
            vstd::relations::sorted_by(sorted@, leq),
            sorted@.to_multiset() == cards@.subrange(0, i as int).to_multiset(),
            sorted@.len() == i,
        decreases cards.len() - i,
    {
        let card: Card = cards[i];
        let mut at: usize = 0;
        while at < sorted.len() && card_precedes(sorted[at], card)
            invariant
                at <= sorted.len(),
                leq == card_order(),
                forall|k: int| 0 <= k < at ==> leq(#[trigger] sorted@[k], card),
            decreases sorted.len() - at,
        {
            at += 1;
        }
        proof {
            lemma_card_order_total();
            let before = sorted@;
            let after = before.insert(at as int, card);
            assert(vstd::relations::sorted_by(after, leq)) by {
                assert forall|a: int, b: int| 0 <= a < b < after.len() implies leq(
                    after[a],
                    after[b],
                ) by {
                    if b == at as int {
                        assert(leq(before[a], card));
                    } else if a == at as int {
                        assert(!leq(before[at as int], card));
                        assert(leq(card, before[at as int]));
                        if b - 1 > at as int {
                            assert(leq(before[at as int], before[b - 1]));
                        }
                        assert(leq(card, before[b - 1]));
                    } else {
                        let a0 = if a < at as int { a } else { a - 1 };
                        let b0 = if b < at as int { b } else { b - 1 };
                        assert(leq(before[a0], before[b0]));
                    }
                }
            }
            vstd::seq_lib::to_multiset_insert(before, at as int, card);
            let prefix = cards@.subrange(0, i as int);
            assert(cards@.subrange(0, i as int + 1) =~= prefix.push(card));
            vstd::seq_lib::to_multiset_build(prefix, card);
        }
        sorted.insert(at, card);
        i += 1;
    }
    proof {
        lemma_card_order_total();
        assert(cards@.subrange(0, i as int) =~= cards@);
        old(cards)@.lemma_sort_by_ensures(leq);
        vstd::seq_lib::lemma_sorted_unique(sorted@, old(cards)@.sort_by(leq), leq);
        sorted@.to_multiset_ensures();
        old(cards)@.to_multiset_ensures();
    }
    *cards = sorted;
}

/// A deck of cards. Cards are drawn from the end of the sequence it holds.
#[derive(Debug, Clone, PartialEq)]
pub struct Deck {
    card_vector: Vec<Card>,
}

impl View for Deck {
    type V = Seq<Card>;

    closed spec fn view(&self) -> Seq<Card> {
        self.card_vector@
    }
}

/// `rand::rngs::ThreadRng`, the random number generator of a thread. Nothing is known of what
/// a value of it holds.
#[verifier::external_type_specification]
#[verifier::external_body]
pub struct ExThreadRng(rand::rngs::ThreadRng);

/// `rand::thread_rng` hands out the generator of the current thread, seeded by the system.
/// Nothing is claimed about the generator.
pub assume_specification[ rand::thread_rng ]() -> (rng: rand::rngs::ThreadRng);

/// Permutes the cards with `rand::seq::SliceRandom::shuffle`. The shuffle only swaps elements
/// of the slice, at positions within it, so the cards after the call are the cards before it
/// in some order; nothing is claimed about which order.
#[verifier::external_body]
fn shuffle_cards(cards: &mut Vec<Card>, rng: &mut rand::rngs::ThreadRng)
    ensures
        final(cards)@.to_multiset() == old(cards)@.to_multiset(),
        final(cards)@.len() == old(cards)@.len(),
{
    cards.shuffle(rng);
}

impl Deck {
    /// A full deck in its fixed initial order.
    pub fn new() -> (deck: Deck)
        ensures
            deck@ == full_deck(),
    {
        let mut deck = Deck { card_vector: Vec::new() };
        deck.populate();
        deck
    }

    /// A deck that holds exactly the given cards; the last one is drawn first.
    pub fn from_vec(cards: Vec<Card>) -> (deck: Deck)
        ensures
            deck@ == cards@,
    {
        Deck { card_vector: cards }
    }

    /// The number of cards left in the deck.
    pub fn len(&self) -> (n: usize)
        ensures
            n == self@.len(),
    {
        self.card_vector.len()
    }

    /// The card that is drawn next, if the deck holds any.
    pub fn next_card(&self) -> (card: Option<Card>)
        ensures
            card == (if self@.len() > 0 {
                Some(self@.last())
            } else {
                None
            }),
    {
        if self.card_vector.len() > 0 {
            Some(self.card_vector[self.card_vector.len() - 1])
        } else {
            None
        }
    }

    /// The cards left in the deck; the last one is drawn first.
    pub fn cards(&self) -> (cards: Vec<Card>)
        ensures
            cards@ == self@,
    {
        self.card_vector.clone()
    }

    /// Empties the deck and fills it with the 52 cards in their fixed order.
    fn populate(&mut self)
        ensures
            final(self)@ == full_deck(),
    {
        self.card_vector.clear();
        let mut suit_loop: u8 = 4;
        while suit_loop > 0
            invariant
                suit_loop <= 4,
                self.card_vector@ == full_deck().subrange(0, (4 - suit_loop) * 13),
            decreases suit_loop,
        {
            suit_loop -= 1;
            let active_suit = if suit_loop == 0 {
                CardSuit::Hearts
            } else if suit_loop == 1 {
                CardSuit::Diamonds
            } else if suit_loop == 2 {
                CardSuit::Clubs
            } else {
                CardSuit::Spades
            };
            let mut value_loop: u8 = 13;
            while value_loop > 0
                invariant
                    value_loop <= 13,
                    suit_loop < 4,
                    active_suit == suit_with_ordinal(suit_loop as int),
                    self.card_vector@ == full_deck().subrange(
                        0,
                        (3 - suit_loop) * 13 + (13 - value_loop),
                    ),
                decreases value_loop,
            {
                value_loop -= 1;
                let active_value = match value_loop {
                    0 => CardValue::Ace,
                    1 => CardValue::Two,
                    2 => CardValue::Three,
                    3 => CardValue::Four,
                    4 => CardValue::Five,
                    5 => CardValue::Six,
                    6 => CardValue::Seven,
                    7 => CardValue::Eight,
                    8 => CardValue::Nine,
                    9 => CardValue::Ten,
                    10 => CardValue::Jack,
                    11 => CardValue::Queen,
                    _ => CardValue::King,
                };
                let ghost at = (3 - suit_loop) * 13 + (12 - value_loop);
                assert(at % 13 == 12 - value_loop && at / 13 == 3 - suit_loop);
                assert(full_deck()[at] == Card { suit: active_suit, value: active_value });
                self.card_vector.push(Card { suit: active_suit, value: active_value });
                assert(self.card_vector@ =~= full_deck().subrange(0, at + 1));
            }
        }
        assert(self.card_vector@ =~= full_deck());
    }

    /// Puts the cards of the deck into a random order.
    fn shuffle(&mut self)
        ensures
            final(self)@.to_multiset() == old(self)@.to_multiset(),
            final(self)@.len() == old(self)@.len(),
    {
        let mut rng = thread_rng();
        shuffle_cards(&mut self.card_vector, &mut rng);
    }

    /// Resets the deck to a full and shuffled state: afterwards it holds each of the 52 cards
    /// exactly once, in an order that is not determined.
    pub fn reset_deck(&mut self)
        ensures
            final(self)@.to_multiset() == full_deck().to_multiset(),
            final(self)@.len() == 52,
    {
        self.populate();
        self.shuffle();
    }

    /// Removes the card at the end of the deck and returns it. The deck must not be empty.
    pub fn deal(&mut self) -> (card: Card)
        requires
            old(self)@.len() > 0,
        ensures
            card == old(self)@.last(),
            final(self)@ == old(self)@.drop_last(),
    {
        let card = self.card_vector.pop();
        card.expect("Dealt more than 52 cards")
    }
}

/// Every card sits at exactly one position of a freshly populated deck.
pub proof fn lemma_full_deck_positions(card: Card)
    ensures
        0 <= full_deck_position(card) < 52,
        full_deck()[full_deck_position(card)] == card,
        forall|i: int| 0 <= i < 52 && full_deck()[i] == card ==> i == full_deck_position(card),
{
    let p = full_deck_position(card);
    assert(p % 13 == 13 - ordinal(card) && p / 13 == 3 - suit_ordinal(card.suit));
    assert forall|i: int| 0 <= i < 52 && full_deck()[i] == card implies i == p by {
        assert(full_deck()[i] == full_deck_card(i));
        assert(13 - i % 13 == ordinal(card));
        assert(3 - i / 13 == suit_ordinal(card.suit));
    }
}

/// A freshly populated deck holds every card exactly once.
pub proof fn lemma_full_deck_holds_each_card_once(card: Card)
    ensures
        full_deck().to_multiset().count(card) == 1,
        full_deck().len() == 52,
{
    let deck = full_deck();
    assert(deck.no_duplicates()) by {
        assert forall|i: int, j: int| 0 <= i < deck.len() && 0 <= j < deck.len() && i != j implies deck[i]
            != deck[j] by {
            lemma_full_deck_positions(deck[i]);
        }
    }
    lemma_full_deck_positions(card);
    assert(deck.contains(card));
    deck.to_multiset_ensures();
    deck.lemma_multiset_has_no_duplicates();
}

/// After a reset, the next 52 draws hand out every card exactly once: whatever order the
/// shuffle left the deck in, the cards drawn are the 52 cards of a full deck, each one time.
pub proof fn lemma_draws_after_reset(cards: Seq<Card>, card: Card)
    requires
        cards.len() == 52,
        cards.to_multiset() == full_deck().to_multiset(),
    ensures
        draws(cards, 52).len() == 52,
        draws(cards, 52).to_multiset() == full_deck().to_multiset(),
        draws(cards, 52).to_multiset().count(card) == 1,
{
    lemma_draws_all(cards);
    lemma_full_deck_holds_each_card_once(card);
}

/// The first draw is the card that `Deck::deal` returns, and the draws after it are the draws
/// from the deck that `Deck::deal` leaves.
pub proof fn lemma_first_draw_is_deal(cards: Seq<Card>, n: nat)
    requires
        cards.len() > 0,
    ensures
        draws(cards, n + 1) == seq![cards.last()] + draws(cards.drop_last(), n),
{
    assert((n + 1 - 1) as nat == n);
}

/// Drawing a whole deck hands out exactly the cards that it held.
pub proof fn lemma_draws_all(cards: Seq<Card>)
    ensures
        draws(cards, cards.len()).len() == cards.len(),
        draws(cards, cards.len()).to_multiset() == cards.to_multiset(),
    decreases cards.len(),
{
    if cards.len() == 0 {
        assert(draws(cards, 0) =~= Seq::<Card>::empty());
        assert(cards =~= Seq::<Card>::empty());
    } else {
        let rest = cards.drop_last();
        lemma_draws_all(rest);
        let drawn = draws(rest, rest.len());
        assert(draws(cards, cards.len()) == seq![cards.last()] + drawn);
        vstd::seq_lib::lemma_multiset_commutative(seq![cards.last()], drawn);
        assert(cards =~= rest.push(cards.last()));
        assert(seq![cards.last()] =~= Seq::<Card>::empty().push(cards.last()));
        vstd::seq_lib::to_multiset_build(Seq::<Card>::empty(), cards.last());
        vstd::seq_lib::to_multiset_build(rest, cards.last());
        Seq::<Card>::empty().to_multiset_ensures();
        assert(draws(cards, cards.len()).to_multiset() =~= cards.to_multiset());
    }
}

} // verus!
