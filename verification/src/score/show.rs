//! Scoring a hand when it is shown: every selection of cards from the hand and the starter is
//! looked at, scores that a larger score of the same cards already covers are dropped, and the
//! scores for his nobs and for a flush are added.

use crate::deck::{
    card_order, lemma_card_order_total, return_play_value, sort_cards, Card, CardValue,
};
use crate::peg_total;
use crate::score::play::{ends_in_run, is_run};
use crate::score::{
    copy_cards, copy_event, event_order, lemma_cards_ordering, order_of_card_lists, show_event,
    sort_events, ScoreEvent, ScoreEventView, ScoreType, ScoreTypeView, ShowKind, ShowScoreType,
};
use vstd::prelude::*;

verus! {

/// All the selections of cards from a list, each in the order of the list.
pub open spec fn selections(cards: Seq<Card>) -> Seq<Seq<Card>>
    decreases cards.len(),
{
    if cards.len() == 0 {
        seq![Seq::<Card>::empty()]
    } else {
        let fewer = selections(cards.drop_last());
        fewer + with_card(fewer, cards.last())
    }
}

/// Each of the lists with one more card at its end.
pub open spec fn with_card(lists: Seq<Seq<Card>>, card: Card) -> Seq<Seq<Card>> {
    Seq::new(lists.len(), |i: int| lists[i].push(card))
}

/// Whether all the cards have the same rank.
pub open spec fn all_same_rank(cards: Seq<Card>) -> bool {
    forall|i: int| 0 <= i < cards.len() ==> (#[trigger] cards[i]).value == cards[0].value
}

/// Whether all the cards have the same suit.
pub open spec fn one_suit(cards: Seq<Card>) -> bool {
    forall|i: int| 0 <= i < cards.len() ==> (#[trigger] cards[i]).suit == cards[0].suit
}

/// The kind of score for a number of cards of one rank.
pub open spec fn set_kind(n: int) -> ShowKind {
    if n == 2 {
        ShowKind::Pair
    } else if n == 3 {
        ShowKind::Triple
    } else {
        ShowKind::Quadruple
    }
}

/// The points for a number of cards of one rank.
pub open spec fn set_points(n: int) -> int {
    if n == 2 {
        2
    } else if n == 3 {
        6
    } else {
        12
    }
}

/// The scores that one selection of cards makes by itself: as two, three or four of a rank, as a
/// run of three or more, and as a fifteen.
pub open spec fn combination_events(index: u8, cards: Seq<Card>) -> Seq<ScoreEventView> {
    (if 2 <= cards.len() <= 4 && all_same_rank(cards) {
        seq![show_event(set_kind(cards.len() as int), cards, index, set_points(cards.len() as int))]
    } else {
        Seq::empty()
    }) + (if cards.len() >= 3 && is_run(cards) {
        seq![show_event(ShowKind::Straight, cards, index, cards.len() as int)]
    } else {
        Seq::empty()
    }) + (if peg_total(cards) == 15 {
        seq![show_event(ShowKind::Fifteen, cards, index, 2)]
    } else {
        Seq::empty()
    })
}

/// The scores of each of the selections, one selection after the other.
pub open spec fn events_of(index: u8, lists: Seq<Seq<Card>>) -> Seq<ScoreEventView>
    decreases lists.len(),
{
    if lists.len() == 0 {
        Seq::empty()
    } else {
        events_of(index, lists.drop_last()) + combination_events(index, lists.last())
    }
}

/// Whether the event is a show score of the given kind.
pub open spec fn is_kind(event: ScoreEventView, kind: ShowKind) -> bool {
    event.score_type matches ScoreTypeView::Show(show) && show.kind == kind
}

/// The cards of a show score; a play score has none.
pub open spec fn cards_of(event: ScoreEventView) -> Seq<Card> {
    match event.score_type {
        ScoreTypeView::Show(show) => show.cards,
        ScoreTypeView::Play(_) => Seq::empty(),
    }
}

/// Whether one of the events is a show score of the given kind whose first card has the
/// given rank. The cards of a pair, a triple or a quadruple all have the rank of the first.
pub open spec fn holds_set_of(events: Seq<ScoreEventView>, kind: ShowKind, value: CardValue) -> bool {
    exists|i: int|
        0 <= i < events.len() && is_kind(#[trigger] events[i], kind) && cards_of(events[i]).len()
            > 0 && cards_of(events[i])[0].value == value
}

/// Whether every card of `small` is among `big` and the two lists differ.
pub open spec fn strictly_inside(small: Seq<Card>, big: Seq<Card>) -> bool {
    small != big && forall|i: int| 0 <= i < small.len() ==> big.contains(#[trigger] small[i])
}

/// Whether one of the events is a run of four or more cards that the given cards lie strictly
/// inside.
pub open spec fn inside_longer_run(events: Seq<ScoreEventView>, cards: Seq<Card>) -> bool {
    exists|j: int|
        0 <= j < events.len() && is_kind(#[trigger] events[j], ShowKind::Straight) && cards_of(
            events[j],
        ).len() >= 4 && strictly_inside(cards, cards_of(events[j]))
}

/// Whether another of the events already covers this one. A pair or a triple is covered by a
/// quadruple of its own rank, and a pair by a triple of its own rank. A run is covered by a
/// run of four or more cards that it lies strictly inside.
pub open spec fn is_redundant(events: Seq<ScoreEventView>, event: ScoreEventView) -> bool {
    ||| ((is_kind(event, ShowKind::Pair) || is_kind(event, ShowKind::Triple)) && cards_of(
        event,
    ).len() > 0 && holds_set_of(events, ShowKind::Quadruple, cards_of(event)[0].value))
    ||| (is_kind(event, ShowKind::Pair) && cards_of(event).len() > 0 && holds_set_of(
        events,
        ShowKind::Triple,
        cards_of(event)[0].value,
    ))
    ||| (is_kind(event, ShowKind::Straight) && inside_longer_run(events, cards_of(event)))
}

/// The test that keeps the events that no other event of `events` covers.
pub open spec fn needed(events: Seq<ScoreEventView>) -> spec_fn(ScoreEventView) -> bool {
    |event: ScoreEventView| !is_redundant(events, event)
}

/// The events without those that another of them covers, in the same order.
pub open spec fn eliminate(events: Seq<ScoreEventView>) -> Seq<ScoreEventView> {
    events.filter(needed(events))
}

/// The scores for his nobs: one point for each jack of the hand that has the suit of the starter.
pub open spec fn nobs_events(index: u8, hand: Seq<Card>, starter: Card) -> Seq<ScoreEventView>
    decreases hand.len(),
{
    if hand.len() == 0 {
        Seq::empty()
    } else {
        nobs_events(index, hand.drop_last(), starter) + (if hand.last().value == CardValue::Jack
            && hand.last().suit == starter.suit {
            seq![
                show_event(
                    ShowKind::Nobs,
                    seq![hand.last(), starter].sort_by(card_order()),
                    index,
                    1,
                ),
            ]
        } else {
            Seq::empty()
        })
    }
}

/// The score for a flush: four points where the four cards of the hand have one suit, five
/// where the starter has that suit too. `table` is the hand together with the starter.
pub open spec fn flush_events(
    index: u8,
    hand: Seq<Card>,
    table: Seq<Card>,
    starter: Card,
) -> Seq<ScoreEventView> {
    if hand.len() == 4 && one_suit(hand) {
        if starter.suit == hand[0].suit {
            seq![show_event(ShowKind::FiveFlush, table, index, 5)]
        } else {
            seq![show_event(ShowKind::FourFlush, hand, index, 4)]
        }
    } else {
        Seq::empty()
    }
}

/// The scores of a hand before they are put into the canonical order. The hand is taken in
/// the card order, so that the scores do not depend on the order in which the hand was given.
pub open spec fn found_events(index: u8, hand: Seq<Card>, starter: Card) -> Seq<ScoreEventView> {
    let sorted_hand = hand.sort_by(card_order());
    let table = hand.push(starter).sort_by(card_order());
    eliminate(events_of(index, selections(table))) + nobs_events(index, sorted_hand, starter)
        + flush_events(index, sorted_hand, table, starter)
}

/// The scores of a hand with a starter card, in the canonical order.
pub open spec fn show_events(index: u8, hand: Seq<Card>, starter: Card) -> Seq<ScoreEventView> {
    found_events(index, hand, starter).sort_by(event_order())
}

/// The test that keeps every event but a flush of four.
pub open spec fn counts_in_crib() -> spec_fn(ScoreEventView) -> bool {
    |event: ScoreEventView| !is_kind(event, ShowKind::FourFlush)
}

/// The scores of a crib with a starter card: those of a hand, but for the flush of four.
pub open spec fn crib_events(index: u8, crib: Seq<Card>, starter: Card) -> Seq<ScoreEventView> {
    show_events(index, crib, starter).filter(counts_in_crib())
}

/// The sequences that a list of card lists holds.
pub open spec fn lists_view(lists: Seq<Vec<Card>>) -> Seq<Seq<Card>> {
    Seq::new(lists.len(), |i: int| lists[i]@)
}

/// All the selections of cards from a list, each in the order of the list.
pub fn all_selections(cards: &Vec<Card>) -> (lists: Vec<Vec<Card>>)
    ensures
        lists_view(lists@) == selections(cards@),
{
    let mut lists: Vec<Vec<Card>> = Vec::new();
    lists.push(Vec::new());
    assert(cards@.subrange(0, 0) =~= Seq::<Card>::empty());
    assert(lists_view(lists@) =~= selections(cards@.subrange(0, 0)));
    let mut i: usize = 0;
    while i < cards.len()
        invariant
            i <= cards.len(),
            lists_view(lists@) == selections(cards@.subrange(0, i as int)),
        decreases cards.len() - i,
    {
        let card: Card = cards[i];
        let fewer_count: usize = lists.len();
        let ghost fewer = lists_view(lists@);
        let mut j: usize = 0;
        while j < fewer_count
            invariant
                j <= fewer_count,
                fewer_count == fewer.len(),
                lists@.len() == fewer_count + j,
                lists_view(lists@) == fewer + with_card(fewer.subrange(0, j as int), card),
            decreases fewer_count - j,
        {
            let ghost before = lists_view(lists@);
            assert(before[j as int] == fewer[j as int]);
            let mut list: Vec<Card> = copy_cards(&lists[j]);
            list.push(card);
            let ghost added = list@;
            lists.push(list);
            proof {
                let after = lists_view(lists@);
                let target = fewer + with_card(fewer.subrange(0, j as int + 1), card);
                assert(after.len() == target.len());
                assert forall|k: int| 0 <= k < after.len() implies after[k] == target[k] by {
                    if k < fewer_count + j {
                        assert(after[k] == before[k]);
                    } else {
                        assert(after[k] == added);
                        assert(added == fewer[j as int].push(card));
                    }
                }
                assert(after =~= target);
            }
            j += 1;
        }
        proof {
            let next = cards@.subrange(0, i as int + 1);
            assert(next.drop_last() =~= cards@.subrange(0, i as int));
            assert(next.last() == card);
            assert(fewer.subrange(0, j as int) =~= fewer);
        }
        i += 1;
    }
    assert(cards@.subrange(0, i as int) =~= cards@);
    lists
}

/// Whether all the cards have the same rank.
fn same_rank(cards: &Vec<Card>) -> (r: bool)
    ensures
        r == all_same_rank(cards@),
{
    let mut i: usize = 0;
    while i < cards.len()
        invariant
            i <= cards.len(),
            forall|k: int| 0 <= k < i ==> (#[trigger] cards@[k]).value == cards@[0].value,
        decreases cards.len() - i,
    {
        if cards[i].value != cards[0].value {
            return false;
        }
        i += 1;
    }
    true
}

/// Whether all the cards have the same suit.
fn same_suit(cards: &Vec<Card>) -> (r: bool)
    ensures
        r == one_suit(cards@),
{
    let mut i: usize = 0;
    while i < cards.len()
        invariant
            i <= cards.len(),
            forall|k: int| 0 <= k < i ==> (#[trigger] cards@[k]).suit == cards@[0].suit,
        decreases cards.len() - i,
    {
        if cards[i].suit != cards[0].suit {
            return false;
        }
        i += 1;
    }
    true
}

/// The counting values of the first cards of a list sum to at most those of the whole list.
pub proof fn lemma_peg_total_prefix(cards: Seq<Card>, n: int)
    requires
        0 <= n <= cards.len(),
    ensures
        0 <= peg_total(cards.subrange(0, n)) <= peg_total(cards),
    decreases cards.len() - n,
{
    if n == cards.len() {
        assert(cards.subrange(0, n) =~= cards);
        lemma_peg_total_nonnegative(cards);
    } else {
        lemma_peg_total_prefix(cards, n + 1);
        assert(cards.subrange(0, n + 1).drop_last() =~= cards.subrange(0, n));
        lemma_peg_total_nonnegative(cards.subrange(0, n));
    }
}

/// A sum of counting values is never negative.
pub proof fn lemma_peg_total_nonnegative(cards: Seq<Card>)
    ensures
        0 <= peg_total(cards),
    decreases cards.len(),
{
    if cards.len() > 0 {
        lemma_peg_total_nonnegative(cards.drop_last());
    }
}

/// Whether the counting values of the cards sum to fifteen.
fn adds_to_fifteen(cards: &Vec<Card>) -> (r: bool)
    ensures
        r == (peg_total(cards@) == 15),
{
    let mut sum: u8 = 0;
    let mut i: usize = 0;
    assert(cards@.subrange(0, 0) =~= Seq::<Card>::empty());
    while i < cards.len()
        invariant
            i <= cards.len(),
            sum <= 15,
            sum == peg_total(cards@.subrange(0, i as int)),
        decreases cards.len() - i,
    {
        let value: u8 = return_play_value(cards[i]);
        proof {
            let next = cards@.subrange(0, i as int + 1);
            assert(next.drop_last() =~= cards@.subrange(0, i as int));
            assert(next.last() == cards@[i as int]);
            lemma_peg_total_prefix(cards@, i as int + 1);
        }
        if sum + value > 15 {
            return false;
        }
        sum += value;
        i += 1;
    }
    assert(cards@.subrange(0, i as int) =~= cards@);
    sum == 15
}

/// A show score event of the given kind with a copy of the given cards.
fn new_show_event(kind: ShowKind, cards: &Vec<Card>, index: u8, points: u8) -> (event: ScoreEvent)
    ensures
        event@ == show_event(kind, cards@, index, points as int),
{
    ScoreEvent {
        score_type: ScoreType::Show(ShowScoreType::of_kind(kind, copy_cards(cards))),
        player_index: index,
        point_value: points,
    }
}

/// Adds the scores that one selection of cards makes by itself.
fn push_combination_events(index: u8, cards: &Vec<Card>, found: &mut Vec<ScoreEvent>)
    ensures
        final(found).deep_view() == old(found).deep_view() + combination_events(index, cards@),
{
    let ghost before = found.deep_view();
    let length: usize = cards.len();
    if length >= 2 && length <= 4 && same_rank(cards) {
        let kind = if length == 2 {
            ShowKind::Pair
        } else if length == 3 {
            ShowKind::Triple
        } else {
            ShowKind::Quadruple
        };
        let points: u8 = if length == 2 {
            2
        } else if length == 3 {
            6
        } else {
            12
        };
        found.push(new_show_event(kind, cards, index, points));
    }
    if length >= 3 && length <= 13 {
        assert(cards@.subrange(0, length as int) =~= cards@);
        if ends_in_run(cards, 0) {
            found.push(new_show_event(ShowKind::Straight, cards, index, length as u8));
        }
    }
    if adds_to_fifteen(cards) {
        found.push(new_show_event(ShowKind::Fifteen, cards, index, 2));
    }
    assert(found.deep_view() =~= before + combination_events(index, cards@));
}

/// The scores of each of the selections, one selection after the other.
fn events_of_selections(index: u8, lists: &Vec<Vec<Card>>) -> (found: Vec<ScoreEvent>)
    ensures
        found.deep_view() == events_of(index, lists_view(lists@)),
{
    let mut found: Vec<ScoreEvent> = Vec::new();
    let mut i: usize = 0;
    assert(lists_view(lists@).subrange(0, 0) =~= Seq::<Seq<Card>>::empty());
    assert(found.deep_view() =~= Seq::<ScoreEventView>::empty());
    while i < lists.len()
        invariant
            i <= lists.len(),
            found.deep_view() == events_of(index, lists_view(lists@).subrange(0, i as int)),
        decreases lists.len() - i,
    {
        proof {
            let next = lists_view(lists@).subrange(0, i as int + 1);
            assert(next.drop_last() =~= lists_view(lists@).subrange(0, i as int));
            assert(next.last() == lists@[i as int]@);
        }
        push_combination_events(index, &lists[i], &mut found);
        i += 1;
    }
    assert(lists_view(lists@).subrange(0, i as int) =~= lists_view(lists@));
    found
}

/// Whether the event is a show score of the given kind.
fn has_kind(event: &ScoreEvent, kind: ShowKind) -> (r: bool)
    ensures
        r == is_kind(event@, kind),
{
    match &event.score_type {
        ScoreType::Show(show) => show.kind() == kind,
        ScoreType::Play(_) => false,
    }
}

/// Whether one of the events is a show score of the given kind whose first card has the
/// given rank.
fn any_set_of(events: &Vec<ScoreEvent>, kind: ShowKind, value: CardValue) -> (r: bool)
    ensures
        r == holds_set_of(events.deep_view(), kind, value),
{
    let mut i: usize = 0;
    while i < events.len()
        invariant
            i <= events.len(),
            forall|k: int|
                0 <= k < i ==> !(is_kind(#[trigger] events.deep_view()[k], kind) && cards_of(
                    events.deep_view()[k],
                ).len() > 0 && cards_of(events.deep_view()[k])[0].value == value),
        decreases events.len() - i,
    {
        match &events[i].score_type {
            ScoreType::Show(show) => {
                if show.kind() == kind && show.cards().len() > 0 && show.cards()[0].value
                    == value {
                    assert(is_kind(events.deep_view()[i as int], kind));
                    return true;
                }
            },
            ScoreType::Play(_) => {},
        }
        i += 1;
    }
    false
}

/// Whether the card is among the cards.
fn holds_card(cards: &Vec<Card>, card: Card) -> (r: bool)
    ensures
        r == cards@.contains(card),
{
    let mut i: usize = 0;
    while i < cards.len()
        invariant
            i <= cards.len(),
            forall|k: int| 0 <= k < i ==> cards@[k] != card,
        decreases cards.len() - i,
    {
        if cards[i] == card {
            return true;
        }
        i += 1;
    }
    false
}

/// Whether every card of `small` is among `big` and the two lists differ.
fn lies_strictly_inside(small: &Vec<Card>, big: &Vec<Card>) -> (r: bool)
    ensures
        r == strictly_inside(small@, big@),
{
    proof {
        lemma_cards_ordering(small@, big@);
    }
    if order_of_card_lists(small, big) == 0 {
        return false;
    }
    let mut i: usize = 0;
    while i < small.len()
        invariant
            i <= small.len(),
            small@ != big@,
            forall|k: int| 0 <= k < i ==> big@.contains(#[trigger] small@[k]),
        decreases small.len() - i,
    {
        if !holds_card(big, small[i]) {
            return false;
        }
        i += 1;
    }
    true
}

/// Whether one of the events is a run of four or more cards that the given cards lie strictly
/// inside.
fn lies_inside_longer_run(events: &Vec<ScoreEvent>, cards: &Vec<Card>) -> (r: bool)
    ensures
        r == inside_longer_run(events.deep_view(), cards@),
{
    let mut j: usize = 0;
    while j < events.len()
        invariant
            j <= events.len(),
            forall|k: int|
                0 <= k < j ==> !(is_kind(#[trigger] events.deep_view()[k], ShowKind::Straight)
                    && cards_of(events.deep_view()[k]).len() >= 4 && strictly_inside(
                    cards@,
                    cards_of(events.deep_view()[k]),
                )),
        decreases events.len() - j,
    {
        match &events[j].score_type {
            ScoreType::Show(show) => {
                if show.kind() == ShowKind::Straight && show.cards().len() >= 4
                    && lies_strictly_inside(cards, show.cards()) {
                    assert(is_kind(events.deep_view()[j as int], ShowKind::Straight));
                    return true;
                }
            },
            ScoreType::Play(_) => {},
        }
        j += 1;
    }
    false
}

/// Whether another of the events already covers this one.
fn covered(events: &Vec<ScoreEvent>, event: &ScoreEvent) -> (r: bool)
    ensures
        r == is_redundant(events.deep_view(), event@),
{
    match &event.score_type {
        ScoreType::Play(_) => false,
        ScoreType::Show(show) => {
            let kind = show.kind();
            if kind == ShowKind::Pair || kind == ShowKind::Triple {
                if show.cards().len() == 0 {
                    false
                } else {
                    let value = show.cards()[0].value;
                    any_set_of(events, ShowKind::Quadruple, value) || (kind == ShowKind::Pair
                        && any_set_of(events, ShowKind::Triple, value))
                }
            } else if kind == ShowKind::Straight {
                lies_inside_longer_run(events, show.cards())
            } else {
                false
            }
        },
    }
}

/// Drops the events that another of the events already covers, and keeps the rest in order.
pub fn eliminate_redundant(events: &Vec<ScoreEvent>) -> (kept: Vec<ScoreEvent>)
    ensures
        kept.deep_view() == eliminate(events.deep_view()),
{
    let ghost all = events.deep_view();
    let ghost keep = needed(all);
    let mut kept: Vec<ScoreEvent> = Vec::new();
    let mut i: usize = 0;
    proof {
        assert(all.subrange(0, 0) =~= Seq::<ScoreEventView>::empty());
        reveal(Seq::filter);
        assert(kept.deep_view() =~= all.subrange(0, 0).filter(keep));
    }
    while i < events.len()
        invariant
            i <= events.len(),
            all == events.deep_view(),
            keep == needed(all),
            kept.deep_view() == all.subrange(0, i as int).filter(keep),
        decreases events.len() - i,
    {
        let ghost before = kept.deep_view();
        proof {
            assert(all.subrange(0, i as int + 1) =~= all.subrange(0, i as int).push(all[i as int]));
            all.subrange(0, i as int).lemma_filter_push(all[i as int], keep);
        }
        if !covered(events, &events[i]) {
            kept.push(copy_event(&events[i]));
            assert(kept.deep_view() =~= before.push(all[i as int]));
        }
        i += 1;
    }
    assert(all.subrange(0, i as int) =~= all);
    kept
}

/// Adds the scores for his nobs.
fn push_nobs_events(index: u8, hand: &Vec<Card>, starter: Card, found: &mut Vec<ScoreEvent>)
    ensures
        final(found).deep_view() == old(found).deep_view() + nobs_events(index, hand@, starter),
{
    let ghost before = found.deep_view();
    let mut i: usize = 0;
    assert(hand@.subrange(0, 0) =~= Seq::<Card>::empty());
    assert(found.deep_view() =~= before + nobs_events(index, hand@.subrange(0, 0), starter));
    while i < hand.len()
        invariant
            i <= hand.len(),
            found.deep_view() == before + nobs_events(index, hand@.subrange(0, i as int), starter),
        decreases hand.len() - i,
    {
        let card: Card = hand[i];
        let ghost so_far = found.deep_view();
        proof {
            let next = hand@.subrange(0, i as int + 1);
            assert(next.drop_last() =~= hand@.subrange(0, i as int));
            assert(next.last() == card);
        }
        if card.value == CardValue::Jack && card.suit == starter.suit {
            let mut nobs: Vec<Card> = Vec::new();
            nobs.push(card);
            nobs.push(starter);
            assert(nobs@ =~= seq![card, starter]);
            sort_cards(&mut nobs);
            found.push(new_show_event(ShowKind::Nobs, &nobs, index, 1));
            assert(found.deep_view() =~= so_far.push(
                show_event(ShowKind::Nobs, seq![card, starter].sort_by(card_order()), index, 1),
            ));
        }
        assert(found.deep_view() =~= before + nobs_events(
            index,
            hand@.subrange(0, i as int + 1),
            starter,
        ));
        i += 1;
    }
    assert(hand@.subrange(0, i as int) =~= hand@);
}

/// The scores of a hand with a starter card, in the canonical order: fifteens, pairs, triples,
/// quadruples and runs among the hand and the starter, without those that a larger one
/// covers, then a flush, then his nobs.
pub fn score_hand(index: u8, hand: Vec<Card>, starter: Card) -> (found: Vec<ScoreEvent>)
    ensures
        found.deep_view() == show_events(index, hand@, starter),
{
    let mut table: Vec<Card> = copy_cards(&hand);
    table.push(starter);
    sort_cards(&mut table);
    let mut sorted_hand: Vec<Card> = hand;
    sort_cards(&mut sorted_hand);

    let combinations = all_selections(&table);
    let every = events_of_selections(index, &combinations);
    let mut found = eliminate_redundant(&every);
    let ghost kept = found.deep_view();
    push_nobs_events(index, &sorted_hand, starter, &mut found);
    let ghost with_nobs = found.deep_view();
    if sorted_hand.len() == 4 && same_suit(&sorted_hand) {
        if starter.suit == sorted_hand[0].suit {
            found.push(new_show_event(ShowKind::FiveFlush, &table, index, 5));
        } else {
            found.push(new_show_event(ShowKind::FourFlush, &sorted_hand, index, 4));
        }
    }
    assert(found.deep_view() =~= with_nobs + flush_events(index, sorted_hand@, table@, starter));
    assert(found.deep_view() == found_events(index, hand@, starter));
    sort_events(&mut found);
    found
}

/// The scores of a crib with a starter card: those of a hand, but a flush of four does not
/// count.
pub fn score_crib(index: u8, crib: Vec<Card>, starter: Card) -> (found: Vec<ScoreEvent>)
    ensures
        found.deep_view() == crib_events(index, crib@, starter),
{
    let all = score_hand(index, crib, starter);
    let ghost every = all.deep_view();
    let ghost keep = counts_in_crib();
    let mut found: Vec<ScoreEvent> = Vec::new();
    let mut i: usize = 0;
    proof {
        assert(every.subrange(0, 0) =~= Seq::<ScoreEventView>::empty());
        reveal(Seq::filter);
        assert(found.deep_view() =~= every.subrange(0, 0).filter(keep));
    }
    while i < all.len()
        invariant
            i <= all.len(),
            every == all.deep_view(),
            keep == counts_in_crib(),
            found.deep_view() == every.subrange(0, i as int).filter(keep),
        decreases all.len() - i,
    {
        let ghost before = found.deep_view();
        proof {
            assert(every.subrange(0, i as int + 1) =~= every.subrange(0, i as int).push(
                every[i as int],
            ));
            every.subrange(0, i as int).lemma_filter_push(every[i as int], keep);
        }
        if !has_kind(&all[i], ShowKind::FourFlush) {
            found.push(copy_event(&all[i]));
            assert(found.deep_view() =~= before.push(every[i as int]));
        }
        i += 1;
    }
    assert(every.subrange(0, i as int) =~= every);
    found
}

/// The scores of a hand do not depend on the order in which its cards are given: two hands
/// that hold the same cards score the same events, in the same order.
pub proof fn lemma_show_events_ignore_hand_order(
    index: u8,
    hand: Seq<Card>,
    other: Seq<Card>,
    starter: Card,
)
    requires
        hand.to_multiset() == other.to_multiset(),
    ensures
        show_events(index, hand, starter) == show_events(index, other, starter),
{
    let leq = card_order();
    lemma_card_order_total();
    hand.lemma_sort_by_ensures(leq);
    other.lemma_sort_by_ensures(leq);
    vstd::seq_lib::lemma_sorted_unique(hand.sort_by(leq), other.sort_by(leq), leq);
    vstd::seq_lib::to_multiset_build(hand, starter);
    vstd::seq_lib::to_multiset_build(other, starter);
    hand.push(starter).lemma_sort_by_ensures(leq);
    other.push(starter).lemma_sort_by_ensures(leq);
    vstd::seq_lib::lemma_sorted_unique(
        hand.push(starter).sort_by(leq),
        other.push(starter).sort_by(leq),
        leq,
    );
}

/// Sorting the hand before it is scored changes nothing.
pub proof fn lemma_show_events_of_sorted_hand(index: u8, hand: Seq<Card>, starter: Card)
    ensures
        show_events(index, hand.sort_by(card_order()), starter) == show_events(index, hand, starter),
{
    lemma_card_order_total();
    hand.lemma_sort_by_ensures(card_order());
    lemma_show_events_ignore_hand_order(index, hand.sort_by(card_order()), hand, starter);
}

/// Every event that the elimination keeps is an event that it was given.
pub proof fn lemma_eliminate_keeps_given(events: Seq<ScoreEventView>, i: int) -> (j: int)
    requires
        0 <= i < eliminate(events).len(),
    ensures
        0 <= j < events.len(),
        events[j] == eliminate(events)[i],
        !is_redundant(events, events[j]),
{
    let keep = needed(events);
    broadcast use vstd::seq_lib::group_filter_ensures;
    let kept = events.filter(keep);
    assert(keep(kept[i]));
    lemma_filter_members(events, keep, i)
}

/// Every element of a filtered list is an element of the list.
pub proof fn lemma_filter_members<A>(s: Seq<A>, pred: spec_fn(A) -> bool, i: int) -> (j: int)
    requires
        0 <= i < s.filter(pred).len(),
    ensures
        0 <= j < s.len(),
        s[j] == s.filter(pred)[i],
    decreases s.len(),
{
    reveal(Seq::filter);
    if s.len() == 0 {
        0
    } else {
        let rest = s.drop_last().filter(pred);
        if pred(s.last()) && i == rest.len() {
            s.len() - 1
        } else {
            lemma_filter_members(s.drop_last(), pred, i)
        }
    }
}

/// A list whose elements all pass a test is left as it is by the filter of that test.
pub proof fn lemma_filter_keeps_all<A>(s: Seq<A>, pred: spec_fn(A) -> bool)
    requires
        forall|i: int| 0 <= i < s.len() ==> pred(#[trigger] s[i]),
    ensures
        s.filter(pred) == s,
    decreases s.len(),
{
    reveal(Seq::filter);
    if s.len() > 0 {
        assert forall|i: int| 0 <= i < s.drop_last().len() implies pred(
            #[trigger] s.drop_last()[i],
        ) by {
            assert(s.drop_last()[i] == s[i]);
        }
        lemma_filter_keeps_all(s.drop_last(), pred);
        assert(s.drop_last().push(s.last()) =~= s);
    }
}

/// Where an event of the given kind and rank is among the events that the elimination
/// keeps, it is among the events that it was given.
pub proof fn lemma_kept_set_was_given(events: Seq<ScoreEventView>, kind: ShowKind, value: CardValue)
    requires
        holds_set_of(eliminate(events), kind, value),
    ensures
        holds_set_of(events, kind, value),
{
    let kept = eliminate(events);
    let i = choose|i: int|
        0 <= i < kept.len() && is_kind(#[trigger] kept[i], kind) && cards_of(kept[i]).len() > 0
            && cards_of(kept[i])[0].value == value;
    let j = lemma_eliminate_keeps_given(events, i);
    assert(is_kind(events[j], kind));
}

/// Eliminating a second time changes nothing: among the events that the elimination keeps,
/// none is covered by another.
pub proof fn lemma_eliminate_idempotent(events: Seq<ScoreEventView>)
    ensures
        eliminate(eliminate(events)) == eliminate(events),
{
    let kept = eliminate(events);
    let keep = needed(kept);
    assert forall|i: int| 0 <= i < kept.len() implies keep(#[trigger] kept[i]) by {
        let event = kept[i];
        let at = lemma_eliminate_keeps_given(events, i);
        if is_redundant(kept, event) {
            if cards_of(event).len() > 0 {
                let value = cards_of(event)[0].value;
                if holds_set_of(kept, ShowKind::Quadruple, value) {
                    lemma_kept_set_was_given(events, ShowKind::Quadruple, value);
                }
                if holds_set_of(kept, ShowKind::Triple, value) {
                    lemma_kept_set_was_given(events, ShowKind::Triple, value);
                }
            }
            if is_kind(event, ShowKind::Straight) && inside_longer_run(kept, cards_of(event)) {
                let r = choose|r: int|
                    0 <= r < kept.len() && is_kind(#[trigger] kept[r], ShowKind::Straight)
                        && cards_of(kept[r]).len() >= 4 && strictly_inside(
                        cards_of(event),
                        cards_of(kept[r]),
                    );
                let r0 = lemma_eliminate_keeps_given(events, r);
                assert(is_kind(events[r0], ShowKind::Straight));
                assert(inside_longer_run(events, cards_of(event)));
            }
            assert(is_redundant(events, event));
        }
    }
    lemma_filter_keeps_all(kept, keep);
}

/// Whether the cards of the event are listed in the card order.
pub open spec fn lists_cards_in_order(event: ScoreEventView) -> bool {
    vstd::relations::sorted_by(cards_of(event), card_order())
}

/// Whether every event of the list lists its cards in the card order.
pub open spec fn all_in_order(events: Seq<ScoreEventView>) -> bool {
    forall|i: int| 0 <= i < events.len() ==> lists_cards_in_order(#[trigger] events[i])
}

/// Every selection from cards that are in order is in order, and holds cards of the list
/// only.
pub proof fn lemma_selections_in_order(cards: Seq<Card>)
    requires
        vstd::relations::sorted_by(cards, card_order()),
    ensures
        forall|i: int|
            0 <= i < selections(cards).len() ==> vstd::relations::sorted_by(
                #[trigger] selections(cards)[i],
                card_order(),
            ),
        forall|i: int, j: int|
            0 <= i < selections(cards).len() && 0 <= j < selections(cards)[i].len()
                ==> cards.contains(#[trigger] selections(cards)[i][j]),
    decreases cards.len(),
{
    let leq = card_order();
    if cards.len() > 0 {
        let shorter = cards.drop_last();
        let last = cards.last();
        lemma_selections_in_order(shorter);
        let fewer = selections(shorter);
        let all = selections(cards);
        assert forall|i: int| 0 <= i < all.len() implies vstd::relations::sorted_by(
            #[trigger] all[i],
            leq,
        ) && (forall|j: int| 0 <= j < all[i].len() ==> cards.contains(#[trigger] all[i][j])) by {
            if i < fewer.len() {
                assert(all[i] == fewer[i]);
                assert forall|j: int| 0 <= j < all[i].len() implies cards.contains(
                    #[trigger] all[i][j],
                ) by {
                    assert(shorter.contains(fewer[i][j]));
                    let k = choose|k: int| 0 <= k < shorter.len() && shorter[k] == fewer[i][j];
                    assert(cards[k] == fewer[i][j]);
                }
            } else {
                let from = fewer[i - fewer.len()];
                assert(all[i] == from.push(last));
                assert forall|j: int| 0 <= j < all[i].len() implies cards.contains(
                    #[trigger] all[i][j],
                ) by {
                    if j < from.len() {
                        assert(shorter.contains(from[j]));
                        let k = choose|k: int| 0 <= k < shorter.len() && shorter[k] == from[j];
                        assert(cards[k] == from[j]);
                    } else {
                        assert(cards[cards.len() - 1] == all[i][j]);
                    }
                }
                assert forall|a: int, b: int| 0 <= a < b < all[i].len() implies leq(
                    all[i][a],
                    all[i][b],
                ) by {
                    if b < from.len() {
                        assert(leq(from[a], from[b]));
                    } else {
                        assert(shorter.contains(from[a]));
                        let k = choose|k: int| 0 <= k < shorter.len() && shorter[k] == from[a];
                        assert(leq(cards[k], cards[cards.len() - 1]));
                    }
                }
            }
        }
    } else {
        assert(selections(cards)[0] =~= Seq::<Card>::empty());
    }
}

/// The scores of selections that are in order list their cards in order.
pub proof fn lemma_events_of_in_order(index: u8, lists: Seq<Seq<Card>>)
    requires
        forall|i: int|
            0 <= i < lists.len() ==> vstd::relations::sorted_by(#[trigger] lists[i], card_order()),
    ensures
        all_in_order(events_of(index, lists)),
    decreases lists.len(),
{
    if lists.len() > 0 {
        lemma_events_of_in_order(index, lists.drop_last());
        let before = events_of(index, lists.drop_last());
        let added = combination_events(index, lists.last());
        assert forall|i: int| 0 <= i < events_of(index, lists).len() implies lists_cards_in_order(
            #[trigger] events_of(index, lists)[i],
        ) by {
            if i < before.len() {
                assert(events_of(index, lists)[i] == before[i]);
            } else {
                assert(events_of(index, lists)[i] == added[i - before.len()]);
                assert(cards_of(added[i - before.len()]) == lists.last());
            }
        }
    }
}

/// The scores for his nobs list their cards in order.
pub proof fn lemma_nobs_in_order(index: u8, hand: Seq<Card>, starter: Card)
    ensures
        all_in_order(nobs_events(index, hand, starter)),
    decreases hand.len(),
{
    if hand.len() > 0 {
        lemma_nobs_in_order(index, hand.drop_last(), starter);
        lemma_card_order_total();
        seq![hand.last(), starter].lemma_sort_by_ensures(card_order());
        let before = nobs_events(index, hand.drop_last(), starter);
        assert forall|i: int|
            0 <= i < nobs_events(index, hand, starter).len() implies lists_cards_in_order(
            #[trigger] nobs_events(index, hand, starter)[i],
        ) by {
            if i < before.len() {
                assert(nobs_events(index, hand, starter)[i] == before[i]);
            }
        }
    }
}

/// Every score of a hand lists its cards in the card order, so that it is the same event
/// however it is written: putting its cards in order changes nothing.
pub proof fn lemma_show_events_in_order(index: u8, hand: Seq<Card>, starter: Card)
    ensures
        all_in_order(show_events(index, hand, starter)),
        crate::score::canonical_all(show_events(index, hand, starter)) == show_events(
            index,
            hand,
            starter,
        ),
{
    let leq = card_order();
    lemma_card_order_total();
    crate::score::lemma_event_order_total();
    let sorted_hand = hand.sort_by(leq);
    let table = hand.push(starter).sort_by(leq);
    hand.lemma_sort_by_ensures(leq);
    hand.push(starter).lemma_sort_by_ensures(leq);
    lemma_selections_in_order(table);
    let every = events_of(index, selections(table));
    lemma_events_of_in_order(index, selections(table));
    let kept = eliminate(every);
    lemma_nobs_in_order(index, sorted_hand, starter);
    let nobs = nobs_events(index, sorted_hand, starter);
    let flush = flush_events(index, sorted_hand, table, starter);
    let found = found_events(index, hand, starter);
    assert forall|i: int| 0 <= i < found.len() implies lists_cards_in_order(#[trigger] found[i]) by {
        if i < kept.len() {
            let j = lemma_eliminate_keeps_given(every, i);
            assert(found[i] == every[j]);
        } else if i < kept.len() + nobs.len() {
            assert(found[i] == nobs[i - kept.len()]);
        } else {
            assert(found[i] == flush[i - kept.len() - nobs.len()]);
        }
    }
    found.lemma_sort_by_ensures(crate::score::event_order());
    let shown = show_events(index, hand, starter);
    assert forall|i: int| 0 <= i < shown.len() implies lists_cards_in_order(#[trigger] shown[i])
        && crate::score::canonical(shown[i]) == shown[i] by {
        assert(shown.contains(shown[i]));
        assert(found.contains(shown[i]));
        let k = choose|k: int| 0 <= k < found.len() && found[k] == shown[i];
        assert(lists_cards_in_order(found[k]));
        let cards = cards_of(shown[i]);
        cards.lemma_sort_by_ensures(leq);
        vstd::seq_lib::lemma_sorted_unique(cards.sort_by(leq), cards, leq);
    }
    assert(crate::score::canonical_all(shown) =~= shown);
}

} // verus!
