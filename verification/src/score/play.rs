//! Scoring the last card played to a group.

use crate::deck::{ordinal, return_value, Card};
use crate::score::{play_event, PlayScoreType, ScoreEvent, ScoreEventView, ScoreType};
use crate::{PlayGroup, PlayGroupView};
use vstd::prelude::*;

verus! {

/// The last `n` cards of a list.
pub open spec fn trailing(cards: Seq<Card>, n: int) -> Seq<Card> {
    cards.subrange(cards.len() - n, cards.len() as int)
}

/// Whether the cards, in any order, form a run: no two have the same ordinal, and no two
/// ordinals are further apart than a run of that many cards reaches. There are thirteen
/// ordinals, so a run has at most thirteen cards.
pub open spec fn is_run(cards: Seq<Card>) -> bool {
    &&& cards.len() <= 13
    &&& forall|i: int, j: int|
        0 <= i < j < cards.len() ==> ordinal(#[trigger] cards[i]) != ordinal(#[trigger] cards[j])
    &&& forall|i: int, j: int|
        0 <= i < cards.len() && 0 <= j < cards.len() ==> ordinal(#[trigger] cards[i]) - ordinal(
            #[trigger] cards[j],
        ) < cards.len()
}

/// The length of the longest run of at least three and at most `n` cards that ends with the
/// last card played, or 0 where there is none.
pub open spec fn longest_trailing_run(cards: Seq<Card>, n: int) -> int
    decreases n,
{
    if n < 3 || n > cards.len() {
        0
    } else if is_run(trailing(cards, n)) {
        n
    } else {
        longest_trailing_run(cards, n - 1)
    }
}

/// Whether the last `n` cards all have the rank of the last card.
pub open spec fn trailing_same_rank(cards: Seq<Card>, n: int) -> bool {
    &&& 0 < n <= cards.len()
    &&& forall|i: int|
        cards.len() - n <= i < cards.len() ==> (#[trigger] cards[i]).value == cards.last().value
}

/// The events for the total: two points for 15 and two for 31.
pub open spec fn total_events(index: u8, total: u8) -> Seq<ScoreEventView> {
    if total == 15 {
        seq![play_event(PlayScoreType::Fifteen, index, 2)]
    } else if total == 31 {
        seq![play_event(PlayScoreType::ThirtyOne, index, 2)]
    } else {
        Seq::empty()
    }
}

/// The event for the longest run that ends with the last card, among the last seven cards: one
/// point for each card of it.
pub open spec fn run_events(index: u8, cards: Seq<Card>) -> Seq<ScoreEventView> {
    let longest = longest_trailing_run(cards, if cards.len() < 7 { cards.len() as int } else { 7 });
    if longest >= 3 {
        seq![play_event(PlayScoreType::Straight(longest as u8), index, longest)]
    } else {
        Seq::empty()
    }
}

/// The event for the cards of the rank of the last card that end the group: twelve points for
/// four, six for three, two for two; only the largest counts.
pub open spec fn set_events(index: u8, cards: Seq<Card>) -> Seq<ScoreEventView> {
    if trailing_same_rank(cards, 4) {
        seq![play_event(PlayScoreType::Quadruple, index, 12)]
    } else if trailing_same_rank(cards, 3) {
        seq![play_event(PlayScoreType::Triple, index, 6)]
    } else if trailing_same_rank(cards, 2) {
        seq![play_event(PlayScoreType::Pair, index, 2)]
    } else {
        Seq::empty()
    }
}

/// The scores that the player with the given index makes with the last card of the group: for
/// the total, then for a run, then for a pair, triple or quadruple.
pub open spec fn play_events(index: u8, group: PlayGroupView) -> Seq<ScoreEventView> {
    total_events(index, group.total) + run_events(index, group.cards) + set_events(
        index,
        group.cards,
    )
}

/// Whether the cards from position `start` on form a run.
pub(crate) fn ends_in_run(cards: &Vec<Card>, start: usize) -> (r: bool)
    requires
        start <= cards.len(),
    ensures
        r == is_run(cards@.subrange(start as int, cards.len() as int)),
{
    let ghost window = cards@.subrange(start as int, cards.len() as int);
    let length: usize = cards.len() - start;
    if length > 13 {
        return false;
    }
    let mut i: usize = start;
    while i < cards.len()
        invariant
            start <= i <= cards.len(),
            length == cards.len() - start,
            window == cards@.subrange(start as int, cards.len() as int),
            forall|a: int, b: int|
                0 <= a < i - start && a < b < window.len() ==> ordinal(#[trigger] window[a])
                    != ordinal(#[trigger] window[b]),
            forall|a: int, b: int|
                0 <= a < i - start && 0 <= b < window.len() ==> -(length as int) < ordinal(
                    #[trigger] window[a],
                ) - ordinal(#[trigger] window[b]) < length,
        decreases cards.len() - i,
    {
        let rank_i: u8 = return_value(cards[i]);
        let mut j: usize = start;
        while j < cards.len()
            invariant
                start <= i < cards.len(),
                start <= j <= cards.len(),
                length == cards.len() - start,
                rank_i as int == ordinal(cards@[i as int]),
                window == cards@.subrange(start as int, cards.len() as int),
                forall|b: int|
                    0 <= b < j - start && b != i - start ==> ordinal(window[i - start]) != ordinal(
                        #[trigger] window[b],
                    ),
                forall|b: int|
                    0 <= b < j - start ==> -(length as int) < ordinal(window[i - start]) - ordinal(
                        #[trigger] window[b],
                    ) < length,
            decreases cards.len() - j,
        {
            let rank_j: u8 = return_value(cards[j]);
            assert(window[j - start] == cards@[j as int]);
            assert(window[i - start] == cards@[i as int]);
            if j != i && rank_i == rank_j {
                assert(!is_run(window)) by {
                    if is_run(window) {
                        if i < j {
                            assert(ordinal(window[i - start]) != ordinal(window[j - start]));
                        } else {
                            assert(ordinal(window[j - start]) != ordinal(window[i - start]));
                        }
                    }
                }
                return false;
            }
            let apart: u8 = if rank_i > rank_j { rank_i - rank_j } else { rank_j - rank_i };
            if apart as usize >= length {
                assert(!is_run(window)) by {
                    if is_run(window) {
                        assert(ordinal(window[i - start]) - ordinal(window[j - start]) < length);
                        assert(ordinal(window[j - start]) - ordinal(window[i - start]) < length);
                    }
                }
                return false;
            }
            j += 1;
        }
        i += 1;
    }
    true
}

/// Whether the last `n` cards all have the rank of the last card.
fn ends_in_same_rank(cards: &Vec<Card>, n: usize) -> (r: bool)
    requires
        0 < n <= cards.len(),
    ensures
        r == trailing_same_rank(cards@, n as int),
{
    let last: Card = cards[cards.len() - 1];
    let mut i: usize = cards.len() - n;
    while i < cards.len()
        invariant
            cards.len() - n <= i <= cards.len(),
            0 < n <= cards.len(),
            last == cards@.last(),
            forall|k: int| cards.len() - n <= k < i ==> (#[trigger] cards@[k]).value == last.value,
        decreases cards.len() - i,
    {
        if cards[i].value != last.value {
            return false;
        }
        i += 1;
    }
    true
}

/// The scores that the player with the given index makes with the last card played to the
/// group. The total of the group is taken as it stands.
pub fn play_score(index: u8, play_group: &PlayGroup) -> (output: Vec<ScoreEvent>)
    ensures
        output.deep_view() == play_events(index, play_group@),
{
    let mut output: Vec<ScoreEvent> = Vec::new();
    let cards = &play_group.cards;

    if play_group.total == 15 {
        output.push(
            ScoreEvent {
                score_type: ScoreType::Play(PlayScoreType::Fifteen),
                player_index: index,
                point_value: 2,
            },
        );
    } else if play_group.total == 31 {
        output.push(
            ScoreEvent {
                score_type: ScoreType::Play(PlayScoreType::ThirtyOne),
                player_index: index,
                point_value: 2,
            },
        );
    }
    assert(output.deep_view() =~= total_events(index, play_group.total));

    // The longest run that the last card completes; a run cannot be longer than seven cards
    let length_or_7: usize = if cards.len() < 7 { cards.len() } else { 7 };
    let mut run_length: usize = length_or_7;
    let mut found: bool = false;
    while run_length >= 3 && !found
        invariant
            run_length <= length_or_7 <= cards.len(),
            length_or_7 <= 7,
            longest_trailing_run(cards@, length_or_7 as int) == longest_trailing_run(
                cards@,
                run_length as int,
            ),
            found ==> run_length >= 3 && is_run(trailing(cards@, run_length as int)),
        decreases run_length + (if found { 0int } else { 1int }),
    {
        if ends_in_run(cards, cards.len() - run_length) {
            found = true;
        } else {
            run_length -= 1;
        }
    }
    if found {
        output.push(
            ScoreEvent {
                score_type: ScoreType::Play(PlayScoreType::Straight(run_length as u8)),
                player_index: index,
                point_value: run_length as u8,
            },
        );
    }
    assert(output.deep_view() =~= total_events(index, play_group.total) + run_events(
        index,
        cards@,
    ));

    // The largest set that the last card completes
    if cards.len() >= 4 && ends_in_same_rank(cards, 4) {
        output.push(
            ScoreEvent {
                score_type: ScoreType::Play(PlayScoreType::Quadruple),
                player_index: index,
                point_value: 12,
            },
        );
    } else if cards.len() >= 3 && ends_in_same_rank(cards, 3) {
        output.push(
            ScoreEvent {
                score_type: ScoreType::Play(PlayScoreType::Triple),
                player_index: index,
                point_value: 6,
            },
        );
    } else if cards.len() >= 2 && ends_in_same_rank(cards, 2) {
        output.push(
            ScoreEvent {
                score_type: ScoreType::Play(PlayScoreType::Pair),
                player_index: index,
                point_value: 2,
            },
        );
    }
    assert(output.deep_view() =~= play_events(index, play_group@));
    output
}

} // verus!
