//! Score events: what they are, when two are the same, and the order they are listed in.

use crate::deck::{
    card_order, lemma_card_order_total, ordinal, return_suit_value, return_value, sort_cards,
    suit_ordinal, Card,
};
use vstd::prelude::*;

pub mod play;
pub mod show;

verus! {

/// The kinds of score made during the play of the cards.
#[derive(Debug, Clone, Copy, PartialEq, Eq, Ord, PartialOrd, Structural)]
pub enum PlayScoreType {
    /// Jack as starter card; two points for dealer
    Nibs,
    /// Two cards in a row with the same value; 2pts
    Pair,
    /// Three cards in a row with the same value; 6pts
    Triple,
    /// Four cards in a row with the same value; 12pts
    Quadruple,
    /// Three or more cards with sequential values; 1pt per card; the number is the length
    Straight(u8),
    /// The total of the cards played is exactly 15; 2pts
    Fifteen,
    /// The total of the cards played is exactly 31; 2pts
    ThirtyOne,
    /// The last card of a group that does not reach 31; 1pt
    LastCard,
}

/// The kinds of score made when a hand is shown, each with the cards that make it up.
#[derive(Debug, Clone, PartialEq, Eq, Ord, PartialOrd)]
pub enum ShowScoreType {
    /// Any combination of cards which add to 15; 2pts
    Fifteen(Vec<Card>),
    /// Two cards with the same value; 2pts
    Pair(Vec<Card>),
    /// Three cards with the same value; 6pts
    Triple(Vec<Card>),
    /// Four cards with same value; 12pts
    Quadruple(Vec<Card>),
    /// Three or more cards with sequential values; 1pt per card
    Straight(Vec<Card>),
    /// The four cards of the hand are of one suit; 4pts
    FourFlush(Vec<Card>),
    /// The hand and the starter card are of one suit; 5pts
    FiveFlush(Vec<Card>),
    /// Jack in hand which matches suit of starter card; 1pt
    Nobs(Vec<Card>),
}

/// Whether a score was made in the play or in the show.
#[derive(Debug, Clone, PartialEq, Eq, Ord, PartialOrd)]
pub enum ScoreType {
    Play(PlayScoreType),
    Show(ShowScoreType),
}

/// A single score: what it is for, who makes it and how many points it is worth.
#[derive(Debug, Clone, PartialEq, Eq, Ord, PartialOrd)]
pub struct ScoreEvent {
    pub score_type: ScoreType,
    pub player_index: u8,
    pub point_value: u8,
}

/// The kind of a show score, without its cards.
#[derive(Debug, Clone, Copy, PartialEq, Eq, Structural)]
pub enum ShowKind {
    Fifteen,
    Pair,
    Triple,
    Quadruple,
    Straight,
    FourFlush,
    FiveFlush,
    Nobs,
}

/// A show score as its kind and the sequence of its cards.
pub struct ShowScoreView {
    pub kind: ShowKind,
    pub cards: Seq<Card>,
}

/// What a score is for, with cards as sequences.
pub enum ScoreTypeView {
    Play(PlayScoreType),
    Show(ShowScoreView),
}

/// A score event with cards as sequences.
pub struct ScoreEventView {
    pub score_type: ScoreTypeView,
    pub player_index: u8,
    pub point_value: u8,
}

impl View for ShowScoreType {
    type V = ShowScoreView;

    open spec fn view(&self) -> ShowScoreView {
        match self {
            ShowScoreType::Fifteen(cards) => ShowScoreView { kind: ShowKind::Fifteen, cards: cards@ },
            ShowScoreType::Pair(cards) => ShowScoreView { kind: ShowKind::Pair, cards: cards@ },
            ShowScoreType::Triple(cards) => ShowScoreView { kind: ShowKind::Triple, cards: cards@ },
            ShowScoreType::Quadruple(cards) => ShowScoreView {
                kind: ShowKind::Quadruple,
                cards: cards@,
            },
            ShowScoreType::Straight(cards) => ShowScoreView {
                kind: ShowKind::Straight,
                cards: cards@,
            },
            ShowScoreType::FourFlush(cards) => ShowScoreView {
                kind: ShowKind::FourFlush,
                cards: cards@,
            },
            ShowScoreType::FiveFlush(cards) => ShowScoreView {
                kind: ShowKind::FiveFlush,
                cards: cards@,
            },
            ShowScoreType::Nobs(cards) => ShowScoreView { kind: ShowKind::Nobs, cards: cards@ },
        }
    }
}

impl View for ScoreType {
    type V = ScoreTypeView;

    open spec fn view(&self) -> ScoreTypeView {
        match self {
            ScoreType::Play(play) => ScoreTypeView::Play(*play),
            ScoreType::Show(show) => ScoreTypeView::Show(show@),
        }
    }
}

impl View for ScoreEvent {
    type V = ScoreEventView;

    open spec fn view(&self) -> ScoreEventView {
        ScoreEventView {
            score_type: self.score_type@,
            player_index: self.player_index,
            point_value: self.point_value,
        }
    }
}

impl DeepView for ScoreEvent {
    type V = ScoreEventView;

    open spec fn deep_view(&self) -> ScoreEventView {
        self@
    }
}

/// A play score event.
pub open spec fn play_event(kind: PlayScoreType, player_index: u8, points: int) -> ScoreEventView {
    ScoreEventView {
        score_type: ScoreTypeView::Play(kind),
        player_index,
        point_value: points as u8,
    }
}

/// A show score event.
pub open spec fn show_event(
    kind: ShowKind,
    cards: Seq<Card>,
    player_index: u8,
    points: int,
) -> ScoreEventView {
    ScoreEventView {
        score_type: ScoreTypeView::Show(ShowScoreView { kind, cards }),
        player_index,
        point_value: points as u8,
    }
}

/// The event with its cards in the card order. Two events are the same score exactly when
/// they are equal once their cards are put in order.
pub open spec fn canonical(event: ScoreEventView) -> ScoreEventView {
    match event.score_type {
        ScoreTypeView::Show(show) => ScoreEventView {
            score_type: ScoreTypeView::Show(
                ShowScoreView { kind: show.kind, cards: show.cards.sort_by(card_order()) },
            ),
            ..event
        },
        ScoreTypeView::Play(_) => event,
    }
}

/// Each of the events with its cards in the card order.
pub open spec fn canonical_all(events: Seq<ScoreEventView>) -> Seq<ScoreEventView> {
    Seq::new(events.len(), |i: int| canonical(events[i]))
}

/// Whether two events are the same score: the same kind, for the same player, worth the same
/// points, and made up of the same cards, in whatever order the cards are listed.
pub open spec fn is_same_score(a: ScoreEventView, b: ScoreEventView) -> bool {
    &&& a.player_index == b.player_index
    &&& a.point_value == b.point_value
    &&& match (a.score_type, b.score_type) {
        (ScoreTypeView::Play(x), ScoreTypeView::Play(y)) => x == y,
        (ScoreTypeView::Show(x), ScoreTypeView::Show(y)) => x.kind == y.kind
            && x.cards.to_multiset() == y.cards.to_multiset(),
        _ => false,
    }
}

/// Two events are the same score exactly when they are equal once their cards are put in
/// order.
pub proof fn lemma_same_score_is_canonical_equality(a: ScoreEventView, b: ScoreEventView)
    ensures
        is_same_score(a, b) <==> canonical(a) == canonical(b),
{
    lemma_card_order_total();
    match (a.score_type, b.score_type) {
        (ScoreTypeView::Show(x), ScoreTypeView::Show(y)) => {
            x.cards.lemma_sort_by_ensures(card_order());
            y.cards.lemma_sort_by_ensures(card_order());
            if x.cards.to_multiset() == y.cards.to_multiset() {
                vstd::seq_lib::lemma_sorted_unique(
                    x.cards.sort_by(card_order()),
                    y.cards.sort_by(card_order()),
                    card_order(),
                );
            }
        },
        _ => {},
    }
}

/// The sum of the points of a list of events.
pub open spec fn points_total(events: Seq<ScoreEventView>) -> int
    decreases events.len(),
{
    if events.len() == 0 {
        0
    } else {
        points_total(events.drop_last()) + events.last().point_value
    }
}

/// -1, 0 or 1 as `n` is negative, zero or positive.
pub open spec fn sign(n: int) -> int {
    if n < 0 {
        -1
    } else if n > 0 {
        1
    } else {
        0
    }
}

/// How two cards compare in the card order: -1 where `a` comes first, 1 where `b` does.
pub open spec fn card_ordering(a: Card, b: Card) -> int {
    if ordinal(a) != ordinal(b) {
        sign(ordinal(a) - ordinal(b))
    } else {
        sign(suit_ordinal(a.suit) - suit_ordinal(b.suit))
    }
}

/// How two card lists compare: by the first position at which they differ, a list coming
/// before every longer list that starts with it.
pub open spec fn cards_ordering(a: Seq<Card>, b: Seq<Card>) -> int
    decreases a.len(),
{
    if a.len() == 0 && b.len() == 0 {
        0
    } else if a.len() == 0 {
        -1
    } else if b.len() == 0 {
        1
    } else if card_ordering(a[0], b[0]) != 0 {
        card_ordering(a[0], b[0])
    } else {
        cards_ordering(a.skip(1), b.skip(1))
    }
}

/// The place of a kind of play score in the order of kinds; runs are ordered by length.
pub open spec fn play_kind_key(kind: PlayScoreType) -> int {
    match kind {
        PlayScoreType::Nibs => 0,
        PlayScoreType::Pair => 1000,
        PlayScoreType::Triple => 2000,
        PlayScoreType::Quadruple => 3000,
        PlayScoreType::Straight(n) => 4000 + n,
        PlayScoreType::Fifteen => 5000,
        PlayScoreType::ThirtyOne => 6000,
        PlayScoreType::LastCard => 7000,
    }
}

/// The place of a kind of show score in the order of kinds.
pub open spec fn show_kind_key(kind: ShowKind) -> int {
    match kind {
        ShowKind::Fifteen => 0,
        ShowKind::Pair => 1,
        ShowKind::Triple => 2,
        ShowKind::Quadruple => 3,
        ShowKind::Straight => 4,
        ShowKind::FourFlush => 5,
        ShowKind::FiveFlush => 6,
        ShowKind::Nobs => 7,
    }
}

/// How two score types compare: play scores before show scores, then by kind, then by cards.
pub open spec fn score_type_ordering(a: ScoreTypeView, b: ScoreTypeView) -> int {
    match (a, b) {
        (ScoreTypeView::Play(x), ScoreTypeView::Play(y)) => sign(play_kind_key(x) - play_kind_key(y)),
        (ScoreTypeView::Play(_), ScoreTypeView::Show(_)) => -1,
        (ScoreTypeView::Show(_), ScoreTypeView::Play(_)) => 1,
        (ScoreTypeView::Show(x), ScoreTypeView::Show(y)) => if x.kind != y.kind {
            sign(show_kind_key(x.kind) - show_kind_key(y.kind))
        } else {
            cards_ordering(x.cards, y.cards)
        },
    }
}

/// How two events compare: by score type, then by player, then by points.
pub open spec fn event_ordering(a: ScoreEventView, b: ScoreEventView) -> int {
    if score_type_ordering(a.score_type, b.score_type) != 0 {
        score_type_ordering(a.score_type, b.score_type)
    } else if a.player_index != b.player_index {
        sign(a.player_index - b.player_index)
    } else {
        sign(a.point_value - b.point_value)
    }
}

/// The canonical order in which events are listed.
pub open spec fn event_le(a: ScoreEventView, b: ScoreEventView) -> bool {
    event_ordering(a, b) <= 0
}

/// `event_le` as a relation value, for the sequence library.
pub open spec fn event_order() -> spec_fn(ScoreEventView, ScoreEventView) -> bool {
    |a: ScoreEventView, b: ScoreEventView| event_le(a, b)
}

/// Card lists compare as equal exactly when they are the same list, and comparing them the
/// other way round gives the opposite answer.
pub proof fn lemma_cards_ordering(a: Seq<Card>, b: Seq<Card>)
    ensures
        -1 <= cards_ordering(a, b) <= 1,
        cards_ordering(a, b) == 0 <==> a == b,
        cards_ordering(a, b) == -cards_ordering(b, a),
    decreases a.len(),
{
    if a.len() == 0 || b.len() == 0 {
        if a.len() == 0 && b.len() == 0 {
            assert(a =~= b);
        }
    } else {
        lemma_cards_ordering(a.skip(1), b.skip(1));
        if card_ordering(a[0], b[0]) == 0 {
            crate::deck::lemma_card_determined(a[0], b[0]);
            if a.skip(1) == b.skip(1) {
                assert(a =~= seq![a[0]] + a.skip(1));
                assert(b =~= seq![b[0]] + b.skip(1));
            }
        }
        if a == b {
            assert(card_ordering(a[0], b[0]) == 0);
        }
    }
}

/// The order on card lists is transitive.
pub proof fn lemma_cards_ordering_transitive(a: Seq<Card>, b: Seq<Card>, c: Seq<Card>)
    requires
        cards_ordering(a, b) <= 0,
        cards_ordering(b, c) <= 0,
    ensures
        cards_ordering(a, c) <= 0,
    decreases a.len(),
{
    if a.len() == 0 || b.len() == 0 || c.len() == 0 {
    } else {
        if card_ordering(a[0], b[0]) == 0 && card_ordering(b[0], c[0]) == 0 {
            lemma_cards_ordering_transitive(a.skip(1), b.skip(1), c.skip(1));
        }
    }
}

/// Events compare as equal exactly when they are the same event, and comparing them the other
/// way round gives the opposite answer.
pub proof fn lemma_event_ordering(a: ScoreEventView, b: ScoreEventView)
    ensures
        -1 <= event_ordering(a, b) <= 1,
        event_ordering(a, b) == 0 <==> a == b,
        event_ordering(a, b) == -event_ordering(b, a),
{
    match (a.score_type, b.score_type) {
        (ScoreTypeView::Show(x), ScoreTypeView::Show(y)) => {
            lemma_cards_ordering(x.cards, y.cards);
        },
        _ => {},
    }
}

/// The order on events is transitive.
pub proof fn lemma_event_ordering_transitive(a: ScoreEventView, b: ScoreEventView, c: ScoreEventView)
    requires
        event_le(a, b),
        event_le(b, c),
    ensures
        event_le(a, c),
{
    lemma_event_ordering(a, b);
    lemma_event_ordering(b, c);
    lemma_event_ordering(a, c);
    match (a.score_type, b.score_type, c.score_type) {
        (ScoreTypeView::Show(x), ScoreTypeView::Show(y), ScoreTypeView::Show(z)) => {
            lemma_cards_ordering(x.cards, y.cards);
            lemma_cards_ordering(y.cards, z.cards);
            lemma_cards_ordering(x.cards, z.cards);
            if x.kind == y.kind && y.kind == z.kind {
                if cards_ordering(x.cards, y.cards) <= 0 && cards_ordering(y.cards, z.cards) <= 0 {
                    lemma_cards_ordering_transitive(x.cards, y.cards, z.cards);
                }
            }
        },
        _ => {},
    }
}

/// The canonical order is a total order on events.
pub proof fn lemma_event_order_total()
    ensures
        vstd::relations::total_ordering(event_order()),
{
    let r = event_order();
    assert(vstd::relations::reflexive(r)) by {
        assert forall|x: ScoreEventView| #[trigger] r(x, x) by {
            lemma_event_ordering(x, x);
        }
    }
    assert(vstd::relations::antisymmetric(r)) by {
        assert forall|x: ScoreEventView, y: ScoreEventView| #[trigger]
            r(x, y) && #[trigger] r(y, x) implies x == y by {
            lemma_event_ordering(x, y);
        }
    }
    assert(vstd::relations::transitive(r)) by {
        assert forall|x: ScoreEventView, y: ScoreEventView, z: ScoreEventView| #[trigger]
            r(x, y) && #[trigger] r(y, z) implies r(x, z) by {
            lemma_event_ordering_transitive(x, y, z);
        }
    }
    assert(vstd::relations::strongly_connected(r)) by {
        assert forall|x: ScoreEventView, y: ScoreEventView| #[trigger]
            r(x, y) || #[trigger] r(y, x) by {
            lemma_event_ordering(x, y);
        }
    }
}

impl ShowScoreType {
    /// The kind of this score.
    pub fn kind(&self) -> (kind: ShowKind)
        ensures
            kind == self@.kind,
    {
        match self {
            ShowScoreType::Fifteen(_) => ShowKind::Fifteen,
            ShowScoreType::Pair(_) => ShowKind::Pair,
            ShowScoreType::Triple(_) => ShowKind::Triple,
            ShowScoreType::Quadruple(_) => ShowKind::Quadruple,
            ShowScoreType::Straight(_) => ShowKind::Straight,
            ShowScoreType::FourFlush(_) => ShowKind::FourFlush,
            ShowScoreType::FiveFlush(_) => ShowKind::FiveFlush,
            ShowScoreType::Nobs(_) => ShowKind::Nobs,
        }
    }

    /// The cards that make up this score.
    pub fn cards(&self) -> (cards: &Vec<Card>)
        ensures
            cards@ == self@.cards,
    {
        match self {
            ShowScoreType::Fifteen(cards) => cards,
            ShowScoreType::Pair(cards) => cards,
            ShowScoreType::Triple(cards) => cards,
            ShowScoreType::Quadruple(cards) => cards,
            ShowScoreType::Straight(cards) => cards,
            ShowScoreType::FourFlush(cards) => cards,
            ShowScoreType::FiveFlush(cards) => cards,
            ShowScoreType::Nobs(cards) => cards,
        }
    }

    /// The score of the given kind made up of the given cards.
    pub fn of_kind(kind: ShowKind, cards: Vec<Card>) -> (score: ShowScoreType)
        ensures
            score@ == (ShowScoreView { kind, cards: cards@ }),
    {
        match kind {
            ShowKind::Fifteen => ShowScoreType::Fifteen(cards),
            ShowKind::Pair => ShowScoreType::Pair(cards),
            ShowKind::Triple => ShowScoreType::Triple(cards),
            ShowKind::Quadruple => ShowScoreType::Quadruple(cards),
            ShowKind::Straight => ShowScoreType::Straight(cards),
            ShowKind::FourFlush => ShowScoreType::FourFlush(cards),
            ShowKind::FiveFlush => ShowScoreType::FiveFlush(cards),
            ShowKind::Nobs => ShowScoreType::Nobs(cards),
        }
    }
}

/// The place of a kind of show score in the order of kinds.
fn show_kind_place(kind: ShowKind) -> (r: u8)
    ensures
        r as int == show_kind_key(kind),
{
    match kind {
        ShowKind::Fifteen => 0,
        ShowKind::Pair => 1,
        ShowKind::Triple => 2,
        ShowKind::Quadruple => 3,
        ShowKind::Straight => 4,
        ShowKind::FourFlush => 5,
        ShowKind::FiveFlush => 6,
        ShowKind::Nobs => 7,
    }
}

/// The place of a kind of play score in the order of kinds.
fn play_kind_place(kind: PlayScoreType) -> (r: u16)
    ensures
        r as int == play_kind_key(kind),
{
    match kind {
        PlayScoreType::Nibs => 0,
        PlayScoreType::Pair => 1000,
        PlayScoreType::Triple => 2000,
        PlayScoreType::Quadruple => 3000,
        PlayScoreType::Straight(n) => 4000 + n as u16,
        PlayScoreType::Fifteen => 5000,
        PlayScoreType::ThirtyOne => 6000,
        PlayScoreType::LastCard => 7000,
    }
}

/// How two numbers compare.
fn order_of_numbers(a: u16, b: u16) -> (r: i8)
    ensures
        r as int == sign(a - b),
{
    if a < b {
        -1
    } else if a > b {
        1
    } else {
        0
    }
}

/// How two cards compare in the card order.
pub fn order_of_cards(a: Card, b: Card) -> (r: i8)
    ensures
        r as int == card_ordering(a, b),
{
    let rank_a: u8 = return_value(a);
    let rank_b: u8 = return_value(b);
    if rank_a != rank_b {
        order_of_numbers(rank_a as u16, rank_b as u16)
    } else {
        order_of_numbers(return_suit_value(a.suit) as u16, return_suit_value(b.suit) as u16)
    }
}

/// How two card lists compare in the order of card lists.
pub fn order_of_card_lists(a: &Vec<Card>, b: &Vec<Card>) -> (r: i8)
    ensures
        r as int == cards_ordering(a@, b@),
{
    let mut i: usize = 0;
    assert(a@.skip(0) =~= a@ && b@.skip(0) =~= b@);
    while i < a.len() && i < b.len()
        invariant
            i <= a.len(),
            i <= b.len(),
            cards_ordering(a@, b@) == cards_ordering(a@.skip(i as int), b@.skip(i as int)),
        decreases a.len() - i,
    {
        let c: i8 = order_of_cards(a[i], b[i]);
        assert(a@.skip(i as int)[0] == a@[i as int]);
        assert(b@.skip(i as int)[0] == b@[i as int]);
        if c != 0 {
            return c;
        }
        assert(a@.skip(i as int).skip(1) =~= a@.skip(i as int + 1));
        assert(b@.skip(i as int).skip(1) =~= b@.skip(i as int + 1));
        i += 1;
    }
    if i < b.len() {
        -1
    } else if i < a.len() {
        1
    } else {
        0
    }
}

/// How two score types compare.
fn order_of_score_types(a: &ScoreType, b: &ScoreType) -> (r: i8)
    ensures
        r as int == score_type_ordering(a@, b@),
{
    match a {
        ScoreType::Play(x) => match b {
            ScoreType::Play(y) => order_of_numbers(play_kind_place(*x), play_kind_place(*y)),
            ScoreType::Show(_) => -1,
        },
        ScoreType::Show(x) => match b {
            ScoreType::Play(_) => 1,
            ScoreType::Show(y) => {
                let place_x: u8 = show_kind_place(x.kind());
                let place_y: u8 = show_kind_place(y.kind());
                if place_x != place_y {
                    order_of_numbers(place_x as u16, place_y as u16)
                } else {
                    order_of_card_lists(x.cards(), y.cards())
                }
            },
        },
    }
}

/// How two events compare in the canonical order: -1 where `a` comes first, 0 where they are
/// the same event, 1 where `b` comes first.
pub fn order_of_events(a: &ScoreEvent, b: &ScoreEvent) -> (r: i8)
    ensures
        r as int == event_ordering(a@, b@),
        (r == 0) == (a@ == b@),
{
    proof {
        lemma_event_ordering(a@, b@);
    }
    let by_type: i8 = order_of_score_types(&a.score_type, &b.score_type);
    if by_type != 0 {
        by_type
    } else if a.player_index != b.player_index {
        order_of_numbers(a.player_index as u16, b.player_index as u16)
    } else {
        order_of_numbers(a.point_value as u16, b.point_value as u16)
    }
}

/// Whether two events are the same: same kind, same cards, same player, same points.
pub fn same_event(a: &ScoreEvent, b: &ScoreEvent) -> (r: bool)
    ensures
        r == (a@ == b@),
{
    order_of_events(a, b) == 0
}

/// A copy of a list of cards.
pub fn copy_cards(cards: &Vec<Card>) -> (copy: Vec<Card>)
    ensures
        copy@ == cards@,
{
    let mut copy: Vec<Card> = Vec::new();
    let mut i: usize = 0;
    while i < cards.len()
        invariant
            i <= cards.len(),
            copy@ == cards@.subrange(0, i as int),
        decreases cards.len() - i,
    {
        copy.push(cards[i]);
        assert(copy@ =~= cards@.subrange(0, i as int + 1));
        i += 1;
    }
    assert(cards@.subrange(0, i as int) =~= cards@);
    copy
}

/// A copy of an event.
pub fn copy_event(event: &ScoreEvent) -> (copy: ScoreEvent)
    ensures
        copy@ == event@,
{
    let score_type = match &event.score_type {
        ScoreType::Play(play) => ScoreType::Play(*play),
        ScoreType::Show(show) => ScoreType::Show(
            ShowScoreType::of_kind(show.kind(), copy_cards(show.cards())),
        ),
    };
    ScoreEvent { score_type, player_index: event.player_index, point_value: event.point_value }
}

/// A copy of an event with its cards in the card order.
pub fn canonical_event(event: &ScoreEvent) -> (copy: ScoreEvent)
    ensures
        copy@ == canonical(event@),
{
    let score_type = match &event.score_type {
        ScoreType::Play(play) => ScoreType::Play(*play),
        ScoreType::Show(show) => {
            let mut cards = copy_cards(show.cards());
            sort_cards(&mut cards);
            ScoreType::Show(ShowScoreType::of_kind(show.kind(), cards))
        },
    };
    ScoreEvent { score_type, player_index: event.player_index, point_value: event.point_value }
}

/// A copy of a list of events, each with its cards in the card order.
pub fn canonical_events(events: &Vec<ScoreEvent>) -> (copy: Vec<ScoreEvent>)
    ensures
        copy.deep_view() == canonical_all(events.deep_view()),
{
    let mut copy: Vec<ScoreEvent> = Vec::new();
    let mut i: usize = 0;
    while i < events.len()
        invariant
            i <= events.len(),
            copy.len() == i,
            forall|k: int| 0 <= k < i ==> (#[trigger] copy@[k])@ == canonical(events@[k]@),
        decreases events.len() - i,
    {
        copy.push(canonical_event(&events[i]));
        i += 1;
    }
    assert(copy.deep_view() =~= canonical_all(events.deep_view()));
    copy
}

/// A copy of a list of events.
pub fn copy_events(events: &Vec<ScoreEvent>) -> (copy: Vec<ScoreEvent>)
    ensures
        copy.deep_view() == events.deep_view(),
{
    let mut copy: Vec<ScoreEvent> = Vec::new();
    let mut i: usize = 0;
    while i < events.len()
        invariant
            i <= events.len(),
            copy.len() == i,
            forall|k: int| 0 <= k < i ==> (#[trigger] copy@[k])@ == events@[k]@,
        decreases events.len() - i,
    {
        copy.push(copy_event(&events[i]));
        i += 1;
    }
    assert(copy.deep_view() =~= events.deep_view());
    copy
}

/// The sum of the points of a list of events, where it fits.
pub fn total_points(events: &Vec<ScoreEvent>) -> (total: Option<u8>)
    ensures
        0 <= points_total(events.deep_view()),
        total == (if points_total(events.deep_view()) <= u8::MAX {
            Some(points_total(events.deep_view()) as u8)
        } else {
            None
        }),
{
    proof {
        lemma_points_total_nonnegative(events.deep_view());
    }
    let mut sum: u32 = 0;
    let mut i: usize = 0;
    assert(events.deep_view().subrange(0, 0) =~= Seq::<ScoreEventView>::empty());
    while i < events.len()
        invariant
            i <= events.len(),
            sum == points_total(events.deep_view().subrange(0, i as int)),
            sum <= 255 * i,
            i <= usize::MAX,
        decreases events.len() - i,
    {
        if sum > 0xffff {
            proof {
                lemma_points_total_monotone(events.deep_view(), i as int);
            }
            return None;
        }
        proof {
            let next = events.deep_view().subrange(0, i as int + 1);
            assert(next.drop_last() =~= events.deep_view().subrange(0, i as int));
            assert(next.last() == events[i as int]@);
        }
        sum += events[i].point_value as u32;
        i += 1;
    }
    assert(events.deep_view().subrange(0, i as int) =~= events.deep_view());
    if sum <= 255 {
        Some(sum as u8)
    } else {
        None
    }
}

/// The points of the first events of a list are at most the points of the whole list.
pub proof fn lemma_points_total_monotone(events: Seq<ScoreEventView>, n: int)
    requires
        0 <= n <= events.len(),
    ensures
        0 <= points_total(events.subrange(0, n)) <= points_total(events),
    decreases events.len() - n,
{
    if n == events.len() {
        assert(events.subrange(0, n) =~= events);
        lemma_points_total_nonnegative(events);
    } else {
        lemma_points_total_monotone(events, n + 1);
        let next = events.subrange(0, n + 1);
        assert(next.drop_last() =~= events.subrange(0, n));
        lemma_points_total_nonnegative(events.subrange(0, n));
    }
}

/// A total of points is never negative.
pub proof fn lemma_points_total_nonnegative(events: Seq<ScoreEventView>)
    ensures
        0 <= points_total(events),
    decreases events.len(),
{
    if events.len() > 0 {
        lemma_points_total_nonnegative(events.drop_last());
    }
}

/// Sorts the events into the canonical order.
pub fn sort_events(events: &mut Vec<ScoreEvent>)
    ensures
        final(events).deep_view() == old(events).deep_view().sort_by(event_order()),
        final(events).deep_view().to_multiset() == old(events).deep_view().to_multiset(),
        vstd::relations::sorted_by(final(events).deep_view(), event_order()),
{
    let ghost leq = event_order();
    let ghost given = events.deep_view();
    let mut sorted: Vec<ScoreEvent> = Vec::new();
    proof {
        assert(sorted.deep_view() =~= Seq::<ScoreEventView>::empty());
        sorted.deep_view().to_multiset_ensures();
        assert(sorted.deep_view().to_multiset().add(events.deep_view().to_multiset())
            =~= given.to_multiset());
    }
    while events.len() > 0
        invariant
            leq == event_order(),
            vstd::relations::sorted_by(sorted.deep_view(), leq),
            sorted.deep_view().to_multiset().add(events.deep_view().to_multiset())
                == given.to_multiset(),
        decreases events.len(),
    {
        let ghost rest_before = events.deep_view();
        let ghost before = sorted.deep_view();
        let event = events.pop().unwrap();
        let mut at: usize = 0;
        while at < sorted.len() && order_of_events(&sorted[at], &event) <= 0
            invariant
                at <= sorted.len(),
                leq == event_order(),
                forall|k: int| 0 <= k < at ==> leq(#[trigger] sorted.deep_view()[k], event@),
            decreases sorted.len() - at,
        {
            at += 1;
        }
        proof {
            lemma_event_order_total();
            let after = before.insert(at as int, event@);
            assert(vstd::relations::sorted_by(after, leq)) by {
                assert forall|a: int, b: int| 0 <= a < b < after.len() implies leq(
                    after[a],
                    after[b],
                ) by {
                    if b == at as int {
                        assert(leq(before[a], event@));
                    } else if a == at as int {
                        lemma_event_ordering(before[at as int], event@);
                        assert(leq(event@, before[at as int]));
                        if b - 1 > at as int {
                            assert(leq(before[at as int], before[b - 1]));
                        }
                        assert(leq(event@, before[b - 1]));
                    } else {
                        let a0 = if a < at as int { a } else { a - 1 };
                        let b0 = if b < at as int { b } else { b - 1 };
                        assert(leq(before[a0], before[b0]));
                    }
                }
            }
            vstd::seq_lib::to_multiset_insert(before, at as int, event@);
            assert(rest_before =~= events.deep_view().push(event@));
            vstd::seq_lib::to_multiset_build(events.deep_view(), event@);
        }
        sorted.insert(at, event);
        proof {
            assert(sorted.deep_view() =~= before.insert(at as int, event@));
            assert(sorted.deep_view().to_multiset().add(events.deep_view().to_multiset())
                =~= given.to_multiset());
        }
    }
    proof {
        lemma_event_order_total();
        assert(events.deep_view() =~= Seq::<ScoreEventView>::empty());
        events.deep_view().to_multiset_ensures();
        assert(sorted.deep_view().to_multiset() =~= given.to_multiset());
        given.lemma_sort_by_ensures(leq);
        vstd::seq_lib::lemma_sorted_unique(sorted.deep_view(), given.sort_by(leq), leq);
    }
    *events = sorted;
}

} // verus!
