//! What a hand holds of one face value: the counting and the filtering that the
//! rules of the game are stated with.

use vstd::multiset::*;
use vstd::prelude::*;
use vstd::seq_lib::*;
use crate::card::{Card, CardRank};

verus! {

/// The cards of `cards` with face value `number`, in their order in `cards`.
pub open spec fn of_rank(cards: Seq<Card>, number: u8) -> Seq<Card> {
    cards.filter(|c: Card| c.number == number)
}

/// The cards of `cards` with another face value than `number`, in their order
/// in `cards`.
pub open spec fn without_rank(cards: Seq<Card>, number: u8) -> Seq<Card> {
    cards.filter(|c: Card| c.number != number)
}

/// How many cards of `cards` have face value `number`.
pub open spec fn rank_count(cards: Seq<Card>, number: u8) -> nat {
    of_rank(cards, number).len()
}

/// Whether `cards` holds a card of face value `number`.
pub open spec fn holds_rank(cards: Seq<Card>, number: u8) -> bool {
    rank_count(cards, number) > 0
}

/// A card added at the end of a hand comes last among the cards of its face
/// value, and last among the cards without a face value that is not its own.
pub proof fn lemma_rank_push(cards: Seq<Card>, card: Card, number: u8)
    ensures
        of_rank(cards.push(card), number) == if card.number == number {
            of_rank(cards, number).push(card)
        } else {
            of_rank(cards, number)
        },
        without_rank(cards.push(card), number) == if card.number != number {
            without_rank(cards, number).push(card)
        } else {
            without_rank(cards, number)
        },
{
    cards.lemma_filter_push(card, |c: Card| c.number == number);
    cards.lemma_filter_push(card, |c: Card| c.number != number);
}

/// An empty hand holds no card of any face value.
pub proof fn lemma_rank_empty(number: u8)
    ensures
        of_rank(Seq::empty(), number) == Seq::<Card>::empty(),
        without_rank(Seq::empty(), number) == Seq::<Card>::empty(),
{
}

/// One more card of the hand taken into account.
pub proof fn lemma_rank_take(cards: Seq<Card>, i: int, number: u8)
    requires
        0 <= i < cards.len(),
    ensures
        of_rank(cards.take(i + 1), number) == if cards[i].number == number {
            of_rank(cards.take(i), number).push(cards[i])
        } else {
            of_rank(cards.take(i), number)
        },
        without_rank(cards.take(i + 1), number) == if cards[i].number != number {
            without_rank(cards.take(i), number).push(cards[i])
        } else {
            without_rank(cards.take(i), number)
        },
{
    assert(cards.take(i + 1) =~= cards.take(i).push(cards[i]));
    lemma_rank_push(cards.take(i), cards[i], number);
}

/// Every card is either of the face value or not: the two parts make up the hand.
pub proof fn lemma_rank_split(cards: Seq<Card>, number: u8)
    ensures
        of_rank(cards, number).len() + without_rank(cards, number).len() == cards.len(),
    decreases cards.len(),
{
    if cards.len() > 0 {
        lemma_rank_split(cards.drop_last(), number);
        lemma_rank_push(cards.drop_last(), cards.last(), number);
        assert(cards.drop_last().push(cards.last()) =~= cards);
    }
}

/// A hand holds a face value exactly when one of its cards has it.
pub proof fn lemma_holds_rank(cards: Seq<Card>, number: u8)
    ensures
        holds_rank(cards, number) <==> exists|i: int|
            0 <= i < cards.len() && (#[trigger] cards[i]).number == number,
    decreases cards.len(),
{
    if cards.len() > 0 {
        let front = cards.drop_last();
        lemma_holds_rank(front, number);
        lemma_rank_push(front, cards.last(), number);
        assert(front.push(cards.last()) =~= cards);
    }
}

/// How often the cards `cards` hold the four cards of face value `number`,
/// taken together.
pub open spec fn count_by_suit(cards: Multiset<Card>, number: u8) -> nat {
    cards.count(Card { rank: CardRank::Heart, number }) + cards.count(
        Card { rank: CardRank::Diamond, number },
    ) + cards.count(Card { rank: CardRank::Spade, number }) + cards.count(
        Card { rank: CardRank::Clover, number },
    )
}

/// The cards of one face value are the cards of its four suits.
pub proof fn lemma_rank_count_by_suit(cards: Seq<Card>, number: u8)
    ensures
        rank_count(cards, number) == count_by_suit(cards.to_multiset(), number),
    decreases cards.len(),
{
    if cards.len() == 0 {
        to_multiset_len(cards);
    } else {
        let front = cards.drop_last();
        let card = cards.last();
        lemma_rank_count_by_suit(front, number);
        lemma_rank_push(front, card, number);
        assert(front.push(card) =~= cards);
        to_multiset_build(front, card);
    }
}

/// A selection of cards holds a card as often as the hand does if the card is
/// selected, and not at all if it is not.
pub proof fn lemma_filter_count(cards: Seq<Card>, keep: spec_fn(Card) -> bool, card: Card)
    ensures
        cards.filter(keep).to_multiset().count(card) == if keep(card) {
            cards.to_multiset().count(card)
        } else {
            0nat
        },
    decreases cards.len(),
{
    if cards.len() == 0 {
        to_multiset_len(cards);
        to_multiset_len(cards.filter(keep));
    } else {
        let front = cards.drop_last();
        let last = cards.last();
        lemma_filter_count(front, keep, card);
        front.lemma_filter_push(last, keep);
        assert(front.push(last) =~= cards);
        to_multiset_build(front, last);
        to_multiset_build(front.filter(keep), last);
    }
}

/// Two selections that agree on every card of the hand select the same cards.
pub proof fn lemma_filter_agree(
    cards: Seq<Card>,
    keep: spec_fn(Card) -> bool,
    other: spec_fn(Card) -> bool,
)
    requires
        forall|i: int| 0 <= i < cards.len() ==> keep(#[trigger] cards[i]) == other(cards[i]),
    ensures
        cards.filter(keep) == cards.filter(other),
    decreases cards.len(),
{
    reveal(Seq::filter);
    if cards.len() > 0 {
        let front = cards.drop_last();
        lemma_filter_agree(front, keep, other);
    }
}

/// A longer hand holds no fewer cards of a face value.
pub proof fn lemma_rank_count_grows(cards: Seq<Card>, number: u8)
    requires
        cards.len() > 0,
    ensures
        rank_count(cards.drop_last(), number) <= rank_count(cards, number),
        rank_count(cards, number) == rank_count(cards.drop_last(), number) + if cards.last().number
            == number {
            1nat
        } else {
            0nat
        },
{
    lemma_rank_push(cards.drop_last(), cards.last(), number);
    assert(cards.drop_last().push(cards.last()) =~= cards);
}

/// How many cards of the hand have face value `number`.
pub fn count_rank(cards: &Vec<Card>, number: u8) -> (count: usize)
    ensures
        count == rank_count(cards@, number),
{
    let mut count: usize = 0;
    let mut i: usize = 0;
    while i < cards.len()
        invariant
            i <= cards@.len(),
            count == rank_count(cards@.take(i as int), number),
            count <= i,
        decreases cards@.len() - i,
    {
        proof {
            lemma_rank_take(cards@, i as int, number);
        }
        if cards[i].number == number {
            count = count + 1;
        }
        i = i + 1;
    }
    assert(cards@.take(cards@.len() as int) =~= cards@);
    count
}

/// The cards of the hand with face value `number`, in their order in the hand.
pub fn cards_of_rank(cards: &Vec<Card>, number: u8) -> (found: Vec<Card>)
    ensures
        found@ == of_rank(cards@, number),
{
    let mut found: Vec<Card> = Vec::new();
    let mut i: usize = 0;
    while i < cards.len()
        invariant
            i <= cards@.len(),
            found@ == of_rank(cards@.take(i as int), number),
        decreases cards@.len() - i,
    {
        proof {
            lemma_rank_take(cards@, i as int, number);
        }
        if cards[i].number == number {
            found.push(cards[i]);
        }
        i = i + 1;
    }
    assert(cards@.take(cards@.len() as int) =~= cards@);
    found
}

/// Takes every card of face value `number` out of the hand and keeps the
/// others in their order.
pub fn discard_rank(cards: &mut Vec<Card>, number: u8)
    ensures
        final(cards)@ == without_rank(old(cards)@, number),
{
    let mut kept: Vec<Card> = Vec::new();
    let mut i: usize = 0;
    while i < cards.len()
        invariant
            i <= cards@.len(),
            cards@ == old(cards)@,
            kept@ == without_rank(cards@.take(i as int), number),
        decreases cards@.len() - i,
    {
        proof {
            lemma_rank_take(cards@, i as int, number);
        }
        if cards[i].number != number {
            kept.push(cards[i]);
        }
        i = i + 1;
    }
    assert(cards@.take(cards@.len() as int) =~= cards@);
    *cards = kept;
}

} // verus!
