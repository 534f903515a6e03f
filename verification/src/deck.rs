//! The deck of 52 cards and the drawing of cards from it at random.

use vstd::prelude::*;
use rand::Rng;
use crate::accounting::lemma_deal_keeps_cards;
use crate::card::{Card, CardRank};
use crate::player::{Player, PlayerView};

verus! {

/// The suits in the order in which a fresh deck holds them.
pub open spec fn suit_at(k: int) -> CardRank {
    if k == 0 {
        CardRank::Heart
    } else if k == 1 {
        CardRank::Diamond
    } else if k == 2 {
        CardRank::Spade
    } else {
        CardRank::Clover
    }
}

/// The fresh deck: suit by suit, and within a suit from the two up to the ace.
pub open spec fn full_deck() -> Seq<Card> {
    Seq::new(52, |i: int| Card { rank: suit_at(i / 13), number: (2 + i % 13) as u8 })
}

/// A fresh deck of 52 cards, one for each suit and face value.
pub fn generate_deck() -> (deck: Vec<Card>)
    ensures
        deck@ == full_deck(),
{
    let all_ranks: [CardRank; 4] = [
        CardRank::Heart,
        CardRank::Diamond,
        CardRank::Spade,
        CardRank::Clover,
    ];
    let mut deck: Vec<Card> = Vec::new();
    let mut suit: usize = 0;
    while suit < 4
        invariant
            suit <= 4,
            deck@.len() == 13 * suit,
            forall|k: int| 0 <= k < 4 ==> all_ranks[k] == suit_at(k),
            forall|i: int| 0 <= i < deck@.len() ==> deck@[i] == full_deck()[i],
        decreases 4 - suit,
    {
        let rank = all_ranks[suit];
        let mut number: u8 = 2;
        while number < 15
            invariant
                suit < 4,
                2 <= number <= 15,
                rank == suit_at(suit as int),
                deck@.len() == 13 * suit + (number - 2),
                forall|i: int| 0 <= i < deck@.len() ==> deck@[i] == full_deck()[i],
            decreases 15 - number,
        {
            deck.push(Card { rank, number });
            number = number + 1;
        }
        suit = suit + 1;
    }
    deck
}

/// Whether `picks` can be drawn one after another from a deck of `len` cards:
/// each pick is a position in the deck as the picks before it have left it.
pub open spec fn picks_fit(len: nat, picks: Seq<int>) -> bool {
    forall|j: int| 0 <= j < picks.len() ==> 0 <= #[trigger] picks[j] < len - j
}

/// The deck that is left when the cards at `picks` have been drawn from `deck`
/// one after another.
pub open spec fn deck_after(deck: Seq<Card>, picks: Seq<int>) -> Seq<Card>
    decreases picks.len(),
{
    if picks.len() == 0 {
        deck
    } else {
        deck_after(deck, picks.drop_last()).remove(picks.last())
    }
}

/// The cards drawn from `deck` at `picks`, in the order in which they were drawn.
pub open spec fn drawn_cards(deck: Seq<Card>, picks: Seq<int>) -> Seq<Card>
    decreases picks.len(),
{
    if picks.len() == 0 {
        Seq::empty()
    } else {
        drawn_cards(deck, picks.drop_last()).push(
            deck_after(deck, picks.drop_last())[picks.last()],
        )
    }
}

/// One pick takes one card out of the deck.
pub proof fn lemma_one_pick(deck: Seq<Card>, picks: Seq<int>)
    requires
        picks.len() == 1,
    ensures
        deck_after(deck, picks) == deck.remove(picks[0]),
        drawn_cards(deck, picks) == seq![deck[picks[0]]],
{
    reveal_with_fuel(deck_after, 2);
    reveal_with_fuel(drawn_cards, 2);
}

/// A position in a deck of `len` cards, chosen by `rand::Rng::gen_range` on the
/// generator of the current thread, `rand::thread_rng`. Taken on trust: the
/// position lies below `len`. Nothing is said of which position comes back.
/// `gen_range` panics on an empty range, so the deck must hold a card.
#[verifier::external_body]
fn random_index(len: usize) -> (index: usize)
    requires
        len > 0,
    ensures
        index < len,
{
    rand::thread_rng().gen_range(0, len)
}

/// Moves the card at `index` of the deck to the end of the player's hand.
pub fn take_card(deck: &mut Vec<Card>, player: &mut Player, index: usize)
    requires
        index < old(deck)@.len(),
    ensures
        final(deck)@ == old(deck)@.remove(index as int),
        final(player)@ == (PlayerView {
            cards: old(player)@.cards.push(old(deck)@[index as int]),
            ..old(player)@
        }),
{
    let card = deck.remove(index);
    player.cards.push(card);
}

/// Draws `num_cards` cards from the deck at random, without putting any back,
/// and adds them to the player's hand in the order drawn. A deck that holds
/// fewer cards than asked for is exhausted: nothing is drawn from it.
pub fn give_random_card(deck: &mut Vec<Card>, player: &mut Player, num_cards: u8) -> (dealt: bool)
    ensures
        dealt == (num_cards <= old(deck)@.len()),
        !dealt ==> final(deck)@ == old(deck)@ && final(player)@ == old(player)@,
        dealt ==> exists|picks: Seq<int>|
            {
                &&& picks.len() == num_cards
                &&& picks_fit(old(deck)@.len(), picks)
                &&& final(deck)@ == #[trigger] deck_after(old(deck)@, picks)
                &&& final(player)@ == (PlayerView {
                    cards: old(player)@.cards + drawn_cards(old(deck)@, picks),
                    ..old(player)@
                })
            },
        dealt ==> final(deck)@.len() == old(deck)@.len() - num_cards,
        dealt ==> final(player)@.cards.len() == old(player)@.cards.len() + num_cards,
        final(deck)@.to_multiset().add(final(player)@.cards.to_multiset())
            == old(deck)@.to_multiset().add(old(player)@.cards.to_multiset()),
{
    if num_cards as usize > deck.len() {
        return false;
    }
    let ghost mut picks: Seq<int> = Seq::empty();
    let mut given: u8 = 0;
    while given < num_cards
        invariant
            given <= num_cards,
            num_cards <= old(deck)@.len(),
            picks.len() == given,
            picks_fit(old(deck)@.len(), picks),
            deck@ == deck_after(old(deck)@, picks),
            deck@.len() == old(deck)@.len() - given,
            player@ == (PlayerView {
                cards: old(player)@.cards + drawn_cards(old(deck)@, picks),
                ..old(player)@
            }),
        decreases num_cards - given,
    {
        let index = random_index(deck.len());
        let ghost before = picks;
        proof {
            picks = picks.push(index as int);
            assert(picks.drop_last() =~= before);
        }
        take_card(deck, player, index);
        given = given + 1;
    }
    proof {
        lemma_deal_keeps_cards(old(deck)@, old(player)@.cards, picks);
    }
    true
}

} // verus!
