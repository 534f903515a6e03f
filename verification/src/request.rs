//! Which face value a player asks for: the computer's choice from its own
//! hand, and the reading of what the human player typed.

use vstd::prelude::*;
use crate::card::Card;
use crate::hand::{count_rank, holds_rank, lemma_holds_rank, rank_count};
use crate::player::Player;

verus! {

/// Whether the computer prefers to ask for `number` rather than for `other`:
/// it holds fewer cards of it, or as many and `number` is the lower value.
pub open spec fn prefers(cards: Seq<Card>, number: u8, other: u8) -> bool {
    rank_count(cards, number) < rank_count(cards, other) || (rank_count(cards, number)
        == rank_count(cards, other) && number <= other)
}

/// Whether `number` is what the computer asks for with the hand `cards`: of the
/// face values in its hand the one it holds the fewest cards of, and of several
/// such the lowest. With an empty hand it asks for the two.
pub open spec fn is_cpu_request(cards: Seq<Card>, number: u8) -> bool {
    if cards.len() == 0 {
        number == 2
    } else {
        &&& holds_rank(cards, number)
        &&& forall|other: u8| #[trigger] holds_rank(cards, other) ==> prefers(cards, number, other)
    }
}

/// The face value that the computer asks for with the hand `cards`.
pub open spec fn cpu_request(cards: Seq<Card>) -> u8 {
    choose|number: u8| is_cpu_request(cards, number)
}

/// The computer's choice is unique.
pub proof fn lemma_cpu_request_unique(cards: Seq<Card>, a: u8, b: u8)
    requires
        is_cpu_request(cards, a),
        is_cpu_request(cards, b),
    ensures
        a == b,
{
}

/// What answers the description of the computer's choice is the computer's
/// choice.
pub proof fn lemma_cpu_request(cards: Seq<Card>, number: u8)
    requires
        is_cpu_request(cards, number),
    ensures
        cpu_request(cards) == number,
{
    lemma_cpu_request_unique(cards, number, cpu_request(cards));
}

/// The face value that the computer asks its opponent for.
pub fn get_cpu_requesting_card_value(player: &Player) -> (value: u8)
    ensures
        value == cpu_request(player@.cards),
        is_cpu_request(player@.cards, value),
{
    let cards = &player.cards;
    if cards.len() == 0 {
        proof {
            lemma_cpu_request(cards@, 2);
        }
        return 2;
    }
    let mut best: u8 = cards[0].number;
    let mut best_count: usize = count_rank(cards, best);
    let mut i: usize = 1;
    proof {
        lemma_holds_rank(cards@, best);
    }
    while i < cards.len()
        invariant
            1 <= i <= cards@.len(),
            holds_rank(cards@, best),
            best_count == rank_count(cards@, best),
            forall|j: int| 0 <= j < i ==> prefers(cards@, best, (#[trigger] cards@[j]).number),
        decreases cards@.len() - i,
    {
        let number = cards[i].number;
        let count = count_rank(cards, number);
        if count < best_count || (count == best_count && number < best) {
            proof {
                lemma_holds_rank(cards@, number);
            }
            best = number;
            best_count = count;
        }
        i = i + 1;
    }
    proof {
        assert forall|other: u8| #[trigger] holds_rank(cards@, other) implies prefers(
            cards@,
            best,
            other,
        ) by {
            lemma_holds_rank(cards@, other);
            let j = choose|j: int| 0 <= j < cards@.len() && (#[trigger] cards@[j]).number == other;
        }
        lemma_cpu_request(cards@, best);
    }
    best
}

} // verus!
