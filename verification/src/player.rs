//! The two players: a name, a hand and the books laid down so far.

use vstd::prelude::*;
use vstd::relations::{sorted_by, total_ordering};
use vstd::seq_lib::*;
use vstd::string::*;
use crate::card::{Book, Card};

verus! {

/// One of the two players of a game.
pub struct Player {
    pub name: String,
    pub is_cpu: bool,
    pub cards: Vec<Card>,
    pub books: Vec<Book>,
}

/// A player as the contracts see one: the name as text, the hand and the books
/// as sequences, oldest first.
pub struct PlayerView {
    pub name: Seq<char>,
    pub is_cpu: bool,
    pub cards: Seq<Card>,
    pub books: Seq<Book>,
}

impl View for Player {
    type V = PlayerView;

    open spec fn view(&self) -> PlayerView {
        PlayerView {
            name: self.name@,
            is_cpu: self.is_cpu,
            cards: self.cards@,
            books: self.books@,
        }
    }
}

/// Whether `a` is shown before `b`, or is the same card: hearts come first, then
/// diamonds, spades and clubs, and within a suit the lower face value.
pub open spec fn shown_before(a: Card, b: Card) -> bool {
    a.rank.id() < b.rank.id() || (a.rank.id() == b.rank.id() && a.number <= b.number)
}

/// The order in which a hand is shown, as a relation.
pub open spec fn display_leq() -> spec_fn(Card, Card) -> bool {
    |a: Card, b: Card| shown_before(a, b)
}

/// The cards of a hand in the order in which they are shown: sorted by suit,
/// then by face value.
pub open spec fn display_order(cards: Seq<Card>) -> Seq<Card> {
    cards.sort_by(display_leq())
}

/// The order in which a hand is shown is a total order of the cards.
pub proof fn lemma_display_leq_total()
    ensures
        total_ordering(display_leq()),
{
}

/// A hand shown in order is sorted, and holds the cards of the hand, each as
/// often as the hand does.
pub proof fn lemma_display_order_sorted(cards: Seq<Card>)
    ensures
        sorted_by(display_order(cards), display_leq()),
        display_order(cards).to_multiset() == cards.to_multiset(),
        display_order(cards).len() == cards.len(),
{
    lemma_display_leq_total();
    cards.lemma_sort_by_ensures(display_leq());
    to_multiset_len(cards);
    to_multiset_len(display_order(cards));
}

/// No sorted row of the cards of a hand but the hand shown in order.
pub proof fn lemma_display_order(cards: Seq<Card>, sorted: Seq<Card>)
    requires
        sorted_by(sorted, display_leq()),
        sorted.to_multiset() == cards.to_multiset(),
    ensures
        sorted == display_order(cards),
{
    lemma_display_leq_total();
    cards.lemma_sort_by_ensures(display_leq());
    lemma_sorted_unique(sorted, display_order(cards), display_leq());
}

/// Whether `a` is shown before `b`, or is the same card.
pub fn comes_first(a: &Card, b: &Card) -> (first: bool)
    ensures
        first == shown_before(*a, *b),
{
    let a_rank_num = a.rank.get_rank_id();
    let b_rank_num = b.rank.get_rank_id();
    a_rank_num < b_rank_num || (a_rank_num == b_rank_num && a.number <= b.number)
}

/// The cards in the order in which they are shown.
pub fn sorted_for_display(cards: &Vec<Card>) -> (sorted: Vec<Card>)
    ensures
        sorted@ == display_order(cards@),
{
    let mut sorted: Vec<Card> = Vec::new();
    let mut i: usize = 0;
    assert(cards@.take(0) =~= sorted@);
    while i < cards.len()
        invariant
            i <= cards@.len(),
            sorted_by(sorted@, display_leq()),
            sorted@.to_multiset() == cards@.take(i as int).to_multiset(),
        decreases cards@.len() - i,
    {
        let card = cards[i];
        let mut at: usize = 0;
        while at < sorted.len() && comes_first(&sorted[at], &card)
            invariant
                at <= sorted@.len(),
                forall|k: int| 0 <= k < at ==> shown_before(#[trigger] sorted@[k], card),
            decreases sorted@.len() - at,
        {
            at = at + 1;
        }
        let ghost before = sorted@;
        sorted.insert(at, card);
        proof {
            assert(cards@.take(i + 1) =~= cards@.take(i as int).push(card));
            to_multiset_build(cards@.take(i as int), card);
            to_multiset_insert(before, at as int, card);
            assert forall|a: int, b: int| 0 <= a < b < sorted@.len() implies display_leq()(
                sorted@[a],
                sorted@[b],
            ) by {
                if a == at && b - 1 > at {
                    assert(display_leq()(before[at as int], before[b - 1]));
                }
            }
        }
        i = i + 1;
    }
    proof {
        assert(cards@.take(cards@.len() as int) =~= cards@);
        lemma_display_order(cards@, sorted@);
    }
    sorted
}

impl Player {
    /// A human player of the given name, with no card and no book.
    pub fn new(name: &String) -> (player: Player)
        ensures
            player@ == (PlayerView {
                name: name@,
                is_cpu: false,
                cards: Seq::empty(),
                books: Seq::empty(),
            }),
    {
        Player {
            name: name.clone(),
            is_cpu: false,
            cards: Vec::with_capacity(52),
            books: Vec::with_capacity(13),
        }
    }

    /// The computer opponent, with no card and no book.
    pub fn new_cpu() -> (player: Player)
        ensures
            player@ == (PlayerView {
                name: "Computer"@,
                is_cpu: true,
                cards: Seq::empty(),
                books: Seq::empty(),
            }),
    {
        Player {
            name: String::from_str("Computer"),
            is_cpu: true,
            cards: Vec::with_capacity(52),
            books: Vec::with_capacity(13),
        }
    }

    /// The labels of the cards of the hand, in the order in which the hand is
    /// shown.
    pub fn get_card_labels(&self) -> (labels: Vec<String>)
        ensures
            labels@.len() == self@.cards.len(),
            forall|i: int|
                0 <= i < labels@.len() ==> (#[trigger] labels@[i])@ == display_order(
                    self@.cards,
                )[i].label(),
    {
        let all_cards = sorted_for_display(&self.cards);
        proof {
            lemma_display_order_sorted(self@.cards);
        }
        let mut labels: Vec<String> = Vec::new();
        let mut i: usize = 0;
        while i < all_cards.len()
            invariant
                i <= all_cards@.len(),
                labels@.len() == i,
                forall|k: int| 0 <= k < i ==> (#[trigger] labels@[k])@ == all_cards@[k].label(),
            decreases all_cards@.len() - i,
        {
            labels.push(all_cards[i].get_label());
            i = i + 1;
        }
        labels
    }
}

} // verus!
