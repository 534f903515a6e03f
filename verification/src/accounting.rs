//! Every card is accounted for: the deck, the two hands and the books laid down
//! hold, between them, each card of the deck of 52 exactly once.

use vstd::multiset::*;
use vstd::prelude::*;
use vstd::seq_lib::*;
use crate::books::{books_of_rank, completed_books, left_in_hand, lemma_completed_once, stays_in};
use crate::card::{Book, Card, CardRank};
use crate::deck::{deck_after, drawn_cards, full_deck, picks_fit};
use crate::hand::{
    lemma_filter_count, lemma_rank_count_by_suit, lemma_rank_empty, lemma_rank_push, of_rank,
    without_rank,
};
use crate::player::PlayerView;

verus! {

/// The four cards of the face value `number`.
pub open spec fn book_of(number: u8) -> Multiset<Card> {
    Multiset::empty().insert(Card { rank: CardRank::Heart, number }).insert(
        Card { rank: CardRank::Diamond, number },
    ).insert(Card { rank: CardRank::Spade, number }).insert(
        Card { rank: CardRank::Clover, number },
    )
}

/// The cards that the books `books` are made of.
pub open spec fn book_cards(books: Seq<Book>) -> Multiset<Card>
    decreases books.len(),
{
    if books.len() == 0 {
        Multiset::empty()
    } else {
        book_cards(books.drop_last()).add(book_of(books.last().number))
    }
}

/// The cards that a player has: those in the hand and those laid down in books.
pub open spec fn cards_of(player: PlayerView) -> Multiset<Card> {
    player.cards.to_multiset().add(book_cards(player.books))
}

/// The cards of a game: those of the deck and those of the two players.
pub open spec fn cards_of_game(deck: Seq<Card>, a: PlayerView, b: PlayerView) -> Multiset<Card> {
    deck.to_multiset().add(cards_of(a)).add(cards_of(b))
}

/// Whether every card is accounted for: the cards of the game are those of the
/// fresh deck, each exactly once.
pub open spec fn accounted(deck: Seq<Card>, a: PlayerView, b: PlayerView) -> bool {
    cards_of_game(deck, a, b) == full_deck().to_multiset()
}

/// A book holds each card of its face value once, and no other card.
pub proof fn lemma_book_of(number: u8, card: Card)
    ensures
        book_of(number).count(card) == if card.number == number {
            1nat
        } else {
            0nat
        },
        book_of(number).len() == 4,
{
}

/// Books hold four cards each; a card lies in as many of them as are of its
/// face value.
pub proof fn lemma_book_cards(books: Seq<Book>, card: Card)
    ensures
        book_cards(books).len() == 4 * books.len(),
        book_cards(books).count(card) == books_of_rank(books, card.number),
    decreases books.len(),
{
    if books.len() > 0 {
        lemma_book_cards(books.drop_last(), card);
        lemma_book_of(books.last().number, card);
    }
}

/// The cards of two rows of books are those of the one and those of the other.
pub proof fn lemma_book_cards_add(earlier: Seq<Book>, later: Seq<Book>)
    ensures
        book_cards(earlier + later) == book_cards(earlier).add(book_cards(later)),
    decreases later.len(),
{
    if later.len() > 0 {
        lemma_book_cards_add(earlier, later.drop_last());
        assert((earlier + later).drop_last() =~= earlier + later.drop_last());
    }
}

/// The fresh deck holds a card once if its face value is one, and not at all
/// if it is none; it holds 52 cards.
pub proof fn lemma_full_deck(card: Card)
    ensures
        full_deck().len() == 52,
        full_deck().to_multiset().len() == 52,
        full_deck().no_duplicates(),
        full_deck().to_multiset().count(card) == if card.valid() {
            1nat
        } else {
            0nat
        },
{
    let deck = full_deck();
    deck.lemma_multiset_has_no_duplicates();
    deck.to_multiset_ensures();
    if card.valid() {
        let k: int = match card.rank {
            CardRank::Heart => 0,
            CardRank::Diamond => 1,
            CardRank::Spade => 2,
            CardRank::Clover => 3,
        };
        let i = 13 * k + (card.number - 2);
        assert(deck[i] == card);
    }
}

/// Where every card is accounted for, the cards of the deck, of the two hands
/// and of the books, four to a book, are 52 in all.
pub proof fn lemma_accounted_total(deck: Seq<Card>, a: PlayerView, b: PlayerView)
    requires
        accounted(deck, a, b),
    ensures
        deck.len() + a.cards.len() + b.cards.len() + 4 * (a.books.len() + b.books.len()) == 52,
{
    let any = Card { rank: CardRank::Heart, number: 2 };
    lemma_full_deck(any);
    lemma_book_cards(a.books, any);
    lemma_book_cards(b.books, any);
    to_multiset_len(deck);
    to_multiset_len(a.cards);
    to_multiset_len(b.cards);
}

/// Where every card is accounted for, no hand and no deck holds a card twice,
/// nor a card that the other holds.
pub proof fn lemma_accounted_once(deck: Seq<Card>, a: PlayerView, b: PlayerView, card: Card)
    requires
        accounted(deck, a, b),
    ensures
        deck.to_multiset().count(card) + a.cards.to_multiset().count(card)
            + b.cards.to_multiset().count(card) + books_of_rank(a.books, card.number)
            + books_of_rank(b.books, card.number) == if card.valid() {
            1nat
        } else {
            0nat
        },
{
    lemma_full_deck(card);
    lemma_book_cards(a.books, card);
    lemma_book_cards(b.books, card);
}

/// A fresh deck and two players without a card or a book: every card is
/// accounted for.
pub proof fn lemma_fresh_game_accounted(a: PlayerView, b: PlayerView)
    requires
        a.cards.len() == 0,
        a.books.len() == 0,
        b.cards.len() == 0,
        b.books.len() == 0,
    ensures
        accounted(full_deck(), a, b),
{
    a.cards.to_multiset_ensures();
    b.cards.to_multiset_ensures();
    assert(cards_of_game(full_deck(), a, b) =~= full_deck().to_multiset());
}

/// A card drawn from the deck into a hand is lost to neither.
pub proof fn lemma_draw_keeps_cards(deck: Seq<Card>, hand: Seq<Card>, pick: int)
    requires
        0 <= pick < deck.len(),
    ensures
        deck.remove(pick).to_multiset().add(hand.push(deck[pick]).to_multiset())
            == deck.to_multiset().add(hand.to_multiset()),
{
    to_multiset_build(hand, deck[pick]);
    deck.to_multiset_ensures();
}

/// Cards drawn one after another from the deck into a hand are lost to neither.
pub proof fn lemma_deal_keeps_cards(deck: Seq<Card>, hand: Seq<Card>, picks: Seq<int>)
    requires
        picks_fit(deck.len(), picks),
        picks.len() <= deck.len(),
    ensures
        deck_after(deck, picks).len() == deck.len() - picks.len(),
        drawn_cards(deck, picks).len() == picks.len(),
        deck_after(deck, picks).to_multiset().add((hand + drawn_cards(deck, picks)).to_multiset())
            == deck.to_multiset().add(hand.to_multiset()),
    decreases picks.len(),
{
    if picks.len() > 0 {
        let earlier = picks.drop_last();
        lemma_deal_keeps_cards(deck, hand, earlier);
        let rest = deck_after(deck, earlier);
        let pick = picks.last();
        lemma_draw_keeps_cards(rest, hand + drawn_cards(deck, earlier), pick);
    }
}

/// Sorting the cards of a hand into those of one face value and the others
/// loses none.
pub proof fn lemma_rank_split_keeps_cards(cards: Seq<Card>, number: u8)
    ensures
        of_rank(cards, number).to_multiset().add(without_rank(cards, number).to_multiset())
            == cards.to_multiset(),
    decreases cards.len(),
{
    if cards.len() == 0 {
        lemma_rank_empty(number);
        assert(cards =~= Seq::empty());
        to_multiset_len(cards);
    } else {
        let front = cards.drop_last();
        let card = cards.last();
        lemma_rank_split_keeps_cards(front, number);
        lemma_rank_push(front, card, number);
        assert(front.push(card) =~= cards);
        to_multiset_build(front, card);
        to_multiset_build(of_rank(front, number), card);
        to_multiset_build(without_rank(front, number), card);
    }
}

/// Cards of one face value handed from a hand to another are lost to neither.
pub proof fn lemma_transfer_keeps_cards(to: Seq<Card>, from: Seq<Card>, number: u8)
    ensures
        (to + of_rank(from, number)).to_multiset().add(without_rank(from, number).to_multiset())
            == to.to_multiset().add(from.to_multiset()),
{
    lemma_rank_split_keeps_cards(from, number);
    lemma_multiset_commutative(to, of_rank(from, number));
}

/// The books that a hand without a duplicate card completes are made of the
/// cards that leave the hand: laying them down loses no card.
pub proof fn lemma_books_keep_cards(cards: Seq<Card>)
    requires
        cards.no_duplicates(),
    ensures
        left_in_hand(cards).to_multiset().add(book_cards(completed_books(cards)))
            == cards.to_multiset(),
{
    let left = left_in_hand(cards).to_multiset();
    let laid = book_cards(completed_books(cards));
    cards.lemma_multiset_has_no_duplicates();
    assert forall|card: Card| left.count(card) + laid.count(card) == cards.to_multiset().count(
        card,
    ) by {
        let number = card.number;
        lemma_filter_count(cards, stays_in(cards), card);
        lemma_book_cards(completed_books(cards), card);
        lemma_completed_once(cards, number);
        lemma_rank_count_by_suit(cards, number);
    }
}

/// A player whose hand holds no card twice has the same cards after laying
/// down books as before: what left the hand lies in the books.
pub proof fn lemma_books_keep_player(before: PlayerView, after: PlayerView)
    requires
        before.cards.no_duplicates(),
        after.cards == left_in_hand(before.cards),
        after.books == before.books + completed_books(before.cards),
    ensures
        cards_of(after) == cards_of(before),
{
    lemma_books_keep_cards(before.cards);
    lemma_book_cards_add(before.books, completed_books(before.cards));
}

/// Where every card is accounted for, neither hand holds a card twice.
pub proof fn lemma_accounted_hands(deck: Seq<Card>, a: PlayerView, b: PlayerView)
    requires
        accounted(deck, a, b),
    ensures
        deck.no_duplicates(),
        a.cards.no_duplicates(),
        b.cards.no_duplicates(),
{
    assert forall|card: Card| #[trigger]
        deck.to_multiset().contains(card) implies deck.to_multiset().count(card) == 1 by {
        lemma_accounted_once(deck, a, b, card);
    }
    assert forall|card: Card| #[trigger]
        a.cards.to_multiset().contains(card) implies a.cards.to_multiset().count(card) == 1 by {
        lemma_accounted_once(deck, a, b, card);
    }
    assert forall|card: Card| #[trigger]
        b.cards.to_multiset().contains(card) implies b.cards.to_multiset().count(card) == 1 by {
        lemma_accounted_once(deck, a, b, card);
    }
    deck.lemma_multiset_has_no_duplicates_conv();
    a.cards.lemma_multiset_has_no_duplicates_conv();
    b.cards.lemma_multiset_has_no_duplicates_conv();
}

} // verus!
