//! The detection of books: a player who holds four cards of one face value lays
//! them down.

use std::collections::HashMap;
use vstd::prelude::*;
use vstd::string::*;
use crate::card::{Book, Card};
use crate::game_log::{status_line, GameLog};
use crate::hand::{
    lemma_filter_agree, lemma_holds_rank, lemma_rank_count_grows, lemma_rank_take, rank_count,
    without_rank,
};
use crate::player::{Player, PlayerView};
use crate::text::{decimal_string, decimal_text};

verus! {

/// The books that the hand `cards` completes: one for each face value of which
/// it holds a fourth card, in the order in which those fourth cards lie in the
/// hand.
pub open spec fn completed_books(cards: Seq<Card>) -> Seq<Book>
    decreases cards.len(),
{
    if cards.len() == 0 {
        Seq::empty()
    } else {
        let earlier = completed_books(cards.drop_last());
        if rank_count(cards, cards.last().number) == 4 {
            earlier.push(Book { number: cards.last().number })
        } else {
            earlier
        }
    }
}

/// Whether a card stays in the hand `cards`: the hand holds fewer than four
/// cards of its face value.
pub open spec fn stays_in(cards: Seq<Card>) -> spec_fn(Card) -> bool {
    |c: Card| rank_count(cards, c.number) < 4
}

/// What is left of the hand `cards` once its books are laid down: the cards of
/// every face value held fewer than four times, in their order.
pub open spec fn left_in_hand(cards: Seq<Card>) -> Seq<Card> {
    cards.filter(stays_in(cards))
}

/// The message for a book laid down.
pub open spec fn book_message(name: Seq<char>, number: u8) -> Seq<char> {
    name + " collected a book of "@ + decimal_text(number as nat)
}

/// One line for each of `books`, laid down by the player `name`.
pub open spec fn book_lines(turn: nat, name: Seq<char>, books: Seq<Book>) -> Seq<Seq<char>> {
    Seq::new(books.len(), |i: int| status_line(turn, book_message(name, books[i].number)))
}

/// How many of `books` are of the face value `number`.
pub open spec fn books_of_rank(books: Seq<Book>, number: u8) -> nat
    decreases books.len(),
{
    if books.len() == 0 {
        0
    } else {
        books_of_rank(books.drop_last(), number) + if books.last().number == number {
            1nat
        } else {
            0nat
        }
    }
}

/// A hand completes one book of each face value that it holds four times or
/// more, and none of any other.
pub proof fn lemma_completed_once(cards: Seq<Card>, number: u8)
    ensures
        books_of_rank(completed_books(cards), number) == if rank_count(cards, number) >= 4 {
            1nat
        } else {
            0nat
        },
    decreases cards.len(),
{
    if cards.len() > 0 {
        let front = cards.drop_last();
        lemma_completed_once(front, number);
        lemma_rank_count_grows(cards, number);
        if rank_count(cards, cards.last().number) == 4 {
            assert(completed_books(cards).drop_last() =~= completed_books(front));
        }
    }
}

/// Whether the hand `cards` holds exactly four cards of the face value
/// `number`, and fewer than four of every other.
pub open spec fn holds_one_book(cards: Seq<Card>, number: u8) -> bool {
    &&& rank_count(cards, number) == 4
    &&& forall|other: u8| other != number ==> rank_count(cards, other) < 4
}

/// A hand that holds exactly four cards of the face value `number`, and fewer
/// than four of every other, completes this one book and no other, and every
/// card of that value leaves the hand while every other stays.
pub proof fn lemma_single_book(cards: Seq<Card>, number: u8)
    requires
        holds_one_book(cards, number),
    ensures
        completed_books(cards) == seq![Book { number }],
        left_in_hand(cards) == without_rank(cards, number),
        rank_count(left_in_hand(cards), number) == 0,
{
    lemma_books_up_to(cards, number);
    lemma_filter_agree(cards, stays_in(cards), |c: Card| c.number != number);
    lemma_none_left(cards, number);
}

/// As long as no other face value is held four times, the books completed are
/// the book of `number` once the hand holds its fourth card, and none before.
proof fn lemma_books_up_to(cards: Seq<Card>, number: u8)
    requires
        rank_count(cards, number) <= 4,
        forall|other: u8| other != number ==> rank_count(cards, other) < 4,
    ensures
        completed_books(cards) == if rank_count(cards, number) == 4 {
            seq![Book { number }]
        } else {
            Seq::empty()
        },
    decreases cards.len(),
{
    if cards.len() > 0 {
        let front = cards.drop_last();
        assert forall|other: u8| other != number implies rank_count(front, other) < 4 by {
            lemma_rank_count_grows(cards, other);
        }
        lemma_rank_count_grows(cards, number);
        lemma_books_up_to(front, number);
    }
}

/// Once the cards of a face value are taken out, the hand holds none of it.
pub proof fn lemma_none_left(cards: Seq<Card>, number: u8)
    ensures
        rank_count(without_rank(cards, number), number) == 0,
{
    let rest = without_rank(cards, number);
    lemma_holds_rank(rest, number);
}

/// One more card of the hand taken into account.
proof fn lemma_completed_take(cards: Seq<Card>, i: int)
    requires
        0 <= i < cards.len(),
    ensures
        completed_books(cards.take(i + 1)) == if rank_count(cards.take(i + 1), cards[i].number)
            == 4 {
            completed_books(cards.take(i)).push(Book { number: cards[i].number })
        } else {
            completed_books(cards.take(i))
        },
{
    assert(cards.take(i + 1).drop_last() =~= cards.take(i));
}

/// Lays down the books that the player's hand holds: each face value of which
/// the hand holds four cards or more becomes one book, and every card of it
/// leaves the hand.
pub fn check_cards_for_books(game_log: &mut GameLog, current_player: &mut Player)
    ensures
        final(current_player)@ == (PlayerView {
            cards: left_in_hand(old(current_player)@.cards),
            books: old(current_player)@.books + completed_books(old(current_player)@.cards),
            ..old(current_player)@
        }),
        final(game_log).turn == old(game_log).turn,
        final(game_log).lines() == old(game_log).lines() + book_lines(
            old(game_log).turn as nat,
            old(current_player)@.name,
            completed_books(old(current_player)@.cards),
        ),
        // A hand of exactly four cards of one face value, and fewer of every
        // other, gives that one book, and keeps no card of that value.
        forall|number: u8| #[trigger]
            holds_one_book(old(current_player)@.cards, number) ==> {
                &&& final(current_player)@.books == old(current_player)@.books.push(
                    Book { number },
                )
                &&& rank_count(final(current_player)@.cards, number) == 0
            },
{
    let ghost cards = current_player@.cards;
    let ghost name = current_player@.name;
    let ghost turn = game_log.turn as nat;
    let mut cards_count: HashMap<u8, usize> = HashMap::new();
    let mut i: usize = 0;
    while i < current_player.cards.len()
        invariant
            i <= cards.len(),
            game_log.turn == turn,
            current_player@ == (PlayerView {
                books: old(current_player)@.books + completed_books(cards.take(i as int)),
                ..old(current_player)@
            }),
            cards == old(current_player)@.cards,
            name == old(current_player)@.name,
            game_log.lines() == old(game_log).lines() + book_lines(
                turn,
                name,
                completed_books(cards.take(i as int)),
            ),
            forall|number: u8|
                cards_count@.contains_key(number) <==> rank_count(cards.take(i as int), number)
                    > 0,
            forall|number: u8|
                cards_count@.contains_key(number) ==> #[trigger] cards_count@[number]
                    == rank_count(cards.take(i as int), number),
            forall|number: u8| rank_count(cards.take(i as int), number) <= i,
        decreases cards.len() - i,
    {
        let number = current_player.cards[i].number;
        let count: usize = match cards_count.get(&number) {
            Some(x) => *x + 1,
            None => 1,
        };
        cards_count.insert(number, count);
        proof {
            assert forall|other: u8|
                rank_count(cards.take(i + 1), other) == rank_count(cards.take(i as int), other)
                    + if other == number {
                    1nat
                } else {
                    0nat
                } by {
                lemma_rank_take(cards, i as int, other);
            }
            lemma_completed_take(cards, i as int);
        }
        if count == 4 {
            current_player.books.push(Book { number });
            let mut message = current_player.name.clone();
            message.append(" collected a book of ");
            message.append(decimal_string(number as usize).as_str());
            game_log.add_status_line(message);
            proof {
                let earlier = completed_books(cards.take(i as int));
                let later = completed_books(cards.take(i + 1));
            }
        }
        i = i + 1;
    }
    assert(cards.take(cards.len() as int) =~= cards);

    let mut kept: Vec<Card> = Vec::new();
    let mut j: usize = 0;
    while j < current_player.cards.len()
        invariant
            j <= cards.len(),
            cards == current_player@.cards,
            kept@ == cards.take(j as int).filter(stays_in(cards)),
            forall|number: u8|
                cards_count@.contains_key(number) <==> rank_count(cards, number) > 0,
            forall|number: u8|
                cards_count@.contains_key(number) ==> #[trigger] cards_count@[number]
                    == rank_count(cards, number),
        decreases cards.len() - j,
    {
        let card = current_player.cards[j];
        proof {
            assert(cards.take(j + 1) =~= cards.take(j as int).push(card));
            cards.take(j as int).lemma_filter_push(card, stays_in(cards));
        }
        let stays = match cards_count.get(&card.number) {
            Some(count) => *count < 4,
            None => true,
        };
        if stays {
            kept.push(card);
        }
        j = j + 1;
    }
    current_player.cards = kept;
    proof {
        assert forall|number: u8| #[trigger] holds_one_book(cards, number) implies {
            &&& current_player@.books == old(current_player)@.books.push(Book { number })
            &&& rank_count(current_player@.cards, number) == 0
        } by {
            lemma_single_book(cards, number);
        }
    }
}

} // verus!
