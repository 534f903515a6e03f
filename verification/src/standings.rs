//! The standings of the two players, and the winner once every book is laid
//! down.

use vstd::prelude::*;
use vstd::string::*;
use crate::input::chars_of;
use crate::player::{Player, PlayerView};

verus! {

/// The number of books that make up the deck: one for each face value.
pub const BOOKS_IN_DECK: usize = 13;

/// Whether the name `a` comes before the name `b` in the order of the
/// dictionary, or is the same name. Characters are compared by their codes,
/// which is the order that strings have in Rust.
pub open spec fn name_leq(a: Seq<char>, b: Seq<char>) -> bool
    decreases a.len(),
{
    if a.len() == 0 {
        true
    } else if b.len() == 0 {
        false
    } else if a.first() != b.first() {
        (a.first() as u32) < (b.first() as u32)
    } else {
        name_leq(a.drop_first(), b.drop_first())
    }
}

/// Whether `a` stands before `b`: with more books, or with as many and a name
/// that does not come after.
pub open spec fn leads(a: PlayerView, b: PlayerView) -> bool {
    a.books.len() > b.books.len() || (a.books.len() == b.books.len() && name_leq(a.name, b.name))
}

/// The books of all the players of `standings` together.
pub open spec fn total_books(standings: Seq<&Player>) -> nat
    decreases standings.len(),
{
    if standings.len() == 0 {
        0
    } else {
        total_books(standings.drop_last()) + standings.last()@.books.len()
    }
}

/// Whether the name `a` comes before the name `b`, or is the same name.
pub fn name_comes_first(a: &str, b: &str) -> (first: bool)
    ensures
        first == name_leq(a@, b@),
{
    let left = chars_of(a);
    let right = chars_of(b);
    let mut i: usize = 0;
    assert(left@.skip(0) =~= left@);
    assert(right@.skip(0) =~= right@);
    while i < left.len() && i < right.len()
        invariant
            i <= left@.len(),
            i <= right@.len(),
            left@ == a@,
            right@ == b@,
            name_leq(a@, b@) == name_leq(left@.skip(i as int), right@.skip(i as int)),
        decreases left@.len() - i,
    {
        proof {
            assert(left@.skip(i as int).drop_first() =~= left@.skip(i + 1));
            assert(right@.skip(i as int).drop_first() =~= right@.skip(i + 1));
        }
        if left[i] != right[i] {
            return (left[i] as u32) < (right[i] as u32);
        }
        i = i + 1;
    }
    i == left.len()
}

/// The two players in the order of their standing: the one with more books
/// first, and with as many books each the one whose name comes first. Two
/// players who tie in both stay as they were given.
pub fn game_standings<'a>(player: &'a Player, opponent: &'a Player) -> (standings: Vec<
    &'a Player,
>)
    ensures
        standings@.len() == 2,
        leads(player@, opponent@) ==> standings@[0] == player && standings@[1] == opponent,
        !leads(player@, opponent@) ==> standings@[0] == opponent && standings@[1] == player,
        total_books(standings@) == player@.books.len() + opponent@.books.len(),
{
    let player_first = player.books.len() > opponent.books.len() || (player.books.len()
        == opponent.books.len() && name_comes_first(player.name.as_str(), opponent.name.as_str()));
    let mut standings: Vec<&'a Player> = Vec::new();
    if player_first {
        standings.push(player);
        standings.push(opponent);
    } else {
        standings.push(opponent);
        standings.push(player);
    }
    proof {
        reveal_with_fuel(total_books, 3);
    }
    standings
}

/// The winner, once the books of all the players together make up the deck:
/// the player who stands first.
pub fn determine_winner<'a, 'b>(standings: &'b Vec<&'a Player>) -> (winner: Option<&'a Player>)
    ensures
        winner is Some <==> total_books(standings@) >= BOOKS_IN_DECK,
        winner matches Some(player) ==> standings@.len() > 0 && player == standings@[0],
{
    let mut total_book_count: usize = 0;
    let mut i: usize = 0;
    while i < standings.len()
        invariant
            i <= standings@.len(),
            total_book_count == total_books(standings@.take(i as int)),
            total_book_count < BOOKS_IN_DECK,
        decreases standings@.len() - i,
    {
        let books = standings[i].books.len();
        proof {
            assert(standings@.take(i + 1).drop_last() =~= standings@.take(i as int));
            lemma_total_books_grows(standings@, i + 1);
        }
        if books >= BOOKS_IN_DECK - total_book_count {
            return Some(standings[0]);
        }
        total_book_count = total_book_count + books;
        i = i + 1;
    }
    assert(standings@.take(standings@.len() as int) =~= standings@);
    None
}

/// The more players are counted, the more books there are.
proof fn lemma_total_books_grows(standings: Seq<&Player>, n: int)
    requires
        0 <= n <= standings.len(),
    ensures
        total_books(standings.take(n)) <= total_books(standings),
    decreases standings.len() - n,
{
    if n == standings.len() {
        assert(standings.take(n) =~= standings);
    } else {
        assert(standings.take(n + 1).drop_last() =~= standings.take(n));
        lemma_total_books_grows(standings, n + 1);
    }
}

} // verus!
