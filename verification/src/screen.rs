//! The lines of text that the screen shows of a game.

use vstd::prelude::*;
use vstd::string::*;
use crate::player::{display_order, Player};
use crate::text::{decimal_string, decimal_text};

verus! {

/// The texts `parts` in a row, with a comma and a space between each two.
pub open spec fn listed(parts: Seq<Seq<char>>) -> Seq<char>
    decreases parts.len(),
{
    if parts.len() == 0 {
        Seq::empty()
    } else if parts.len() == 1 {
        parts[0]
    } else {
        listed(parts.drop_last()) + ", "@ + parts.last()
    }
}

/// The line that tells how many cards the deck holds.
pub open spec fn deck_text(cards: nat) -> Seq<char> {
    decimal_text(cards) + " cards in deck"@
}

/// A player in the standings: the name, and in brackets the number of books.
pub open spec fn standing_text(name: Seq<char>, books: nat) -> Seq<char> {
    name + " ("@ + decimal_text(books) + ")"@
}

/// The line of the standings: each player of `standings` in turn.
pub open spec fn standings_text(standings: Seq<&Player>) -> Seq<char> {
    "Standings: "@ + listed(
        Seq::new(
            standings.len(),
            |i: int| standing_text(standings[i]@.name, standings[i]@.books.len()),
        ),
    )
}

/// The line of a hand: the labels of its cards in the order in which a hand is
/// shown.
pub open spec fn hand_text(player: &Player) -> Seq<char> {
    listed(
        Seq::new(player@.cards.len(), |i: int| display_order(player@.cards)[i].label()),
    )
}

/// The line that names the winner.
pub open spec fn winner_text(name: Seq<char>, books: nat) -> Seq<char> {
    name + " has won with "@ + decimal_text(books) + " books"@
}

/// The texts in a row, with a comma and a space between each two.
pub fn join_listed(parts: &Vec<String>) -> (line: String)
    ensures
        line@ == listed(Seq::new(parts@.len(), |i: int| parts@[i]@)),
{
    let ghost texts = Seq::new(parts@.len(), |i: int| parts@[i]@);
    let mut line = String::new();
    let mut i: usize = 0;
    while i < parts.len()
        invariant
            i <= parts@.len(),
            texts == Seq::new(parts@.len(), |k: int| parts@[k]@),
            line@ == listed(texts.take(i as int)),
        decreases parts@.len() - i,
    {
        proof {
            assert(texts.take(i + 1).drop_last() =~= texts.take(i as int));
        }
        if i > 0 {
            line.append(", ");
        }
        line.append(parts[i].as_str());
        i = i + 1;
    }
    assert(texts.take(texts.len() as int) =~= texts);
    line
}

/// The line that tells how many cards the deck holds.
pub fn deck_line(cards: usize) -> (line: String)
    ensures
        line@ == deck_text(cards as nat),
{
    let mut line = decimal_string(cards);
    line.append(" cards in deck");
    line
}

/// The line of the standings.
pub fn standings_line(standings: &Vec<&Player>) -> (line: String)
    ensures
        line@ == standings_text(standings@),
{
    let mut parts: Vec<String> = Vec::new();
    let mut i: usize = 0;
    while i < standings.len()
        invariant
            i <= standings@.len(),
            parts@.len() == i,
            forall|k: int|
                0 <= k < i ==> (#[trigger] parts@[k])@ == standing_text(
                    standings@[k]@.name,
                    standings@[k]@.books.len(),
                ),
        decreases standings@.len() - i,
    {
        let mut part = standings[i].name.clone();
        part.append(" (");
        part.append(decimal_string(standings[i].books.len()).as_str());
        part.append(")");
        parts.push(part);
        i = i + 1;
    }
    let mut line = String::from_str("Standings: ");
    line.append(join_listed(&parts).as_str());
    assert(Seq::new(parts@.len(), |i: int| parts@[i]@) =~= Seq::new(
        standings@.len(),
        |i: int| standing_text(standings@[i]@.name, standings@[i]@.books.len()),
    ));
    line
}

/// The line of the player's hand.
pub fn hand_line(player: &Player) -> (line: String)
    ensures
        line@ == hand_text(player),
{
    let labels = player.get_card_labels();
    assert(Seq::new(labels@.len(), |i: int| labels@[i]@) =~= Seq::new(
        player@.cards.len(),
        |i: int| display_order(player@.cards)[i].label(),
    ));
    join_listed(&labels)
}

/// The line that names the winner.
pub fn winner_line(winner: &Player) -> (line: String)
    ensures
        line@ == winner_text(winner@.name, winner@.books.len()),
{
    let mut line = winner.name.clone();
    line.append(" has won with ");
    line.append(decimal_string(winner.books.len()).as_str());
    line.append(" books");
    line
}

} // verus!
