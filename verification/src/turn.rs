//! The resolution of one turn: the player whose turn it is asks the other for
//! a face value, and either gets cards, goes fishing in the deck, or is turned
//! down.

use vstd::prelude::*;
use vstd::string::*;
use crate::accounting::{cards_of_game, lemma_draw_keeps_cards, lemma_transfer_keeps_cards};
use crate::card::{is_face_value, Card};
use crate::deck::{deck_after, drawn_cards, give_random_card, lemma_one_pick, picks_fit};
use crate::game_log::{status_line, GameLog};
use crate::hand::{
    cards_of_rank, count_rank, discard_rank, holds_rank, lemma_rank_split, of_rank, rank_count,
    without_rank,
};
use crate::player::{Player, PlayerView};
use crate::request::{cpu_request, get_cpu_requesting_card_value};
use crate::text::{decimal_string, decimal_text};

verus! {

/// How a request is answered.
pub enum Verdict {
    /// The value asked for is no face value: nothing moves and the player asks
    /// again.
    Invalid,
    /// The human player asked for a value that the player's own hand lacks:
    /// nothing moves and the player asks again.
    NotHeld,
    /// The opponent holds the value and hands over every card of it; the
    /// player asks again.
    Transfer,
    /// The opponent lacks the value and the deck is empty: the turn passes.
    Exhausted,
    /// The opponent lacks the value: the player draws one card from the deck
    /// and the turn passes.
    GoFish,
}

/// The face value that the player asks for: the computer chooses from its hand,
/// the human player has typed `player_request`.
pub open spec fn requested_value(player: PlayerView, player_request: u8) -> u8 {
    if player.is_cpu {
        cpu_request(player.cards)
    } else {
        player_request
    }
}

/// How the request of `player` for `value` is answered, given the hand of
/// `opponent` and what is left of the deck.
pub open spec fn verdict(
    player: PlayerView,
    opponent: PlayerView,
    deck: Seq<Card>,
    value: u8,
) -> Verdict {
    if !is_face_value(value) {
        Verdict::Invalid
    } else if !player.is_cpu && !holds_rank(player.cards, value) {
        Verdict::NotHeld
    } else if holds_rank(opponent.cards, value) {
        Verdict::Transfer
    } else if deck.len() == 0 {
        Verdict::Exhausted
    } else {
        Verdict::GoFish
    }
}

/// The message that tells what the computer asked for.
pub open spec fn request_message(value: u8) -> Seq<char> {
    "Computer requested "@ + decimal_text(value as nat)
}

/// The message for one card that goes from a player to the other.
pub open spec fn transfer_message(from: Seq<char>, card: Card, to: Seq<char>) -> Seq<char> {
    from + " -"@ + card.label() + "-> "@ + to
}

/// The message for a card drawn from the deck. The card that the computer drew
/// is not shown.
pub open spec fn go_fish_message(player: PlayerView, card: Card) -> Seq<char> {
    "Go Fish, deck -"@ + (if player.is_cpu {
        Seq::empty()
    } else {
        card.label()
    }) + "-> "@ + player.name
}

/// The log once the request is known: a request of the computer is written
/// down, one of the human player is not.
pub open spec fn announced(
    lines: Seq<Seq<char>>,
    turn: nat,
    player: PlayerView,
    value: u8,
) -> Seq<Seq<char>> {
    if player.is_cpu {
        lines.push(status_line(turn, request_message(value)))
    } else {
        lines
    }
}

/// One line for each of `cards`, going from `from` to `to`.
pub open spec fn transfer_lines(
    turn: nat,
    from: Seq<char>,
    cards: Seq<Card>,
    to: Seq<char>,
) -> Seq<Seq<char>> {
    Seq::new(cards.len(), |i: int| status_line(turn, transfer_message(from, cards[i], to)))
}

/// What lies on the table at one moment of a game: the log of the turn, the
/// deck, the player whose turn it is and the other player.
pub struct Table {
    pub turn: nat,
    pub lines: Seq<Seq<char>>,
    pub deck: Seq<Card>,
    pub player: PlayerView,
    pub opponent: PlayerView,
}

/// Whether one request takes the table from `before` to `after`, with
/// `advanced` telling whether the turn has passed. In `after` the player is the
/// one who asks next: the two have changed places exactly when the turn has
/// passed. All is fixed by `before` and by what the human player typed, but for
/// the card that is drawn when the player goes fishing: that may be any card of
/// the deck.
pub open spec fn turn_resolves(
    before: Table,
    player_request: u8,
    after: Table,
    advanced: bool,
) -> bool {
    let value = requested_value(before.player, player_request);
    let lines = announced(before.lines, before.turn, before.player, value);
    &&& after.turn == before.turn
    &&& match verdict(before.player, before.opponent, before.deck, value) {
        Verdict::Invalid => {
            &&& after.player == before.player
            &&& after.opponent == before.opponent
            &&& !advanced
            &&& after.deck == before.deck
            &&& after.lines == lines.push(status_line(before.turn, "Invalid card face value"@))
        },
        Verdict::NotHeld => {
            &&& after.player == before.player
            &&& after.opponent == before.opponent
            &&& !advanced
            &&& after.deck == before.deck
            &&& after.lines == lines.push(status_line(before.turn, "You dont have that card"@))
        },
        Verdict::Transfer => {
            &&& after.player == (PlayerView {
                cards: before.player.cards + of_rank(before.opponent.cards, value),
                ..before.player
            })
            &&& after.opponent == (PlayerView {
                cards: without_rank(before.opponent.cards, value),
                ..before.opponent
            })
            &&& !advanced
            &&& after.deck == before.deck
            &&& after.lines == lines + transfer_lines(
                before.turn,
                before.opponent.name,
                of_rank(before.opponent.cards, value),
                before.player.name,
            )
        },
        Verdict::Exhausted => {
            &&& after.player == before.opponent
            &&& after.opponent == before.player
            &&& advanced
            &&& after.deck == before.deck
            &&& after.lines == lines
        },
        Verdict::GoFish => exists|pick: int|
            {
                &&& 0 <= pick < before.deck.len()
                &&& after.deck == #[trigger] before.deck.remove(pick)
                &&& after.player == before.opponent
                &&& after.opponent == (PlayerView {
                    cards: before.player.cards.push(before.deck[pick]),
                    ..before.player
                })
                &&& advanced
                &&& after.lines == lines.push(
                    status_line(before.turn, go_fish_message(before.player, before.deck[pick])),
                )
            },
    }
}

/// A request that is turned down moves no card and does not pass the turn.
pub proof fn lemma_turned_down(before: Table, player_request: u8, after: Table, advanced: bool)
    requires
        turn_resolves(before, player_request, after, advanced),
        ({
            let value = requested_value(before.player, player_request);
            let answer = verdict(before.player, before.opponent, before.deck, value);
            answer is Invalid || answer is NotHeld
        }),
    ensures
        after.player == before.player,
        after.opponent == before.opponent,
        after.deck == before.deck,
        !advanced,
{
}

/// No face value but those from 2 to 14 is ever answered: such a request is
/// turned down.
pub proof fn lemma_invalid_value(before: Table, player_request: u8, after: Table, advanced: bool)
    requires
        turn_resolves(before, player_request, after, advanced),
        !is_face_value(requested_value(before.player, player_request)),
    ensures
        after.player == before.player,
        after.opponent == before.opponent,
        after.deck == before.deck,
        !advanced,
{
}

/// An opponent who holds k cards of the value asked for, and k is 1 or more,
/// loses k cards; the player gains k, and the turn does not pass.
pub proof fn lemma_transfer(before: Table, player_request: u8, after: Table, advanced: bool)
    requires
        turn_resolves(before, player_request, after, advanced),
        ({
            let value = requested_value(before.player, player_request);
            &&& is_face_value(value)
            &&& before.player.is_cpu || holds_rank(before.player.cards, value)
            &&& rank_count(before.opponent.cards, value) >= 1
        }),
    ensures
        ({
            let k = rank_count(
                before.opponent.cards,
                requested_value(before.player, player_request),
            );
            &&& after.player.cards.len() == before.player.cards.len() + k
            &&& after.opponent.cards.len() == before.opponent.cards.len() - k
        }),
        after.player.name == before.player.name,
        after.opponent.name == before.opponent.name,
        after.deck == before.deck,
        !advanced,
{
    lemma_rank_split(before.opponent.cards, requested_value(before.player, player_request));
}

/// A player whose opponent holds no card of the value asked for goes fishing
/// while the deck holds a card: the hand grows by one card, the deck shrinks
/// by one, and the turn passes, so that the two players change places.
pub proof fn lemma_go_fish(before: Table, player_request: u8, after: Table, advanced: bool)
    requires
        turn_resolves(before, player_request, after, advanced),
        ({
            let value = requested_value(before.player, player_request);
            &&& is_face_value(value)
            &&& before.player.is_cpu || holds_rank(before.player.cards, value)
            &&& rank_count(before.opponent.cards, value) == 0
        }),
        before.deck.len() > 0,
    ensures
        after.opponent.cards.len() == before.player.cards.len() + 1,
        after.opponent.name == before.player.name,
        after.player == before.opponent,
        after.deck.len() == before.deck.len() - 1,
        advanced,
{
}

/// With the deck exhausted no hand changes, and the turn passes all the same.
pub proof fn lemma_deck_exhausted(before: Table, player_request: u8, after: Table, advanced: bool)
    requires
        turn_resolves(before, player_request, after, advanced),
        ({
            let value = requested_value(before.player, player_request);
            &&& is_face_value(value)
            &&& before.player.is_cpu || holds_rank(before.player.cards, value)
            &&& rank_count(before.opponent.cards, value) == 0
        }),
        before.deck.len() == 0,
    ensures
        after.opponent == before.player,
        after.player == before.opponent,
        after.deck == before.deck,
        advanced,
{
}

/// Whatever the request, a turn loses no card and brings none in.
pub proof fn lemma_turn_keeps_cards(
    before: Table,
    player_request: u8,
    after: Table,
    advanced: bool,
)
    requires
        turn_resolves(before, player_request, after, advanced),
    ensures
        cards_of_game(after.deck, after.player, after.opponent) == cards_of_game(
            before.deck,
            before.player,
            before.opponent,
        ),
{
    let value = requested_value(before.player, player_request);
    let was = cards_of_game(before.deck, before.player, before.opponent);
    let is = cards_of_game(after.deck, after.player, after.opponent);
    match verdict(before.player, before.opponent, before.deck, value) {
        Verdict::Invalid => {},
        Verdict::NotHeld => {},
        Verdict::Transfer => {
            lemma_transfer_keeps_cards(before.player.cards, before.opponent.cards, value);
            let moved = after.player.cards.to_multiset().add(after.opponent.cards.to_multiset());
            let held = before.player.cards.to_multiset().add(
                before.opponent.cards.to_multiset(),
            );
            assert forall|card: Card| is.count(card) == was.count(card) by {
                assert(moved.count(card) == held.count(card));
            }
        },
        Verdict::Exhausted => {
        },
        Verdict::GoFish => {
            let pick = choose|pick: int|
                {
                    &&& 0 <= pick < before.deck.len()
                    &&& after.deck == #[trigger] before.deck.remove(pick)
                    &&& after.opponent == (PlayerView {
                        cards: before.player.cards.push(before.deck[pick]),
                        ..before.player
                    })
                };
            lemma_draw_keeps_cards(before.deck, before.player.cards, pick);
            let moved = after.deck.to_multiset().add(after.opponent.cards.to_multiset());
            let held = before.deck.to_multiset().add(before.player.cards.to_multiset());
            assert forall|card: Card| is.count(card) == was.count(card) by {
                assert(moved.count(card) == held.count(card));
            }
        },
    }
}

/// Plays one request of `current_player` against `current_opponent`.
///
/// The computer chooses what it asks for; for the human player `player_request`
/// is what was typed, with 0 for what could not be read. The result holds the
/// player who asks next, then the other player, then whether the turn has
/// passed: the two have changed places exactly when it has.
pub fn turn(
    game_log: &mut GameLog,
    deck: &mut Vec<Card>,
    current_player: Player,
    current_opponent: Player,
    player_request: u8,
) -> (next: (Player, Player, bool))
    ensures
        turn_resolves(
            Table {
                turn: old(game_log).turn as nat,
                lines: old(game_log).lines(),
                deck: old(deck)@,
                player: current_player@,
                opponent: current_opponent@,
            },
            player_request,
            Table {
                turn: final(game_log).turn as nat,
                lines: final(game_log).lines(),
                deck: final(deck)@,
                player: next.0@,
                opponent: next.1@,
            },
            next.2,
        ),
{
    let mut player = current_player;
    let mut opponent = current_opponent;
    let card_face_value: u8 = if player.is_cpu {
        let card_value = get_cpu_requesting_card_value(&player);
        let mut message = String::from_str("Computer requested ");
        message.append(decimal_string(card_value as usize).as_str());
        game_log.add_status_line(message);
        card_value
    } else {
        player_request
    };
    let ghost turn = old(game_log).turn as nat;
    let ghost lines = announced(old(game_log).lines(), turn, player@, card_face_value);

    if card_face_value < 2 || card_face_value > 14 {
        game_log.add_status_line(String::from_str("Invalid card face value"));
        return (player, opponent, false);
    }
    let has_card = count_rank(&player.cards, card_face_value) > 0;
    if !has_card && !player.is_cpu {
        game_log.add_status_line(String::from_str("You dont have that card"));
        return (player, opponent, false);
    }
    let found_cards = cards_of_rank(&opponent.cards, card_face_value);
    if found_cards.len() > 0 {
        let mut i: usize = 0;
        while i < found_cards.len()
            invariant
                i <= found_cards@.len(),
                game_log.turn == turn,
                opponent == current_opponent,
                player@ == (PlayerView {
                    cards: current_player@.cards + found_cards@.take(i as int),
                    ..current_player@
                }),
                game_log.lines() == lines + transfer_lines(
                    turn,
                    opponent@.name,
                    found_cards@.take(i as int),
                    player@.name,
                ),
            decreases found_cards@.len() - i,
        {
            let card = found_cards[i];
            let mut message = opponent.name.clone();
            message.append(" -");
            message.append(card.get_label().as_str());
            message.append("-> ");
            message.append(player.name.as_str());
            game_log.add_status_line(message);
            player.cards.push(card);
            proof {
                let before = found_cards@.take(i as int);
                let after = found_cards@.take(i + 1);
                assert(current_player@.cards + after =~= (current_player@.cards + before).push(
                    card,
                ));
            }
            i = i + 1;
        }
        assert(found_cards@.take(found_cards@.len() as int) =~= found_cards@);
        discard_rank(&mut opponent.cards, card_face_value);
        return (player, opponent, false);
    }
    if deck.len() == 0 {
        return (opponent, player, true);
    }
    let ghost before = deck@;
    give_random_card(deck, &mut player, 1);
    proof {
        let picks = choose|picks: Seq<int>|
            {
                &&& picks.len() == 1
                &&& picks_fit(before.len(), picks)
                &&& deck@ == #[trigger] deck_after(before, picks)
                &&& player@ == (PlayerView {
                    cards: current_player@.cards + drawn_cards(before, picks),
                    ..current_player@
                })
            };
        lemma_one_pick(before, picks);
        assert(current_player@.cards + seq![before[picks[0]]] =~= current_player@.cards.push(
            before[picks[0]],
        ));
    }
    let last_card = player.cards[player.cards.len() - 1];
    let last_card_label = if !player.is_cpu {
        last_card.get_label()
    } else {
        String::new()
    };
    let mut message = String::from_str("Go Fish, deck -");
    message.append(last_card_label.as_str());
    message.append("-> ");
    message.append(player.name.as_str());
    game_log.add_status_line(message);
    (opponent, player, true)
}

} // verus!
