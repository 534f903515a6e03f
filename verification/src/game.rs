//! A game from the deal to the last book: what the loop around the screen and
//! the keyboard decides, one step at a time.

use vstd::prelude::*;
use vstd::string::*;
use crate::accounting::{
    accounted, cards_of_game, lemma_accounted_hands, lemma_books_keep_player,
    lemma_fresh_game_accounted,
};
use crate::books::{book_lines, check_cards_for_books, completed_books, left_in_hand};
use crate::card::Card;
use crate::deck::{generate_deck, give_random_card};
use crate::game_log::{status_line, GameLog};
use crate::player::{Player, PlayerView};
use crate::standings::{determine_winner, game_standings, leads, BOOKS_IN_DECK};
use crate::turn::{lemma_turn_keeps_cards, turn, turn_resolves, Table};

verus! {

/// The number of cards that each player is dealt.
pub const CARDS_DEALT: u8 = 7;

/// A game in progress. `player` is the one whose turn it is.
pub struct Game {
    pub deck: Vec<Card>,
    pub player: Player,
    pub opponent: Player,
    pub game_log: GameLog,
}

impl View for Game {
    type V = Table;

    open spec fn view(&self) -> Table {
        Table {
            turn: self.game_log.turn as nat,
            lines: self.game_log.lines(),
            deck: self.deck@,
            player: self.player@,
            opponent: self.opponent@,
        }
    }
}

/// A player once the books of the hand are laid down.
pub open spec fn with_books_laid_down(player: PlayerView) -> PlayerView {
    PlayerView {
        cards: left_in_hand(player.cards),
        books: player.books + completed_books(player.cards),
        ..player
    }
}

/// The table as a request finds it: before a request of the human player the
/// log is emptied, before one of the computer it is left as it is.
pub open spec fn ready_for_request(table: Table) -> Table {
    Table {
        lines: if table.player.is_cpu {
            table.lines
        } else {
            Seq::empty()
        },
        ..table
    }
}

/// The table once a request is resolved and, where the turn has passed, the
/// turn is closed: the log tells so and the next turn begins.
pub open spec fn turn_closed(after: Table, advanced: bool) -> Table {
    if advanced {
        Table {
            turn: after.turn + 1,
            lines: after.lines.push(status_line(after.turn, "End of turn"@)),
            ..after
        }
    } else {
        after
    }
}

impl Game {
    /// Whether every card of the deck of 52 is accounted for, once: in the deck,
    /// in a hand or in a book.
    pub open spec fn all_accounted(&self) -> bool {
        accounted(self.deck@, self.player@, self.opponent@)
    }

    /// A new game of the human player `player_name` against the computer: a
    /// fresh deck, seven cards dealt to each at random, and the human player
    /// to begin.
    pub fn new(player_name: &String) -> (game: Game)
        ensures
            game.all_accounted(),
            game@.turn == 1,
            game@.lines == Seq::<Seq<char>>::empty(),
            game@.deck.len() == 52 - 2 * CARDS_DEALT,
            game@.player.name == player_name@,
            !game@.player.is_cpu,
            game@.player.cards.len() == CARDS_DEALT,
            game@.player.books.len() == 0,
            game@.opponent.name == "Computer"@,
            game@.opponent.is_cpu,
            game@.opponent.cards.len() == CARDS_DEALT,
            game@.opponent.books.len() == 0,
    {
        let mut deck = generate_deck();
        let mut player = Player::new(player_name);
        let mut opponent = Player::new_cpu();
        let ghost fresh = cards_of_game(deck@, player@, opponent@);
        proof {
            lemma_fresh_game_accounted(player@, opponent@);
        }
        let ghost held = deck@.to_multiset().add(player@.cards.to_multiset());
        give_random_card(&mut deck, &mut player, CARDS_DEALT);
        proof {
            let moved = deck@.to_multiset().add(player@.cards.to_multiset());
            assert forall|card: Card| cards_of_game(deck@, player@, opponent@).count(card)
                == fresh.count(card) by {
                assert(moved.count(card) == held.count(card));
            }
        }
        let ghost held = deck@.to_multiset().add(opponent@.cards.to_multiset());
        give_random_card(&mut deck, &mut opponent, CARDS_DEALT);
        proof {
            let moved = deck@.to_multiset().add(opponent@.cards.to_multiset());
            assert forall|card: Card| cards_of_game(deck@, player@, opponent@).count(card)
                == fresh.count(card) by {
                assert(moved.count(card) == held.count(card));
            }
            assert(cards_of_game(deck@, player@, opponent@) =~= fresh);
        }
        Game { deck, player, opponent, game_log: GameLog::new() }
    }

    /// Lays down the books of both players, those of the player whose turn it
    /// is first.
    pub fn check_books(&mut self)
        ensures
            final(self)@ == (Table {
                lines: old(self)@.lines + book_lines(
                    old(self)@.turn,
                    old(self)@.player.name,
                    completed_books(old(self)@.player.cards),
                ) + book_lines(
                    old(self)@.turn,
                    old(self)@.opponent.name,
                    completed_books(old(self)@.opponent.cards),
                ),
                player: with_books_laid_down(old(self)@.player),
                opponent: with_books_laid_down(old(self)@.opponent),
                ..old(self)@
            }),
            old(self).all_accounted() ==> final(self).all_accounted(),
    {
        check_cards_for_books(&mut self.game_log, &mut self.player);
        check_cards_for_books(&mut self.game_log, &mut self.opponent);
        proof {
            if old(self).all_accounted() {
                lemma_accounted_hands(old(self)@.deck, old(self)@.player, old(self)@.opponent);
                lemma_books_keep_player(old(self)@.player, self@.player);
                lemma_books_keep_player(old(self)@.opponent, self@.opponent);
            }
        }
    }

    /// The two players in the order of their standing.
    pub fn standings(&self) -> (standings: Vec<&Player>)
        ensures
            standings@.len() == 2,
            leads(self@.player, self@.opponent) ==> standings@[0] == self.player && standings@[1]
                == self.opponent,
            !leads(self@.player, self@.opponent) ==> standings@[0] == self.opponent
                && standings@[1] == self.player,
    {
        game_standings(&self.player, &self.opponent)
    }

    /// The winner, once the books of the deck are all laid down: the player
    /// with more books, and with as many books each the one whose name comes
    /// first.
    pub fn winner(&self) -> (winner: Option<&Player>)
        ensures
            winner is Some <==> self@.player.books.len() + self@.opponent.books.len()
                >= BOOKS_IN_DECK,
            winner matches Some(player) ==> player == if leads(self@.player, self@.opponent) {
                self.player
            } else {
                self.opponent
            },
    {
        let standings = game_standings(&self.player, &self.opponent);
        determine_winner(&standings)
    }

    /// Plays one request of the player whose turn it is. The computer chooses
    /// what it asks for; for the human player `player_request` is what was
    /// typed, with 0 for what could not be read. Before a request of the human
    /// player the log is emptied. Where the turn passes, the log tells so and
    /// the next turn begins.
    pub fn play(self, player_request: u8) -> (next: Game)
        requires
            self.game_log.turn < usize::MAX,
        ensures
            exists|after: Table, advanced: bool|
                {
                    &&& #[trigger] turn_resolves(
                        ready_for_request(self@),
                        player_request,
                        after,
                        advanced,
                    )
                    &&& next@ == turn_closed(after, advanced)
                },
            self.all_accounted() ==> next.all_accounted(),
    {
        let ghost before = self@;
        let Game { mut deck, player, opponent, mut game_log } = self;
        if !player.is_cpu {
            game_log.clear();
        }
        let ghost start = ready_for_request(before);
        let (next_player, next_opponent, is_next_turn) = turn(
            &mut game_log,
            &mut deck,
            player,
            opponent,
            player_request,
        );
        let ghost after = Table {
            turn: game_log.turn as nat,
            lines: game_log.lines(),
            deck: deck@,
            player: next_player@,
            opponent: next_opponent@,
        };
        proof {
            lemma_turn_keeps_cards(start, player_request, after, is_next_turn);
        }
        if is_next_turn {
            game_log.add_status_line(String::from_str("End of turn"));
            game_log.turn = game_log.turn + 1;
        }
        Game { deck, player: next_player, opponent: next_opponent, game_log }
    }
}

} // verus!
