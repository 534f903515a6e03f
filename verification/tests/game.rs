use gofish::card::{Book, Card, CardRank};
use gofish::deck::generate_deck;
use gofish::game::Game;
use gofish::game_log::GameLog;
use gofish::player::Player;
use gofish::screen::{deck_line, hand_line, join_listed, standings_line, winner_line};
use gofish::standings::{determine_winner, game_standings, name_comes_first};

const SUITS: [CardRank; 4] = [CardRank::Heart, CardRank::Diamond, CardRank::Spade, CardRank::Clover];

fn card(rank: CardRank, number: u8) -> Card {
    Card { rank, number }
}

fn player_with_books(name: &str, books: usize) -> Player {
    let mut player = Player::new(&String::from(name));
    for number in 0..books {
        player.books.push(Book { number: number as u8 + 2 });
    }
    player
}

fn cards_in_game(game: &Game) -> usize {
    game.deck.len()
        + game.player.cards.len()
        + game.opponent.cards.len()
        + 4 * (game.player.books.len() + game.opponent.books.len())
}

/// Every card of the deck of 52 lies once in the deck, in a hand or in a book.
fn assert_all_accounted(game: &Game) {
    assert_eq!(cards_in_game(game), 52);
    let mut cards: Vec<Card> = game.deck.clone();
    cards.extend(game.player.cards.iter().copied());
    cards.extend(game.opponent.cards.iter().copied());
    for book in game.player.books.iter().chain(game.opponent.books.iter()) {
        for rank in SUITS {
            cards.push(card(rank, book.number));
        }
    }
    for wanted in generate_deck() {
        assert_eq!(cards.iter().filter(|c| **c == wanted).count(), 1);
    }
}

#[test]
fn names_are_ordered_as_in_a_dictionary() {
    assert!(name_comes_first("Ann", "Computer"));
    assert!(!name_comes_first("Computer", "Ann"));
    assert!(name_comes_first("Ann", "Ann"));
    assert!(name_comes_first("", "Ann"));
    assert!(!name_comes_first("Ann", ""));
    assert!(name_comes_first("", ""));
    assert!(name_comes_first("Ann", "Anna"));
    assert!(!name_comes_first("Anna", "Ann"));
    assert!(name_comes_first("Zoe", "ann"));
    assert!(name_comes_first("Zoe", "Émile"));
    assert!(name_comes_first("zz", "\u{10000}"));
    assert!(name_comes_first("\u{ffff}", "\u{10000}"));
}

#[test]
fn name_order_agrees_with_the_standard_library() {
    let names = ["", "a", "A", "ab", "b", "Computer", "computer", "é", "z", "\u{ffff}", "\u{10000}a"];
    for a in names {
        for b in names {
            assert_eq!(name_comes_first(a, b), a <= b, "{:?} {:?}", a, b);
        }
    }
}

#[test]
fn more_books_stand_first() {
    let ann = player_with_books("Ann", 2);
    let bob = player_with_books("Bob", 3);
    let standings = game_standings(&ann, &bob);
    assert_eq!(standings.len(), 2);
    assert_eq!(standings[0].name, "Bob");
    assert_eq!(standings[1].name, "Ann");
    let standings = game_standings(&bob, &ann);
    assert_eq!(standings[0].name, "Bob");
    assert_eq!(standings[1].name, "Ann");
}

#[test]
fn with_as_many_books_the_first_name_stands_first() {
    let zoe = player_with_books("Zoe", 2);
    let computer = player_with_books("Computer", 2);
    let standings = game_standings(&zoe, &computer);
    assert_eq!(standings[0].name, "Computer");
    assert_eq!(standings[1].name, "Zoe");
    let standings = game_standings(&computer, &zoe);
    assert_eq!(standings[0].name, "Computer");
    assert_eq!(standings[1].name, "Zoe");
}

#[test]
fn players_who_tie_in_all_stay_in_order() {
    let mut first = player_with_books("Computer", 1);
    first.cards.push(card(CardRank::Heart, 2));
    let second = player_with_books("Computer", 1);
    let standings = game_standings(&first, &second);
    assert_eq!(standings[0].cards.len(), 1);
    assert_eq!(standings[1].cards.len(), 0);
    let standings = game_standings(&second, &first);
    assert_eq!(standings[0].cards.len(), 0);
    assert_eq!(standings[1].cards.len(), 1);
}

#[test]
fn no_winner_before_the_thirteenth_book() {
    let ann = player_with_books("Ann", 6);
    let bob = player_with_books("Bob", 6);
    assert!(determine_winner(&vec![&ann, &bob]).is_none());
    assert!(determine_winner(&vec![&ann]).is_none());
    assert!(determine_winner(&Vec::new()).is_none());
}

#[test]
fn the_first_of_the_standings_wins_at_thirteen_books() {
    let ann = player_with_books("Ann", 6);
    let bob = player_with_books("Bob", 7);
    let standings = game_standings(&ann, &bob);
    let winner = determine_winner(&standings);
    assert_eq!(winner.map(|p| p.name.as_str()), Some("Bob"));
    // The winner is whoever stands first, in whatever order they were given.
    assert_eq!(determine_winner(&vec![&ann, &bob]).map(|p| p.name.as_str()), Some("Ann"));
    let all = player_with_books("Solo", 13);
    assert_eq!(determine_winner(&vec![&all]).map(|p| p.name.as_str()), Some("Solo"));
    let many = player_with_books("Many", 40);
    assert_eq!(determine_winner(&vec![&many, &ann]).map(|p| p.name.as_str()), Some("Many"));
}

#[test]
fn a_new_game_deals_seven_cards_each() {
    let game = Game::new(&String::from("Ann"));
    assert_eq!(game.deck.len(), 38);
    assert_eq!(game.player.name, "Ann");
    assert!(!game.player.is_cpu);
    assert_eq!(game.player.cards.len(), 7);
    assert!(game.player.books.is_empty());
    assert_eq!(game.opponent.name, "Computer");
    assert!(game.opponent.is_cpu);
    assert_eq!(game.opponent.cards.len(), 7);
    assert!(game.opponent.books.is_empty());
    assert_eq!(game.game_log.turn, 1);
    assert!(game.game_log.status_lines.is_empty());
    assert!(game.winner().is_none());
    assert_all_accounted(&game);
}

#[test]
fn deals_differ_from_game_to_game() {
    // Fifty deals of the first seven cards of the deck would be no deals at all.
    let first = Game::new(&String::from("Ann")).player.cards;
    let mut differs = false;
    for _ in 0..50 {
        if Game::new(&String::from("Ann")).player.cards != first {
            differs = true;
        }
    }
    assert!(differs);
}

#[test]
fn check_books_lays_down_for_both() {
    let mut ann = Player::new(&String::from("Ann"));
    ann.cards = SUITS.iter().map(|rank| card(*rank, 5)).collect();
    ann.cards.push(card(CardRank::Heart, 2));
    let mut computer = Player::new_cpu();
    computer.cards = SUITS.iter().map(|rank| card(*rank, 12)).collect();
    let mut game = Game { deck: Vec::new(), player: computer, opponent: ann, game_log: GameLog::new() };
    game.check_books();
    assert_eq!(game.player.books, vec![Book { number: 12 }]);
    assert!(game.player.cards.is_empty());
    assert_eq!(game.opponent.books, vec![Book { number: 5 }]);
    assert_eq!(game.opponent.cards, vec![card(CardRank::Heart, 2)]);
    assert_eq!(
        game.game_log.status_lines,
        vec!["T1 - Computer collected a book of 12", "T1 - Ann collected a book of 5"]
    );
}

#[test]
fn a_turn_that_passes_is_closed_in_the_log() {
    let mut ann = Player::new(&String::from("Ann"));
    ann.cards.push(card(CardRank::Heart, 5));
    let mut computer = Player::new_cpu();
    computer.cards.push(card(CardRank::Heart, 6));
    let mut log = GameLog::new();
    log.add_status_line(String::from("left over"));
    let game = Game { deck: Vec::new(), player: ann, opponent: computer, game_log: log };
    let game = game.play(5);
    assert_eq!(game.player.name, "Computer");
    assert_eq!(game.opponent.name, "Ann");
    assert_eq!(game.game_log.turn, 2);
    // The log was emptied before the human player's request.
    assert_eq!(game.game_log.status_lines, vec!["T1 - End of turn"]);
    // Before the computer's request it is kept.
    let game = game.play(0);
    assert_eq!(game.player.name, "Ann");
    assert_eq!(game.game_log.turn, 3);
    assert_eq!(
        game.game_log.status_lines,
        vec!["T1 - End of turn", "T2 - Computer requested 6", "T2 - End of turn"]
    );
}

#[test]
fn a_request_turned_down_keeps_the_turn() {
    let mut ann = Player::new(&String::from("Ann"));
    ann.cards.push(card(CardRank::Heart, 5));
    let game = Game {
        deck: vec![card(CardRank::Spade, 2)],
        player: ann,
        opponent: Player::new_cpu(),
        game_log: GameLog::new(),
    };
    let game = game.play(0);
    assert_eq!(game.player.name, "Ann");
    assert_eq!(game.game_log.turn, 1);
    assert_eq!(game.game_log.status_lines, vec!["T1 - Invalid card face value"]);
    let game = game.play(6);
    assert_eq!(game.player.name, "Ann");
    assert_eq!(game.game_log.turn, 1);
    assert_eq!(game.game_log.status_lines, vec!["T1 - You dont have that card"]);
    assert_eq!(game.deck.len(), 1);
}

#[test]
fn a_game_played_to_the_last_book_has_one_winner() {
    // The deck is used up. Ann holds three cards of each value from 2 to 8, the
    // computer the fourth of each and all the cards from 9 to the ace.
    let mut ann = Player::new(&String::from("Ann"));
    let mut computer = Player::new_cpu();
    for number in 2..9 {
        for rank in [CardRank::Heart, CardRank::Diamond, CardRank::Spade] {
            ann.cards.push(card(rank, number));
        }
        computer.cards.push(card(CardRank::Clover, number));
    }
    for number in 9..15 {
        for rank in SUITS {
            computer.cards.push(card(rank, number));
        }
    }
    let mut game = Game { deck: Vec::new(), player: ann, opponent: computer, game_log: GameLog::new() };
    assert_all_accounted(&game);
    for number in 2..9 {
        game.check_books();
        assert_all_accounted(&game);
        assert!(game.winner().is_none());
        assert_eq!(game.opponent.books.len(), 6);
        assert_eq!(game.player.books.len(), usize::from(number) - 2);
        game = game.play(number);
        assert_all_accounted(&game);
        // Ann got the card and asks again.
        assert_eq!(game.player.name, "Ann");
        assert_eq!(game.game_log.turn, 1);
    }
    game.check_books();
    assert_all_accounted(&game);
    assert!(game.deck.is_empty());
    assert!(game.player.cards.is_empty());
    assert!(game.opponent.cards.is_empty());
    assert_eq!(game.player.books.len(), 7);
    assert_eq!(game.opponent.books.len(), 6);
    let standings = game.standings();
    assert_eq!(standings[0].name, "Ann");
    assert_eq!(standings[1].name, "Computer");
    let winner = game.winner().map(|p| (p.name.clone(), p.books.len()));
    assert_eq!(winner, Some((String::from("Ann"), 7)));
}

#[test]
fn every_card_is_accounted_for_throughout_a_game() {
    // The human player asks for the value of the first card in hand. A human
    // player without a card cannot ask: there the game stands still.
    for _ in 0..20 {
        let mut game = Game::new(&String::from("Ann"));
        let mut steps = 0;
        loop {
            game.check_books();
            assert_all_accounted(&game);
            let books = game.player.books.len() + game.opponent.books.len();
            assert!(books <= 13);
            if let Some(winner) = game.winner() {
                assert_eq!(books, 13);
                let other = if winner.is_cpu == game.player.is_cpu {
                    &game.opponent
                } else {
                    &game.player
                };
                assert!(winner.books.len() > other.books.len());
                assert_eq!(game.standings()[0].name, winner.name);
                break;
            }
            assert!(books < 13);
            let request = if game.player.is_cpu {
                0
            } else if let Some(first) = game.player.cards.first() {
                first.number
            } else {
                break;
            };
            let before = (game.player.is_cpu, game.game_log.turn, game.deck.len());
            game = game.play(request);
            assert_all_accounted(&game);
            let passed = game.player.is_cpu != before.0;
            assert_eq!(game.game_log.turn, before.1 + usize::from(passed));
            assert!(game.deck.len() == before.2 || (passed && game.deck.len() + 1 == before.2));
            steps += 1;
            assert!(steps < 10_000);
        }
    }
}

#[test]
fn texts_are_listed_with_commas() {
    assert_eq!(join_listed(&Vec::new()), "");
    assert_eq!(join_listed(&vec![String::from("a")]), "a");
    assert_eq!(join_listed(&vec![String::from("a"), String::from("bc")]), "a, bc");
    assert_eq!(
        join_listed(&vec![String::from("a"), String::new(), String::from("c")]),
        "a, , c"
    );
}

#[test]
fn the_deck_line_counts_the_cards() {
    assert_eq!(deck_line(38), "38 cards in deck");
    assert_eq!(deck_line(1), "1 cards in deck");
    assert_eq!(deck_line(0), "0 cards in deck");
}

#[test]
fn the_standings_line_names_each_player() {
    let ann = player_with_books("Ann", 2);
    let computer = player_with_books("Computer", 11);
    assert_eq!(
        standings_line(&game_standings(&ann, &computer)),
        "Standings: Computer (11), Ann (2)"
    );
    assert_eq!(standings_line(&vec![&ann]), "Standings: Ann (2)");
    assert_eq!(standings_line(&Vec::new()), "Standings: ");
}

#[test]
fn the_hand_line_shows_the_hand_in_order() {
    let mut ann = Player::new(&String::from("Ann"));
    assert_eq!(hand_line(&ann), "");
    ann.cards = vec![
        card(CardRank::Clover, 2),
        card(CardRank::Heart, 14),
        card(CardRank::Spade, 10),
        card(CardRank::Heart, 3),
    ];
    assert_eq!(hand_line(&ann), "♥3, ♥A, ♠10, ♣2");
}

#[test]
fn the_winner_line_names_the_winner() {
    assert_eq!(winner_line(&player_with_books("Ann", 7)), "Ann has won with 7 books");
    assert_eq!(winner_line(&player_with_books("", 13)), " has won with 13 books");
}

#[test]
fn the_winner_of_a_game_stands_first() {
    let game = Game {
        deck: Vec::new(),
        player: player_with_books("Zoe", 5),
        opponent: player_with_books("Computer", 8),
        game_log: GameLog::new(),
    };
    assert_eq!(game.winner().map(|p| p.name.as_str()), Some("Computer"));
    let game = Game {
        deck: Vec::new(),
        player: player_with_books("Zoe", 9),
        opponent: player_with_books("Computer", 4),
        game_log: GameLog::new(),
    };
    assert_eq!(game.winner().map(|p| p.name.as_str()), Some("Zoe"));
    // With as many books each, the name decides.
    let game = Game {
        deck: Vec::new(),
        player: player_with_books("Zoe", 7),
        opponent: player_with_books("Computer", 7),
        game_log: GameLog::new(),
    };
    assert_eq!(game.winner().map(|p| p.name.as_str()), Some("Computer"));
    let game = Game {
        deck: Vec::new(),
        player: player_with_books("Zoe", 6),
        opponent: player_with_books("Computer", 6),
        game_log: GameLog::new(),
    };
    assert!(game.winner().is_none());
}
