use gofish::card::{Book, Card, CardRank};
use gofish::deck::{generate_deck, give_random_card, take_card};
use gofish::game_log::GameLog;
use gofish::player::{comes_first, sorted_for_display, Player};
use gofish::text::decimal_string;

fn card(rank: CardRank, number: u8) -> Card {
    Card { rank, number }
}

#[test]
fn suit_labels_are_the_four_symbols() {
    assert_eq!(CardRank::Heart.get_label(), "♥");
    assert_eq!(CardRank::Diamond.get_label(), "♦");
    assert_eq!(CardRank::Spade.get_label(), "♠");
    assert_eq!(CardRank::Clover.get_label(), "♣");
}

#[test]
fn suit_ids_count_from_one() {
    assert_eq!(CardRank::Heart.get_rank_id(), 1);
    assert_eq!(CardRank::Diamond.get_rank_id(), 2);
    assert_eq!(CardRank::Spade.get_rank_id(), 3);
    assert_eq!(CardRank::Clover.get_rank_id(), 4);
}

#[test]
fn decimal_string_writes_numbers() {
    assert_eq!(decimal_string(0), "0");
    assert_eq!(decimal_string(7), "7");
    assert_eq!(decimal_string(10), "10");
    assert_eq!(decimal_string(255), "255");
    assert_eq!(decimal_string(1203450), "1203450");
    assert_eq!(decimal_string(usize::MAX), usize::MAX.to_string());
}

#[test]
fn card_labels_show_suit_then_value() {
    assert_eq!(card(CardRank::Heart, 2).get_label(), "♥2");
    assert_eq!(card(CardRank::Spade, 10).get_label(), "♠10");
    assert_eq!(card(CardRank::Diamond, 11).get_label(), "♦J");
    assert_eq!(card(CardRank::Clover, 12).get_label(), "♣Q");
    assert_eq!(card(CardRank::Heart, 13).get_label(), "♥K");
    assert_eq!(card(CardRank::Spade, 14).get_label(), "♠A");
}

#[test]
fn card_label_of_other_values_is_the_number() {
    assert_eq!(card(CardRank::Heart, 0).get_label(), "♥0");
    assert_eq!(card(CardRank::Heart, 15).get_label(), "♥15");
    assert_eq!(card(CardRank::Clover, 255).get_label(), "♣255");
}

#[test]
fn log_starts_at_turn_one_and_empty() {
    let log = GameLog::new();
    assert_eq!(log.turn, 1);
    assert!(log.status_lines.is_empty());
}

#[test]
fn log_lines_carry_the_turn() {
    let mut log = GameLog::new();
    log.add_status_line(String::from("hello"));
    log.turn = 12;
    log.add_status_line(String::from("End of turn"));
    log.add_status_line(String::new());
    assert_eq!(log.status_lines, vec!["T1 - hello", "T12 - End of turn", "T12 - "]);
    assert_eq!(log.turn, 12);
}

#[test]
fn log_clear_keeps_the_turn() {
    let mut log = GameLog::new();
    log.turn = 5;
    log.add_status_line(String::from("x"));
    log.clear();
    assert!(log.status_lines.is_empty());
    assert_eq!(log.turn, 5);
}

#[test]
fn new_player_has_nothing() {
    let player = Player::new(&String::from("Ann"));
    assert_eq!(player.name, "Ann");
    assert!(!player.is_cpu);
    assert!(player.cards.is_empty());
    assert!(player.books.is_empty());
}

#[test]
fn new_cpu_is_called_computer() {
    let player = Player::new_cpu();
    assert_eq!(player.name, "Computer");
    assert!(player.is_cpu);
    assert!(player.cards.is_empty());
    assert!(player.books.is_empty());
}

#[test]
fn display_order_is_suit_then_value() {
    assert!(comes_first(&card(CardRank::Heart, 14), &card(CardRank::Diamond, 2)));
    assert!(!comes_first(&card(CardRank::Clover, 2), &card(CardRank::Spade, 14)));
    assert!(comes_first(&card(CardRank::Spade, 3), &card(CardRank::Spade, 3)));
    assert!(comes_first(&card(CardRank::Spade, 3), &card(CardRank::Spade, 4)));
    assert!(!comes_first(&card(CardRank::Spade, 4), &card(CardRank::Spade, 3)));
}

#[test]
fn sorted_for_display_sorts_a_hand() {
    let hand = vec![
        card(CardRank::Clover, 2),
        card(CardRank::Heart, 14),
        card(CardRank::Spade, 5),
        card(CardRank::Heart, 3),
        card(CardRank::Diamond, 11),
        card(CardRank::Spade, 4),
    ];
    let sorted = sorted_for_display(&hand);
    assert_eq!(
        sorted,
        vec![
            card(CardRank::Heart, 3),
            card(CardRank::Heart, 14),
            card(CardRank::Diamond, 11),
            card(CardRank::Spade, 4),
            card(CardRank::Spade, 5),
            card(CardRank::Clover, 2),
        ]
    );
    assert_eq!(hand.len(), 6);
    assert_eq!(sorted_for_display(&Vec::new()), Vec::<Card>::new());
}

#[test]
fn card_labels_come_sorted() {
    let mut player = Player::new(&String::from("Ann"));
    player.cards = vec![
        card(CardRank::Clover, 2),
        card(CardRank::Heart, 14),
        card(CardRank::Spade, 10),
        card(CardRank::Heart, 3),
        card(CardRank::Diamond, 11),
    ];
    assert_eq!(player.get_card_labels(), vec!["♥3", "♥A", "♦J", "♠10", "♣2"]);
    // The hand itself keeps its order.
    assert_eq!(player.cards[0], card(CardRank::Clover, 2));
    assert_eq!(Player::new_cpu().get_card_labels(), Vec::<String>::new());
}

#[test]
fn fresh_deck_holds_each_card_once() {
    let deck = generate_deck();
    assert_eq!(deck.len(), 52);
    assert_eq!(deck[0], card(CardRank::Heart, 2));
    assert_eq!(deck[12], card(CardRank::Heart, 14));
    assert_eq!(deck[13], card(CardRank::Diamond, 2));
    assert_eq!(deck[26], card(CardRank::Spade, 2));
    assert_eq!(deck[51], card(CardRank::Clover, 14));
    for rank in [CardRank::Heart, CardRank::Diamond, CardRank::Spade, CardRank::Clover] {
        for number in 2..15 {
            let wanted = card(rank, number);
            assert_eq!(deck.iter().filter(|c| **c == wanted).count(), 1);
        }
    }
}

#[test]
fn take_card_moves_the_card_at_the_index() {
    let mut deck = generate_deck();
    let mut player = Player::new(&String::from("Ann"));
    player.cards.push(card(CardRank::Clover, 9));
    take_card(&mut deck, &mut player, 13);
    assert_eq!(deck.len(), 51);
    assert_eq!(deck[12], card(CardRank::Heart, 14));
    assert_eq!(deck[13], card(CardRank::Diamond, 3));
    assert_eq!(player.cards, vec![card(CardRank::Clover, 9), card(CardRank::Diamond, 2)]);
    assert_eq!(player.name, "Ann");
    assert!(player.books.is_empty());
}

#[test]
fn dealing_moves_cards_from_deck_to_hand() {
    let mut deck = generate_deck();
    let mut player = Player::new(&String::from("Ann"));
    assert!(give_random_card(&mut deck, &mut player, 7));
    assert_eq!(deck.len(), 45);
    assert_eq!(player.cards.len(), 7);
    let mut all = deck.clone();
    all.extend(player.cards.iter().copied());
    for wanted in generate_deck() {
        assert_eq!(all.iter().filter(|c| **c == wanted).count(), 1);
    }
    // What is left of the deck keeps its order.
    let fresh = generate_deck();
    let mut at = 0;
    for left in &deck {
        while fresh[at] != *left {
            at += 1;
        }
        at += 1;
    }
}

#[test]
fn dealing_the_last_card_takes_it() {
    let mut deck = vec![card(CardRank::Spade, 9)];
    let mut player = Player::new_cpu();
    player.cards.push(card(CardRank::Heart, 2));
    assert!(give_random_card(&mut deck, &mut player, 1));
    assert!(deck.is_empty());
    assert_eq!(player.cards, vec![card(CardRank::Heart, 2), card(CardRank::Spade, 9)]);
}

#[test]
fn dealing_the_whole_deck_empties_it() {
    let mut deck = generate_deck();
    deck.truncate(20);
    let mut player = Player::new_cpu();
    assert!(give_random_card(&mut deck, &mut player, 20));
    assert!(deck.is_empty());
    assert_eq!(sorted_for_display(&player.cards), sorted_for_display(&generate_deck()[..20].to_vec()));
}

#[test]
fn dealing_more_than_the_deck_holds_deals_nothing() {
    let mut deck = vec![card(CardRank::Spade, 9), card(CardRank::Heart, 3)];
    let mut player = Player::new_cpu();
    assert!(!give_random_card(&mut deck, &mut player, 3));
    assert_eq!(deck, vec![card(CardRank::Spade, 9), card(CardRank::Heart, 3)]);
    assert!(player.cards.is_empty());
    let mut empty: Vec<Card> = Vec::new();
    assert!(!give_random_card(&mut empty, &mut player, 1));
    assert!(empty.is_empty());
    assert!(player.cards.is_empty());
}

#[test]
fn dealing_no_card_changes_nothing() {
    let mut deck: Vec<Card> = Vec::new();
    let mut player = Player::new_cpu();
    assert!(give_random_card(&mut deck, &mut player, 0));
    assert!(deck.is_empty());
    assert!(player.cards.is_empty());
}

#[test]
fn books_compare_by_value() {
    assert_eq!(Book { number: 4 }, Book { number: 4 });
    assert_ne!(Book { number: 4 }, Book { number: 5 });
}
