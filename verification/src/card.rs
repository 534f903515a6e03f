//! Cards: a suit and a face value, and the label each is shown by.

use vstd::prelude::*;
use vstd::string::*;
use crate::text::{decimal_string, decimal_text};

verus! {

/// The suit of a card.
#[derive(Copy, Clone, Debug, PartialEq, Eq, Hash, Structural)]
pub enum CardRank {
    Heart,
    Diamond,
    Spade,
    Clover,
}

impl CardRank {
    /// The symbol of the suit.
    pub open spec fn symbol(self) -> Seq<char> {
        match self {
            CardRank::Heart => seq!['\u{2665}'],
            CardRank::Diamond => seq!['\u{2666}'],
            CardRank::Spade => seq!['\u{2660}'],
            CardRank::Clover => seq!['\u{2663}'],
        }
    }

    /// The place of the suit in the order in which a hand is shown, from 1.
    pub open spec fn id(self) -> int {
        match self {
            CardRank::Heart => 1,
            CardRank::Diamond => 2,
            CardRank::Spade => 3,
            CardRank::Clover => 4,
        }
    }

    pub fn get_label(&self) -> (label: String)
        ensures
            label@ == self.symbol(),
    {
        proof {
            reveal_strlit("\u{2665}");
            reveal_strlit("\u{2666}");
            reveal_strlit("\u{2660}");
            reveal_strlit("\u{2663}");
        }
        let label = match self {
            CardRank::Heart => String::from_str("\u{2665}"),
            CardRank::Diamond => String::from_str("\u{2666}"),
            CardRank::Spade => String::from_str("\u{2660}"),
            CardRank::Clover => String::from_str("\u{2663}"),
        };
        label
    }

    pub fn get_rank_id(&self) -> (id: u8)
        ensures
            id == self.id(),
    {
        match self {
            CardRank::Heart => 1,
            CardRank::Diamond => 2,
            CardRank::Spade => 3,
            CardRank::Clover => 4,
        }
    }
}

/// A playing card. `rank` is its suit and `number` its face value: 2 to 10, then
/// 11 for the jack, 12 for the queen, 13 for the king and 14 for the ace.
#[derive(Copy, Clone, Debug, PartialEq, Eq, Hash, Structural)]
pub struct Card {
    pub rank: CardRank,
    pub number: u8,
}

/// Whether `number` is a face value that a card of the deck can have.
pub open spec fn is_face_value(number: u8) -> bool {
    2 <= number <= 14
}

/// How a face value is written: a letter for the jack, the queen, the king and
/// the ace, the decimal numeral for every other value.
pub open spec fn face_text(number: u8) -> Seq<char> {
    if number == 11 {
        seq!['J']
    } else if number == 12 {
        seq!['Q']
    } else if number == 13 {
        seq!['K']
    } else if number == 14 {
        seq!['A']
    } else {
        decimal_text(number as nat)
    }
}

impl Card {
    /// Whether the card belongs to the deck of 52.
    pub open spec fn valid(self) -> bool {
        is_face_value(self.number)
    }

    /// The label of the card: the symbol of its suit, then its face value.
    pub open spec fn label(self) -> Seq<char> {
        self.rank.symbol() + face_text(self.number)
    }

    pub fn get_label(&self) -> (label: String)
        ensures
            label@ == self.label(),
    {
        proof {
            reveal_strlit("J");
            reveal_strlit("Q");
            reveal_strlit("K");
            reveal_strlit("A");
        }
        let num_key = match self.number {
            11 => String::from_str("J"),
            12 => String::from_str("Q"),
            13 => String::from_str("K"),
            14 => String::from_str("A"),
            _ => decimal_string(self.number as usize),
        };
        let mut label = self.rank.get_label();
        label.append(num_key.as_str());
        label
    }
}

/// A completed book: all four cards of one face value, laid down by a player.
/// Only the face value is kept.
#[derive(Copy, Clone, Debug, PartialEq, Eq, Hash, Structural)]
pub struct Book {
    pub number: u8,
}

} // verus!
