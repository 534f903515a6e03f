//! Go Fish for one human player against one computer opponent: the deck, the
//! hands, the detection of books, the resolution of a turn and the standings.
//!
//! Every rule of the game is stated as a contract over sequences of cards and
//! proved. The one thing taken on trust is the random index by which a card is
//! drawn from the deck.

pub mod text;
pub mod card;
pub mod hand;
pub mod game_log;
pub mod player;
pub mod deck;
pub mod request;
pub mod books;
pub mod accounting;
pub mod turn;
pub mod input;
pub mod standings;
pub mod game;
pub mod screen;
