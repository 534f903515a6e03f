//! The log of what happened in the current turn, one line per event.

use vstd::prelude::*;
use vstd::string::*;
use crate::text::{decimal_string, decimal_text};

verus! {

/// The lines of the turn in progress and the number of that turn. Turns are
/// counted from 1.
pub struct GameLog {
    pub status_lines: Vec<String>,
    pub turn: usize,
}

/// What a line of the log reads for `message` in turn `turn`: the letter T, the
/// number of the turn, a dash between two spaces, and the message.
pub open spec fn status_line(turn: nat, message: Seq<char>) -> Seq<char> {
    seq!['T'] + decimal_text(turn) + seq![' ', '-', ' '] + message
}

impl GameLog {
    /// The text of the lines, oldest first.
    pub open spec fn lines(&self) -> Seq<Seq<char>> {
        Seq::new(self.status_lines@.len(), |i: int| self.status_lines@[i]@)
    }

    pub fn new() -> (log: GameLog)
        ensures
            log.turn == 1,
            log.lines() == Seq::<Seq<char>>::empty(),
    {
        let log = GameLog { turn: 1, status_lines: Vec::new() };
        log
    }

    pub fn clear(&mut self)
        ensures
            final(self).turn == old(self).turn,
            final(self).lines() == Seq::<Seq<char>>::empty(),
    {
        self.status_lines.clear();
    }

    pub fn add_status_line(&mut self, message: String)
        ensures
            final(self).turn == old(self).turn,
            final(self).lines() == old(self).lines().push(
                status_line(old(self).turn as nat, message@),
            ),
    {
        proof {
            reveal_strlit("T");
            reveal_strlit(" - ");
        }
        let mut message_formatted = String::from_str("T");
        message_formatted.append(decimal_string(self.turn).as_str());
        message_formatted.append(" - ");
        message_formatted.append(message.as_str());
        assert(message_formatted@ =~= status_line(self.turn as nat, message@));
        self.status_lines.push(message_formatted);
    }
}

} // verus!
