//! The reading of the line that the human player typed: a face value from 2 to
//! 10 in digits, or the jack, the queen, the king or the ace by name or by
//! first letter.

use vstd::prelude::*;
use vstd::string::*;

verus! {

/// Whether `c` is white space as Unicode defines it.
pub open spec fn white_space(c: char) -> bool {
    let code = c as u32;
    ||| 0x09 <= code <= 0x0D
    ||| code == 0x20
    ||| code == 0x85
    ||| code == 0xA0
    ||| code == 0x1680
    ||| 0x2000 <= code <= 0x200A
    ||| code == 0x2028
    ||| code == 0x2029
    ||| code == 0x202F
    ||| code == 0x205F
    ||| code == 0x3000
}

/// `text` without the white space at its two ends.
pub open spec fn trimmed(text: Seq<char>) -> Seq<char>
    decreases text.len(),
{
    if text.len() > 0 && white_space(text.first()) {
        trimmed(text.drop_first())
    } else if text.len() > 0 && white_space(text.last()) {
        trimmed(text.drop_last())
    } else {
        text
    }
}

/// Whether `c` is one of the digits 0 to 9.
pub open spec fn is_digit(c: char) -> bool {
    0x30 <= c as u32 <= 0x39
}

/// The number that the digit `c` stands for.
pub open spec fn digit_value(c: char) -> nat {
    (c as u32 - 0x30) as nat
}

/// Whether `digits` is a numeral: one digit or more, and nothing else.
pub open spec fn is_numeral(digits: Seq<char>) -> bool {
    digits.len() > 0 && forall|i: int| 0 <= i < digits.len() ==> is_digit(#[trigger] digits[i])
}

/// The number that the numeral `digits` stands for. Leading zeros count for
/// nothing.
pub open spec fn numeral_value(digits: Seq<char>) -> nat
    decreases digits.len(),
{
    if digits.len() == 0 {
        0
    } else {
        10 * numeral_value(digits.drop_last()) + digit_value(digits.last())
    }
}

/// `text` without the plus sign that may stand before a number.
pub open spec fn unsigned_part(text: Seq<char>) -> Seq<char> {
    if text.len() > 0 && text.first() == '+' {
        text.drop_first()
    } else {
        text
    }
}

/// The number that `text` is, if it is one: a numeral, with or without a plus
/// sign before it.
pub open spec fn typed_number(text: Seq<char>) -> Option<nat> {
    if is_numeral(unsigned_part(text)) {
        Some(numeral_value(unsigned_part(text)))
    } else {
        None
    }
}

/// The code of `c` in lower case, as far as the words of the game need it: a
/// capital of A to Z gives its small letter, and so does the Kelvin sign, whose
/// lower case is the letter k.
pub open spec fn lower_code(c: char) -> int {
    let code = c as u32 as int;
    if 0x41 <= code <= 0x5A {
        code + 0x20
    } else if code == 0x212A {
        0x6B
    } else {
        code
    }
}

/// Whether `text` is `word`, written in small letters or in capitals.
pub open spec fn reads_as(text: Seq<char>, word: Seq<char>) -> bool {
    &&& text.len() == word.len()
    &&& forall|i: int|
        0 <= i < text.len() ==> lower_code(#[trigger] text[i]) == word[i] as u32 as int
}

/// The face value that `text` names, or 0 where it names none.
pub open spec fn face_word_value(text: Seq<char>) -> u8 {
    if reads_as(text, "j"@) || reads_as(text, "jack"@) {
        11
    } else if reads_as(text, "q"@) || reads_as(text, "queen"@) {
        12
    } else if reads_as(text, "k"@) || reads_as(text, "king"@) {
        13
    } else if reads_as(text, "a"@) || reads_as(text, "ace"@) {
        14
    } else {
        0
    }
}

/// The face value that the line `line` asks for, or 0 where it asks for none:
/// white space at the two ends is left out; a number from 2 to 10 is that
/// value; otherwise the word decides.
pub open spec fn typed_card_value(line: Seq<char>) -> u8 {
    let text = trimmed(line);
    match typed_number(text) {
        Some(n) if 2 <= n <= 10 => n as u8,
        _ => face_word_value(text),
    }
}

/// What is left of a text between the white space at its start and at its end.
pub proof fn lemma_trimmed_between(text: Seq<char>, start: int, end: int)
    requires
        0 <= start <= end <= text.len(),
        forall|i: int| 0 <= i < start ==> white_space(#[trigger] text[i]),
        forall|i: int| end <= i < text.len() ==> white_space(#[trigger] text[i]),
        start < end ==> !white_space(text[start]) && !white_space(text[end - 1]),
    ensures
        trimmed(text) == text.subrange(start, end),
    decreases text.len(),
{
    if text.len() > 0 {
        if start > 0 {
            lemma_trimmed_between(text.drop_first(), start - 1, end - 1);
        } else if end == 0 {
            lemma_trimmed_between(text.drop_first(), 0, 0);
        } else if end < text.len() {
            lemma_trimmed_between(text.drop_last(), 0, end);
        }
    }
}

/// The characters of `line`, one by one.
pub fn chars_of(line: &str) -> (chars: Vec<char>)
    ensures
        chars@ == line@,
{
    let mut chars: Vec<char> = Vec::new();
    for c in it: line.chars()
        invariant
            it.seq() == line@,
            chars@ == it.seq().take(it.index()),
    {
        chars.push(c);
    }
    chars
}

/// Whether `c` is white space.
pub fn is_white_space(c: char) -> (space: bool)
    ensures
        space == white_space(c),
{
    let code: u32 = c as u32;
    (0x09 <= code && code <= 0x0D) || code == 0x20 || code == 0x85 || code == 0xA0 || code
        == 0x1680 || (0x2000 <= code && code <= 0x200A) || code == 0x2028 || code == 0x2029
        || code == 0x202F || code == 0x205F || code == 0x3000
}

/// The text without the white space at its two ends.
pub fn trim(text: &Vec<char>) -> (kept: Vec<char>)
    ensures
        kept@ == trimmed(text@),
{
    let mut start: usize = 0;
    while start < text.len() && is_white_space(text[start])
        invariant
            start <= text@.len(),
            forall|i: int| 0 <= i < start ==> white_space(#[trigger] text@[i]),
        decreases text@.len() - start,
    {
        start = start + 1;
    }
    let mut end: usize = text.len();
    while end > start && is_white_space(text[end - 1])
        invariant
            start <= end <= text@.len(),
            forall|i: int| end <= i < text@.len() ==> white_space(#[trigger] text@[i]),
        decreases end,
    {
        end = end - 1;
    }
    let mut kept: Vec<char> = Vec::new();
    let mut i: usize = start;
    while i < end
        invariant
            start <= i <= end <= text@.len(),
            kept@ == text@.subrange(start as int, i as int),
        decreases end - i,
    {
        kept.push(text[i]);
        i = i + 1;
    }
    proof {
        lemma_trimmed_between(text@, start as int, end as int);
    }
    kept
}

/// The number from 2 to 10 that `text` is, or 0 where it is none.
pub fn small_number(text: &Vec<char>) -> (number: u8)
    ensures
        number == match typed_number(text@) {
            Some(n) if 2 <= n <= 10 => n as u8,
            _ => 0u8,
        },
{
    let first: usize = if text.len() > 0 && text[0] == '+' {
        1
    } else {
        0
    };
    let ghost digits = unsigned_part(text@);
    if first == text.len() {
        return 0;
    }
    // The value so far; 11 stands for every value above 10.
    let mut value: u8 = 0;
    let mut i: usize = first;
    while i < text.len()
        invariant
            first <= i <= text@.len(),
            first < text@.len(),
            digits == unsigned_part(text@),
            digits == text@.subrange(first as int, text@.len() as int),
            forall|k: int| 0 <= k < i - first ==> is_digit(#[trigger] digits[k]),
            value <= 11,
            value <= 10 ==> value == numeral_value(digits.take(i - first)),
            value == 11 ==> numeral_value(digits.take(i - first)) > 10,
        decreases text@.len() - i,
    {
        let code: u32 = text[i] as u32;
        if code < 0x30 || code > 0x39 {
            proof {
                assert(!is_digit(digits[i - first]));
            }
            return 0;
        }
        let digit: u8 = (code - 0x30) as u8;
        proof {
            let shorter = digits.take(i - first);
            let longer = digits.take(i - first + 1);
            assert(longer.drop_last() =~= shorter);
        }
        if value > 10 {
            value = 11;
        } else {
            let next: u8 = value * 10 + digit;
            value = if next > 10 {
                11
            } else {
                next
            };
        }
        i = i + 1;
    }
    assert(digits.take(digits.len() as int) =~= digits);
    if 2 <= value && value <= 10 {
        value
    } else {
        0
    }
}

/// Whether the text is `word`, written in small letters or in capitals.
pub fn reads_as_word(text: &Vec<char>, word: &str) -> (same: bool)
    ensures
        same == reads_as(text@, word@),
{
    let letters = chars_of(word);
    if text.len() != letters.len() {
        return false;
    }
    let mut i: usize = 0;
    while i < text.len()
        invariant
            i <= text@.len(),
            text@.len() == letters@.len(),
            letters@ == word@,
            forall|k: int|
                0 <= k < i ==> lower_code(#[trigger] text@[k]) == letters@[k] as u32 as int,
        decreases text@.len() - i,
    {
        let code: u32 = text[i] as u32;
        let lower: u32 = if 0x41 <= code && code <= 0x5A {
            code + 0x20
        } else if code == 0x212A {
            0x6B
        } else {
            code
        };
        if lower != letters[i] as u32 {
            return false;
        }
        i = i + 1;
    }
    true
}

/// The face value that the human player asks for with the line `command`, or 0
/// where the line asks for none.
pub fn get_player_requesting_card_value(command: &str) -> (value: u8)
    ensures
        value == typed_card_value(command@),
        value == 0 || 2 <= value <= 14,
{
    let text = trim(&chars_of(command));
    let number = small_number(&text);
    if number != 0 {
        return number;
    }
    if reads_as_word(&text, "j") || reads_as_word(&text, "jack") {
        11
    } else if reads_as_word(&text, "q") || reads_as_word(&text, "queen") {
        12
    } else if reads_as_word(&text, "k") || reads_as_word(&text, "king") {
        13
    } else if reads_as_word(&text, "a") || reads_as_word(&text, "ace") {
        14
    } else {
        0
    }
}

} // verus!
