//! The lexical rules: whitespace, punctuation, names and integer literals.
//!
//! Whitespace is the space, the tab, the carriage return and the line
//! feed. The punctuation marks are `= ( ) , ;`. A name is a longest run
//! of bytes that are neither, in UTF-8, other than the words `inputs`,
//! `outputs` and `match`; it may hold the characters of the operators. An
//! integer literal is an optional `-` and a longest run of digits that
//! write a number in the range of `i64`: digits that write a greater one are
//! no integer literal, and read as a name where a name may stand.

use std::string::FromUtf8Error;
use vstd::prelude::*;
use vstd::utf8::{decode_utf8, valid_utf8};
use crate::ast::Name;

verus! {

pub const TAB: u8 = 0x09;

pub const LINE_FEED: u8 = 0x0a;

pub const CARRIAGE_RETURN: u8 = 0x0d;

pub const SPACE: u8 = 0x20;

pub const OPEN: u8 = 0x28;

pub const CLOSE: u8 = 0x29;

pub const STAR: u8 = 0x2a;

pub const PLUS: u8 = 0x2b;

pub const COMMA: u8 = 0x2c;

pub const MINUS: u8 = 0x2d;

pub const SLASH: u8 = 0x2f;

pub const ZERO: u8 = 0x30;

pub const SEMICOLON: u8 = 0x3b;

pub const EQUALS: u8 = 0x3d;

/// `nom::is_space`: whether the byte is an ASCII space or a tab.
pub assume_specification[ nom::is_space ](chr: u8) -> (yes: bool)
    ensures
        yes == (chr == 0x20 || chr == 0x09),
;

/// `nom::is_digit`: whether the byte is one of the ASCII digits `0` to `9`.
pub assume_specification[ nom::is_digit ](chr: u8) -> (yes: bool)
    ensures
        yes == (0x30 <= chr && chr <= 0x39),
;

/// The outside type of the error of `String::from_utf8`.
#[verifier::external_type_specification]
#[verifier::external_body]
pub struct ExFromUtf8Error(FromUtf8Error);

/// A byte that separates tokens and means nothing else.
pub open spec fn whitespace(byte: u8) -> bool {
    byte == SPACE || byte == TAB || byte == CARRIAGE_RETURN || byte == LINE_FEED
}

/// One of the punctuation marks `= ( ) , ;`.
pub open spec fn punctuation(byte: u8) -> bool {
    byte == EQUALS || byte == OPEN || byte == CLOSE || byte == COMMA || byte == SEMICOLON
}

/// A byte that a name may hold: anything but whitespace and punctuation.
pub open spec fn name_byte(byte: u8) -> bool {
    !whitespace(byte) && !punctuation(byte)
}

/// One of the ASCII digits.
pub open spec fn digit(byte: u8) -> bool {
    ZERO <= byte && byte <= ZERO + 9
}

/// The position of the first byte at or after `pos` that is no whitespace.
pub open spec fn whitespace_end(s: Seq<u8>, pos: int) -> int
    decreases s.len() - pos,
{
    if 0 <= pos < s.len() && whitespace(s[pos]) {
        whitespace_end(s, pos + 1)
    } else {
        pos
    }
}

/// The end of the longest run of name bytes that starts at `pos`.
pub open spec fn word_end(s: Seq<u8>, pos: int) -> int
    decreases s.len() - pos,
{
    if 0 <= pos < s.len() && name_byte(s[pos]) {
        word_end(s, pos + 1)
    } else {
        pos
    }
}

/// The end of the longest run of digits that starts at `pos`.
pub open spec fn digits_end(s: Seq<u8>, pos: int) -> int
    decreases s.len() - pos,
{
    if 0 <= pos < s.len() && digit(s[pos]) {
        digits_end(s, pos + 1)
    } else {
        pos
    }
}

/// Whitespace ends at or after its start and within the input, before a
/// byte that is no whitespace.
pub proof fn lemma_whitespace_end(s: Seq<u8>, pos: int)
    ensures
        pos <= whitespace_end(s, pos),
        pos <= s.len() ==> whitespace_end(s, pos) <= s.len(),
        0 <= whitespace_end(s, pos) < s.len() ==> !whitespace(s[whitespace_end(s, pos)]),
        forall|i: int| pos <= i < whitespace_end(s, pos) ==> 0 <= i && whitespace(#[trigger] s[i]),
    decreases s.len() - pos,
{
    if 0 <= pos < s.len() && whitespace(s[pos]) {
        lemma_whitespace_end(s, pos + 1);
    }
}

/// A word ends at or after its start and within the input, before a byte
/// that is no name byte, and holds name bytes only.
pub proof fn lemma_word_end(s: Seq<u8>, pos: int)
    ensures
        pos <= word_end(s, pos),
        pos <= s.len() ==> word_end(s, pos) <= s.len(),
        0 <= word_end(s, pos) < s.len() ==> !name_byte(s[word_end(s, pos)]),
        forall|i: int| pos <= i < word_end(s, pos) ==> 0 <= i && name_byte(#[trigger] s[i]),
    decreases s.len() - pos,
{
    if 0 <= pos < s.len() && name_byte(s[pos]) {
        lemma_word_end(s, pos + 1);
    }
}

/// A run of digits ends at or after its start and within the input, before
/// a byte that is no digit, and holds digits only.
pub proof fn lemma_digits_end(s: Seq<u8>, pos: int)
    ensures
        pos <= digits_end(s, pos),
        pos <= s.len() ==> digits_end(s, pos) <= s.len(),
        0 <= digits_end(s, pos) < s.len() ==> !digit(s[digits_end(s, pos)]),
        forall|i: int| pos <= i < digits_end(s, pos) ==> 0 <= i && digit(#[trigger] s[i]),
    decreases s.len() - pos,
{
    if 0 <= pos < s.len() && digit(s[pos]) {
        lemma_digits_end(s, pos + 1);
    }
}

/// The bytes of the word `inputs`.
pub open spec fn inputs_word() -> Seq<u8> {
    seq![0x69u8, 0x6eu8, 0x70u8, 0x75u8, 0x74u8, 0x73u8]
}

/// The bytes of the word `outputs`.
pub open spec fn outputs_word() -> Seq<u8> {
    seq![0x6fu8, 0x75u8, 0x74u8, 0x70u8, 0x75u8, 0x74u8, 0x73u8]
}

/// The bytes of the word `match`.
pub open spec fn match_word() -> Seq<u8> {
    seq![0x6du8, 0x61u8, 0x74u8, 0x63u8, 0x68u8]
}

/// A word that the grammar keeps for itself, so that it is no name.
pub open spec fn reserved(word: Seq<u8>) -> bool {
    word == inputs_word() || word == outputs_word() || word == match_word()
}

/// The name that starts at `pos` and the position after it: the longest
/// run of name bytes, where it is not empty, not reserved, and text.
pub open spec fn name_at(s: Seq<u8>, pos: int) -> Option<(Seq<char>, int)> {
    let end = word_end(s, pos);
    let word = s.subrange(pos, end);
    if 0 <= pos < end <= s.len() && !reserved(word) && valid_utf8(word) {
        Some((decode_utf8(word), end))
    } else {
        None
    }
}

/// The number that a run of digits writes in base ten.
pub open spec fn decimal(digits: Seq<u8>) -> nat
    decreases digits.len(),
{
    if digits.len() == 0 {
        0
    } else {
        (decimal(digits.drop_last()) * 10 + (digits.last() - ZERO)) as nat
    }
}

/// The integer literal that starts at `pos` and the position after it: an
/// optional `-`, then the longest run of digits, which is not empty and
/// writes a number in the range of `i64`.
pub open spec fn integer_at(s: Seq<u8>, pos: int) -> Option<(i64, int)> {
    let negative = 0 <= pos < s.len() && s[pos] == MINUS;
    let start = if negative {
        pos + 1
    } else {
        pos
    };
    let end = digits_end(s, start);
    let magnitude = decimal(s.subrange(start, end));
    let value = if negative {
        -magnitude
    } else {
        magnitude as int
    };
    if 0 <= start < end <= s.len() && i64::MIN <= value <= i64::MAX {
        Some((value as i64, end))
    } else {
        None
    }
}

pub(crate) fn is_whitespace(byte: u8) -> (is: bool)
    ensures
        is == whitespace(byte),
{
    nom::is_space(byte) || byte == CARRIAGE_RETURN || byte == LINE_FEED
}

pub(crate) fn is_punctuation(byte: u8) -> (is: bool)
    ensures
        is == punctuation(byte),
{
    byte == EQUALS || byte == OPEN || byte == CLOSE || byte == COMMA || byte == SEMICOLON
}

/// The position of the first byte at or after `pos` that is no whitespace.
pub fn skip_whitespace(input: &[u8], pos: usize) -> (end: usize)
    requires
        pos <= input.len(),
    ensures
        end == whitespace_end(input@, pos as int),
        pos <= end <= input.len(),
{
    let mut i: usize = pos;
    while i < input.len() && is_whitespace(input[i])
        invariant
            pos <= i <= input.len(),
            whitespace_end(input@, pos as int) == whitespace_end(input@, i as int),
        decreases input.len() - i,
    {
        i += 1;
    }
    i
}

/// The end of the longest run of name bytes that starts at `pos`.
pub(crate) fn scan_word(input: &[u8], pos: usize) -> (end: usize)
    requires
        pos <= input.len(),
    ensures
        end == word_end(input@, pos as int),
        pos <= end <= input.len(),
{
    let mut i: usize = pos;
    while i < input.len() && !is_whitespace(input[i]) && !is_punctuation(input[i])
        invariant
            pos <= i <= input.len(),
            word_end(input@, pos as int) == word_end(input@, i as int),
        decreases input.len() - i,
    {
        i += 1;
    }
    i
}

/// The text that the bytes encode in UTF-8, by `String::from_utf8`: it is
/// there exactly where the bytes are valid UTF-8, and is what they decode to.
#[verifier::external_body]
pub fn to_str(u8s: &[u8]) -> (text: Result<String, FromUtf8Error>)
    ensures
        text is Ok <==> valid_utf8(u8s@),
        text matches Ok(t) ==> t@ == decode_utf8(u8s@),
{
    String::from_utf8(u8s.to_vec())
}

/// Whether the bytes are the word `inputs`.
pub(crate) fn is_inputs_word(word: &[u8]) -> (is: bool)
    ensures
        is == (word@ == inputs_word()),
{
    let is = word.len() == 6 && word[0] == 0x69 && word[1] == 0x6e && word[2] == 0x70 && word[3]
        == 0x75 && word[4] == 0x74 && word[5] == 0x73;
    proof {
        if is {
            assert(word@ =~= inputs_word());
        } else if word.len() == 6 {
            assert(inputs_word()[0] == 0x69 && inputs_word()[1] == 0x6e && inputs_word()[2] == 0x70
                && inputs_word()[3] == 0x75 && inputs_word()[4] == 0x74 && inputs_word()[5]
                == 0x73);
        } else {
            assert(inputs_word().len() == 6);
        }
    }
    is
}

/// Whether the bytes are the word `outputs`.
pub(crate) fn is_outputs_word(word: &[u8]) -> (is: bool)
    ensures
        is == (word@ == outputs_word()),
{
    let is = word.len() == 7 && word[0] == 0x6f && word[1] == 0x75 && word[2] == 0x74 && word[3]
        == 0x70 && word[4] == 0x75 && word[5] == 0x74 && word[6] == 0x73;
    proof {
        if is {
            assert(word@ =~= outputs_word());
        } else if word.len() == 7 {
            assert(outputs_word()[0] == 0x6f && outputs_word()[1] == 0x75 && outputs_word()[2]
                == 0x74 && outputs_word()[3] == 0x70 && outputs_word()[4] == 0x75
                && outputs_word()[5] == 0x74 && outputs_word()[6] == 0x73);
        } else {
            assert(outputs_word().len() == 7);
        }
    }
    is
}

/// Whether the bytes are the word `match`.
pub(crate) fn is_match_word(word: &[u8]) -> (is: bool)
    ensures
        is == (word@ == match_word()),
{
    let is = word.len() == 5 && word[0] == 0x6d && word[1] == 0x61 && word[2] == 0x74 && word[3]
        == 0x63 && word[4] == 0x68;
    proof {
        if is {
            assert(word@ =~= match_word());
        } else if word.len() == 5 {
            assert(match_word()[0] == 0x6d && match_word()[1] == 0x61 && match_word()[2] == 0x74
                && match_word()[3] == 0x63 && match_word()[4] == 0x68);
        } else {
            assert(match_word().len() == 5);
        }
    }
    is
}

/// The name that starts at `pos`, and the position after it.
pub fn name(input: &[u8], pos: usize) -> (found: Option<(Name, usize)>)
    requires
        pos <= input.len(),
    ensures
        match name_at(input@, pos as int) {
            Some((text, end)) => found matches Some((name, e)) && name@ == text && e == end && pos
                < e <= input.len(),
            None => found is None,
        },
{
    let end = scan_word(input, pos);
    if end == pos {
        return None;
    }
    let word = &input[pos..end];
    if is_inputs_word(word) || is_outputs_word(word) || is_match_word(word) {
        return None;
    }
    match to_str(word) {
        Ok(text) => Some((Name(text), end)),
        Err(_) => None,
    }
}

/// The integer literal that starts at `pos`, and the position after it.
pub fn integer(input: &[u8], pos: usize) -> (found: Option<(i64, usize)>)
    requires
        pos <= input.len(),
    ensures
        match integer_at(input@, pos as int) {
            Some((value, end)) => found == Some((value, end as usize)) && pos < end <= input.len(),
            None => found is None,
        },
{
    let negative = pos < input.len() && input[pos] == MINUS;
    let start: usize = if negative {
        pos + 1
    } else {
        pos
    };
    let mut i: usize = start;
    // The number read so far, negated: every `i64` has its negative
    // magnitude in range.
    let mut value: i64 = 0;
    let mut in_range = true;
    let ghost s = input@;
    while i < input.len() && nom::is_digit(input[i])
        invariant
            s == input@,
            start <= i <= input.len(),
            digits_end(s, start as int) == digits_end(s, i as int),
            in_range ==> value == -decimal(s.subrange(start as int, i as int)),
            !in_range ==> decimal(s.subrange(start as int, i as int)) > -i64::MIN,
        decreases input.len() - i,
    {
        proof {
            let longer = s.subrange(start as int, i + 1);
            assert(longer.drop_last() =~= s.subrange(start as int, i as int));
            assert(longer.last() == s[i as int]);
        }
        let d: i64 = (input[i] - ZERO) as i64;
        if in_range {
            match value.checked_mul(10) {
                Some(tenfold) => match tenfold.checked_sub(d) {
                    Some(next) => {
                        value = next;
                    },
                    None => {
                        in_range = false;
                    },
                },
                None => {
                    in_range = false;
                },
            }
        }
        i += 1;
    }
    if i == start || !in_range {
        None
    } else if negative {
        Some((value, i))
    } else if value == i64::MIN {
        None
    } else {
        Some((-value, i))
    }
}

} // verus!
