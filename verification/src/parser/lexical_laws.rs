//! What the lexical rules give back when they read what was written by
//! them: a run of bytes of one class ends where the class ends, a number
//! written in base ten reads as itself, and so does a name.

use vstd::prelude::*;
use vstd::utf8::{
    decode_utf8, decode_utf8_encode_utf8, encode_utf8, encode_utf8_decode_utf8,
    encode_utf8_valid_utf8, valid_utf8,
};
use crate::parser::lexical::{
    decimal, digit, digits_end, integer_at, lemma_digits_end, lemma_whitespace_end,
    lemma_word_end, name_at, name_byte, reserved, whitespace, whitespace_end, word_end,
    MINUS, ZERO,
};
use crate::printer::{digits, integer_text};

verus! {

/// Whether the input holds `word` at `pos`.
#[verifier::opaque]
pub open spec fn word_at(s: Seq<u8>, pos: int, word: Seq<u8>) -> bool {
    0 <= pos && pos + word.len() <= s.len() && s.subrange(pos, pos + word.len()) == word
}

/// Text that the input holds lies within the input, and is what stands
/// there.
pub proof fn lemma_word_at(s: Seq<u8>, pos: int, word: Seq<u8>)
    ensures
        word_at(s, pos, word) <==> 0 <= pos && pos + word.len() <= s.len() && s.subrange(
            pos,
            pos + word.len(),
        ) == word,
{
    reveal(word_at);
}

/// The input holds text piece by piece.
pub proof fn lemma_word_at_split(s: Seq<u8>, pos: int, a: Seq<u8>, b: Seq<u8>)
    requires
        0 <= pos,
    ensures
        word_at(s, pos, a + b) <==> word_at(s, pos, a) && word_at(s, pos + a.len(), b),
{
    reveal(word_at);
    let whole = a + b;
    if word_at(s, pos, whole) {
        assert(s.subrange(pos, pos + a.len()) =~= whole.subrange(0, a.len() as int));
        assert(whole.subrange(0, a.len() as int) =~= a);
        assert(s.subrange(pos + a.len(), pos + a.len() + b.len()) =~= whole.subrange(
            a.len() as int,
            whole.len() as int,
        ));
        assert(whole.subrange(a.len() as int, whole.len() as int) =~= b);
    }
    if word_at(s, pos, a) && word_at(s, pos + a.len(), b) {
        assert(s.subrange(pos, pos + whole.len()) =~= s.subrange(pos, pos + a.len()) + s.subrange(
            pos + a.len(),
            pos + a.len() + b.len(),
        ));
    }
}

/// The byte at a place within text that stands in the input.
pub proof fn lemma_word_at_byte(s: Seq<u8>, pos: int, word: Seq<u8>, i: int)
    requires
        word_at(s, pos, word),
        0 <= i < word.len(),
    ensures
        s[pos + i] == word[i],
        0 <= pos,
        pos + word.len() <= s.len(),
{
    reveal(word_at);
    assert(s.subrange(pos, pos + word.len())[i] == word[i]);
}

/// Whitespace that is all whitespace and is followed by none ends there.
pub proof fn lemma_whitespace_end_exact(s: Seq<u8>, pos: int, end: int)
    requires
        0 <= pos <= end <= s.len(),
        forall|i: int| pos <= i < end ==> whitespace(#[trigger] s[i]),
        end == s.len() || !whitespace(s[end]),
    ensures
        whitespace_end(s, pos) == end,
    decreases end - pos,
{
    if pos < end {
        lemma_whitespace_end_exact(s, pos + 1, end);
    }
}

/// A run of name bytes that is followed by none ends there.
pub proof fn lemma_word_end_exact(s: Seq<u8>, pos: int, end: int)
    requires
        0 <= pos <= end <= s.len(),
        forall|i: int| pos <= i < end ==> name_byte(#[trigger] s[i]),
        end == s.len() || !name_byte(s[end]),
    ensures
        word_end(s, pos) == end,
    decreases end - pos,
{
    if pos < end {
        lemma_word_end_exact(s, pos + 1, end);
    }
}

/// A run of digits that is followed by none ends there.
pub proof fn lemma_digits_end_exact(s: Seq<u8>, pos: int, end: int)
    requires
        0 <= pos <= end <= s.len(),
        forall|i: int| pos <= i < end ==> digit(#[trigger] s[i]),
        end == s.len() || !digit(s[end]),
    ensures
        digits_end(s, pos) == end,
    decreases end - pos,
{
    if pos < end {
        lemma_digits_end_exact(s, pos + 1, end);
    }
}

/// The digits of a number are digits, at least one, and write the number.
pub proof fn lemma_digits(n: nat)
    ensures
        digits(n).len() > 0,
        forall|i: int| 0 <= i < digits(n).len() ==> digit(#[trigger] digits(n)[i]),
        decimal(digits(n)) == n,
    decreases n,
{
    if n < 10 {
        let one = digits(n);
        assert(one.drop_last() =~= Seq::<u8>::empty());
        assert(decimal(one.drop_last()) == 0);
    } else {
        lemma_digits(n / 10);
        let more = digits(n);
        assert(more.drop_last() =~= digits(n / 10));
    }
}

/// An integer that was written reads as itself, where no digit follows.
pub proof fn lemma_integer_back(s: Seq<u8>, pos: int, n: i64)
    requires
        word_at(s, pos, integer_text(n)),
        pos + integer_text(n).len() == s.len() || !digit(s[pos + integer_text(n).len()]),
    ensures
        integer_at(s, pos) == Some((n, pos + integer_text(n).len())),
{
    let text = integer_text(n);
    let end = pos + text.len();
    lemma_word_at(s, pos, text);
    let magnitude: nat = if n < 0 {
        (-n) as nat
    } else {
        n as nat
    };
    lemma_digits(magnitude);
    let written = digits(magnitude);
    let start = if n < 0 {
        pos + 1
    } else {
        pos
    };
    if n < 0 {
        lemma_word_at_split(s, pos, seq![MINUS], written);
        lemma_word_at_byte(s, pos, seq![MINUS], 0);
    } else {
        lemma_word_at_byte(s, pos, written, 0);
        assert(digit(written[0]));
    }
    assert(word_at(s, start, written));
    assert forall|i: int| start <= i < end implies digit(#[trigger] s[i]) by {
        lemma_word_at_byte(s, start, written, i - start);
    }
    lemma_digits_end_exact(s, start, end);
    lemma_word_at(s, start, written);
}

/// A word: bytes that a name may hold, at least one.
pub open spec fn word_like(word: Seq<u8>) -> bool {
    word.len() > 0 && forall|i: int| 0 <= i < word.len() ==> name_byte(#[trigger] word[i])
}

/// Within a word that stands in the input and is followed by no digit, a
/// run of digits ends where it ends in the word alone.
pub proof fn lemma_digits_end_within(s: Seq<u8>, pos: int, word: Seq<u8>, i: int)
    requires
        word_at(s, pos, word),
        0 <= i <= word.len(),
        pos + word.len() == s.len() || !digit(s[pos + word.len()]),
    ensures
        digits_end(s, pos + i) == pos + digits_end(word, i),
    decreases word.len() - i,
{
    if i < word.len() {
        lemma_word_at_byte(s, pos, word, i);
        lemma_digits_end_within(s, pos, word, i + 1);
    }
}

/// A word that stands in the input and is followed by no name byte is an
/// integer literal there exactly where it is one alone.
pub proof fn lemma_integer_within(s: Seq<u8>, pos: int, word: Seq<u8>)
    requires
        word_like(word),
        word_at(s, pos, word),
        pos + word.len() == s.len() || !name_byte(s[pos + word.len()]),
    ensures
        integer_at(s, pos) is None <==> integer_at(word, 0) is None,
{
    lemma_word_at_byte(s, pos, word, 0);
    lemma_word_at(s, pos, word);
    let negative = word[0] == MINUS;
    let start: int = if negative {
        1
    } else {
        0
    };
    lemma_digits_end_within(s, pos, word, start);
    lemma_digits_end(word, start);
    let end = digits_end(word, start);
    assert(s.subrange(pos + start, pos + end) =~= word.subrange(start, end));
}

/// A name that can be written and read: its bytes are a word that the
/// grammar does not keep for itself.
pub open spec fn good_name(name: Seq<char>) -> bool {
    word_like(encode_utf8(name)) && !reserved(encode_utf8(name))
}

/// A name that was written reads as itself, where no name byte follows.
pub proof fn lemma_name_back(s: Seq<u8>, pos: int, name: Seq<char>)
    requires
        good_name(name),
        word_at(s, pos, encode_utf8(name)),
        pos + encode_utf8(name).len() == s.len() || !name_byte(s[pos + encode_utf8(name).len()]),
    ensures
        name_at(s, pos) == Some((name, pos + encode_utf8(name).len())),
        word_end(s, pos) == pos + encode_utf8(name).len(),
{
    let word = encode_utf8(name);
    let end = pos + word.len();
    lemma_word_at(s, pos, word);
    assert forall|i: int| pos <= i < end implies name_byte(#[trigger] s[i]) by {
        lemma_word_at_byte(s, pos, word, i - pos);
    }
    lemma_word_end_exact(s, pos, end);
    lemma_word_at(s, pos, word);
    encode_utf8_valid_utf8(name);
    encode_utf8_decode_utf8(name);
}

/// A name that was read can be written: it is a good name, and its bytes
/// are the word that was read.
pub proof fn lemma_name_read(s: Seq<u8>, pos: int)
    requires
        name_at(s, pos) is Some,
    ensures
        good_name(name_at(s, pos).unwrap().0),
        encode_utf8(name_at(s, pos).unwrap().0) == s.subrange(pos, word_end(s, pos)),
        name_at(s, pos).unwrap().1 == word_end(s, pos),
        pos < word_end(s, pos) <= s.len(),
        word_end(s, pos) == s.len() || !name_byte(s[word_end(s, pos)]),
{
    let end = word_end(s, pos);
    let word = s.subrange(pos, end);
    lemma_word_end(s, pos);
    decode_utf8_encode_utf8(word);
    assert forall|i: int| 0 <= i < word.len() implies name_byte(#[trigger] word[i]) by {
        assert(word[i] == s[pos + i]);
    }
}

} // verus!
