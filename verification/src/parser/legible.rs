//! What the parser makes is legible, so that its text parses back to it:
//! a tree that was parsed, written out and parsed again is the same tree.

use vstd::prelude::*;
use vstd::utf8::encode_utf8;
use crate::ast::{ExpressionView, OperandView, Operator, TokenView};
use crate::parser::expression::{
    advances, arguments_at, clause_at, clauses_at, expression_at, mark_at, match_at,
    more_arguments_at, more_clauses_at, operand_at, operator_at, tail_at,
};
use crate::parser::lexical::{
    integer_at, lemma_whitespace_end, lemma_word_end, match_word, name_at, whitespace_end,
    word_end, CLOSE, COMMA, EQUALS, OPEN, SEMICOLON,
};
use crate::parser::lexical_laws::{
    lemma_integer_within, lemma_name_read, lemma_whitespace_end_exact, lemma_word_at, word_at,
};
use crate::parser::readback::{
    closes_at, legible_expression, legible_operand, lemma_expression_back, operand_name,
};
use crate::printer::expression_text;
use crate::shunting_yard::{flat_tokens, lemma_shunt_keeps_tokens, lemma_shunt_shaped, shunt};

verus! {

/// Whether every operand of a flat expression is legible.
pub open spec fn legible_flat(first: OperandView, rest: Seq<(Operator, OperandView)>) -> bool {
    legible_operand(first) && forall|j: int|
        0 <= j < rest.len() ==> legible_operand((#[trigger] rest[j]).1)
}

/// Whether every operand among the tokens is legible.
pub open spec fn legible_tokens(tokens: Seq<TokenView>) -> bool {
    forall|i: int|
        0 <= i < tokens.len() ==> (#[trigger] tokens[i] matches TokenView::Operand(operand)
            ==> legible_operand(operand))
}

/// The operands among the tokens of a flat expression are its operands.
pub proof fn lemma_flat_tokens_legible(first: OperandView, rest: Seq<(Operator, OperandView)>)
    requires
        legible_flat(first, rest),
    ensures
        legible_tokens(flat_tokens(first, rest)),
    decreases rest.len(),
{
    if rest.len() > 0 {
        let before = rest.drop_last();
        assert forall|j: int| 0 <= j < before.len() implies legible_operand(
            (#[trigger] before[j]).1,
        ) by {
            assert(before[j] == rest[j]);
        }
        lemma_flat_tokens_legible(first, before);
        let tokens = flat_tokens(first, rest);
        let shorter = flat_tokens(first, before);
        assert forall|i: int| 0 <= i < tokens.len() implies (
        #[trigger] tokens[i] matches TokenView::Operand(operand) ==> legible_operand(operand)) by {
            if i < shorter.len() {
                assert(tokens[i] == shorter[i]);
            } else if i == shorter.len() + 1 {
                assert(tokens[i] == TokenView::Operand(rest.last().1));
                assert(rest.last() == rest[rest.len() - 1]);
            }
        }
    }
}

/// A shaped tree whose operands are legible is legible.
pub proof fn lemma_legible_from_tokens(expression: ExpressionView)
    requires
        expression.shaped(),
        legible_tokens(expression.tokens()),
    ensures
        legible_expression(expression),
    decreases expression,
{
    let tokens = expression.tokens();
    match expression {
        ExpressionView::Operand(operand) => {
            assert(tokens[0] == TokenView::Operand(operand));
        },
        ExpressionView::Operation(operator, lhs, rhs) => {
            let left = lhs.tokens();
            let right = rhs.tokens();
            assert forall|i: int| 0 <= i < left.len() implies (
            #[trigger] left[i] matches TokenView::Operand(operand) ==> legible_operand(operand)) by {
                assert(tokens[i] == left[i]);
            }
            assert forall|i: int| 0 <= i < right.len() implies (
            #[trigger] right[i] matches TokenView::Operand(operand) ==> legible_operand(
                operand,
            )) by {
                assert(tokens[left.len() + 1 + i] == right[i]);
            }
            lemma_legible_from_tokens(*lhs);
            lemma_legible_from_tokens(*rhs);
        },
    }
}

/// The tree that the reducer makes of legible operands is legible.
pub proof fn lemma_shunt_legible(first: OperandView, rest: Seq<(Operator, OperandView)>)
    requires
        legible_flat(first, rest),
    ensures
        legible_expression(shunt(first, rest)),
{
    lemma_shunt_keeps_tokens(first, rest);
    lemma_shunt_shaped(first, rest);
    lemma_flat_tokens_legible(first, rest);
    lemma_legible_from_tokens(shunt(first, rest));
}

/// An expression that was parsed is legible.
pub proof fn lemma_parsed_expression(s: Seq<u8>, pos: int)
    requires
        expression_at(s, pos) is Some,
    ensures
        legible_expression(expression_at(s, pos).unwrap().0),
    decreases s.len() - pos, 1nat,
{
    let (first, after) = operand_at(s, pos).unwrap();
    lemma_parsed_operand(s, pos);
    lemma_parsed_tail(s, after);
    lemma_shunt_legible(first, tail_at(s, after).0);
}

/// The operands that were parsed behind an operand are legible.
pub proof fn lemma_parsed_tail(s: Seq<u8>, pos: int)
    ensures
        forall|j: int|
            0 <= j < tail_at(s, pos).0.len() ==> legible_operand((#[trigger] tail_at(s, pos).0[j]).1),
    decreases s.len() - pos, 0nat,
{
    let at = whitespace_end(s, pos);
    match operator_at(s, at) {
        None => {},
        Some(operator) => {
            lemma_whitespace_end(s, pos);
            lemma_whitespace_end(s, at + 1);
            let start = whitespace_end(s, at + 1);
            match operand_at(s, start) {
                None => {},
                Some((operand, after)) => {
                    if advances(s, pos, after) {
                        lemma_parsed_operand(s, start);
                        lemma_parsed_tail(s, after);
                        let more = tail_at(s, after).0;
                        let all = tail_at(s, pos).0;
                        assert(all == seq![(operator, operand)] + more);
                        assert forall|j: int| 0 <= j < all.len() implies legible_operand(
                            (#[trigger] all[j]).1,
                        ) by {
                            if j > 0 {
                                assert(all[j] == more[j - 1]);
                            }
                        }
                    }
                },
            }
        },
    }
}

/// An operand that was parsed is legible.
pub proof fn lemma_parsed_operand(s: Seq<u8>, pos: int)
    requires
        operand_at(s, pos) is Some,
    ensures
        legible_operand(operand_at(s, pos).unwrap().0),
    decreases s.len() - pos, 0nat,
{
    match integer_at(s, pos) {
        Some(_) => {},
        None => {
            let end = word_end(s, pos);
            if 0 <= pos < end <= s.len() && s.subrange(pos, end) == match_word() {
                lemma_parsed_match(s, end);
            } else {
                match name_at(s, pos) {
                    Some((name, end)) => {
                        lemma_name_read(s, pos);
                        let word = encode_utf8(name);
                        assert(word.len() == end - pos);
                        lemma_word_at(s, pos, word);
                        assert(word_at(s, pos, word));
                        lemma_integer_within(s, pos, word);
                        assert(operand_name(name));
                        let open = whitespace_end(s, end);
                        if mark_at(s, open, OPEN) {
                            lemma_whitespace_end(s, end);
                            lemma_whitespace_end(s, open + 1);
                            lemma_parsed_arguments(s, whitespace_end(s, open + 1));
                            let args = arguments_at(s, whitespace_end(s, open + 1)).0;
                            assert(operand_at(s, pos).unwrap().0 == OperandView::FnApplication(
                                name,
                                args,
                            ));
                        } else {
                            assert(operand_at(s, pos).unwrap().0 == OperandView::VarSubstitution(
                                name,
                            ));
                        }
                    },
                    None => {
                        if mark_at(s, pos, OPEN) {
                            lemma_whitespace_end(s, pos + 1);
                            lemma_parsed_expression(s, whitespace_end(s, pos + 1));
                        }
                    },
                }
            }
        },
    }
}

/// The arguments that were parsed are legible.
pub proof fn lemma_parsed_arguments(s: Seq<u8>, pos: int)
    ensures
        forall|i: int|
            0 <= i < arguments_at(s, pos).0.len() ==> legible_expression(
                #[trigger] arguments_at(s, pos).0[i],
            ),
    decreases s.len() - pos, 2nat,
{
    match expression_at(s, pos) {
        None => {},
        Some((e, after)) => {
            if advances(s, pos, after) {
                lemma_parsed_expression(s, pos);
                lemma_parsed_more_arguments(s, after);
                let more = more_arguments_at(s, after).0;
                let all = arguments_at(s, pos).0;
                assert(all == seq![e] + more);
                assert forall|i: int| 0 <= i < all.len() implies legible_expression(
                    #[trigger] all[i],
                ) by {
                    if i > 0 {
                        assert(all[i] == more[i - 1]);
                    }
                }
            }
        },
    }
}

/// The arguments that were parsed behind commas are legible.
pub proof fn lemma_parsed_more_arguments(s: Seq<u8>, pos: int)
    ensures
        forall|i: int|
            0 <= i < more_arguments_at(s, pos).0.len() ==> legible_expression(
                #[trigger] more_arguments_at(s, pos).0[i],
            ),
    decreases s.len() - pos, 0nat,
{
    let comma = whitespace_end(s, pos);
    if mark_at(s, comma, COMMA) {
        lemma_whitespace_end(s, pos);
        lemma_whitespace_end(s, comma + 1);
        let start = whitespace_end(s, comma + 1);
        match expression_at(s, start) {
            None => {},
            Some((e, after)) => {
                if advances(s, pos, after) {
                    lemma_parsed_expression(s, start);
                    lemma_parsed_more_arguments(s, after);
                    let more = more_arguments_at(s, after).0;
                    let all = more_arguments_at(s, pos).0;
                    assert(all == seq![e] + more);
                    assert forall|i: int| 0 <= i < all.len() implies legible_expression(
                        #[trigger] all[i],
                    ) by {
                        if i > 0 {
                            assert(all[i] == more[i - 1]);
                        }
                    }
                }
            },
        }
    }
}

/// Whether both sides of every clause are legible.
pub open spec fn legible_clauses(clauses: Seq<(ExpressionView, ExpressionView)>) -> bool {
    forall|i: int|
        0 <= i < clauses.len() ==> legible_expression((#[trigger] clauses[i]).0)
            && legible_expression(clauses[i].1)
}

/// A match that was parsed is legible.
pub proof fn lemma_parsed_match(s: Seq<u8>, pos: int)
    requires
        match_at(s, pos) is Some,
    ensures
        legible_operand(match_at(s, pos).unwrap().0),
    decreases s.len() - pos, 4nat,
{
    let open = whitespace_end(s, pos);
    lemma_whitespace_end(s, pos);
    lemma_whitespace_end(s, open + 1);
    let p_with = whitespace_end(s, open + 1);
    lemma_parsed_expression(s, p_with);
    let after_with = expression_at(s, p_with).unwrap().1;
    let first = whitespace_end(s, after_with);
    lemma_whitespace_end(s, first + 1);
    let p_list = whitespace_end(s, first + 1);
    lemma_parsed_clauses(s, p_list);
    let after_clauses = clauses_at(s, p_list).1;
    let second = whitespace_end(s, after_clauses);
    lemma_whitespace_end(s, second + 1);
    lemma_parsed_expression(s, whitespace_end(s, second + 1));
}

/// A clause that was parsed has two legible sides.
pub proof fn lemma_parsed_clause(s: Seq<u8>, pos: int)
    requires
        clause_at(s, pos) is Some,
    ensures
        legible_expression(clause_at(s, pos).unwrap().0.0),
        legible_expression(clause_at(s, pos).unwrap().0.1),
    decreases s.len() - pos, 2nat,
{
    lemma_parsed_expression(s, pos);
    let after = expression_at(s, pos).unwrap().1;
    let equals = whitespace_end(s, after);
    lemma_whitespace_end(s, equals + 1);
    lemma_parsed_expression(s, whitespace_end(s, equals + 1));
}

/// The clauses that were parsed are legible.
pub proof fn lemma_parsed_clauses(s: Seq<u8>, pos: int)
    ensures
        legible_clauses(clauses_at(s, pos).0),
    decreases s.len() - pos, 3nat,
{
    match clause_at(s, pos) {
        None => {},
        Some((clause, after)) => {
            if advances(s, pos, after) {
                lemma_parsed_clause(s, pos);
                lemma_parsed_more_clauses(s, after);
                let more = more_clauses_at(s, after).0;
                let all = clauses_at(s, pos).0;
                assert(all == seq![clause] + more);
                assert forall|i: int| 0 <= i < all.len() implies legible_expression(
                    (#[trigger] all[i]).0,
                ) && legible_expression(all[i].1) by {
                    if i > 0 {
                        assert(all[i] == more[i - 1]);
                    }
                }
            }
        },
    }
}

/// The clauses that were parsed behind commas are legible.
pub proof fn lemma_parsed_more_clauses(s: Seq<u8>, pos: int)
    ensures
        legible_clauses(more_clauses_at(s, pos).0),
    decreases s.len() - pos, 0nat,
{
    let comma = whitespace_end(s, pos);
    if mark_at(s, comma, COMMA) {
        lemma_whitespace_end(s, pos);
        lemma_whitespace_end(s, comma + 1);
        let start = whitespace_end(s, comma + 1);
        match clause_at(s, start) {
            None => {},
            Some((clause, after)) => {
                if advances(s, pos, after) {
                    lemma_parsed_clause(s, start);
                    lemma_parsed_more_clauses(s, after);
                    let more = more_clauses_at(s, after).0;
                    let all = more_clauses_at(s, pos).0;
                    assert(all == seq![clause] + more);
                    assert forall|i: int| 0 <= i < all.len() implies legible_expression(
                        (#[trigger] all[i]).0,
                    ) && legible_expression(all[i].1) by {
                        if i > 0 {
                            assert(all[i] == more[i - 1]);
                        }
                    }
                }
            },
        }
    }
}

/// The round trip: an expression that was parsed, written out and parsed
/// again is the same expression, and the second parse takes in the whole
/// text.
pub proof fn lemma_expression_round_trip(s: Seq<u8>, pos: int)
    requires
        expression_at(s, pos) is Some,
    ensures
        expression_at(expression_text(expression_at(s, pos).unwrap().0), 0) == Some(
            (
                expression_at(s, pos).unwrap().0,
                expression_text(expression_at(s, pos).unwrap().0).len() as int,
            ),
        ),
{
    let expression = expression_at(s, pos).unwrap().0;
    let text = expression_text(expression);
    lemma_parsed_expression(s, pos);
    lemma_word_at(text, 0, text);
    assert(text.subrange(0, text.len() as int) =~= text);
    lemma_whitespace_end_exact(text, text.len() as int, text.len() as int);
    lemma_expression_back(text, 0, expression);
}

} // verus!
