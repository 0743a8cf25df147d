//! What was written is read back: the text of a tree that the parser can
//! make parses to that tree.
//!
//! A tree is legible where it is shaped as the reducer shapes trees, its
//! names can be written and read, and no name in the place of an operand
//! reads as an integer. The text of a legible tree, followed by the end of
//! the input or by closing punctuation, parses to the tree and stops at
//! the end of the text.

use vstd::prelude::*;
use vstd::utf8::encode_utf8;
use crate::ast::{ExpressionView, OperandView, Operator};
use crate::parser::expression::{
    advances, arguments_at, clause_at, clauses_at, expression_at, mark_at, match_at,
    more_arguments_at, more_clauses_at, operand_at, operator_at, tail_at,
};
use crate::parser::lexical::{
    digit, digits_end, integer_at, lemma_whitespace_end, match_word, name_at, name_byte,
    punctuation, reserved, whitespace, whitespace_end, word_end, CLOSE, COMMA, EQUALS,
    MINUS, OPEN, PLUS, SEMICOLON, SLASH, SPACE, STAR,
};
use crate::parser::lexical_laws::{
    good_name, lemma_digits, lemma_integer_back, lemma_integer_within, lemma_name_back,
    lemma_whitespace_end_exact, lemma_word_at, lemma_word_at_byte, lemma_word_at_split,
    lemma_word_end_exact, word_at, word_like,
};
use crate::printer::{
    arguments_text, clause_text, clauses_text, digits, expression_text, integer_text,
    operand_text, operator_byte, parenthesised, separator, side_text,
};
use crate::semantics::clause_count;
use crate::shunting_yard::{flatten, lemma_shunt_inverts_flatten, shunt};

verus! {

/// Punctuation that ends an expression.
pub open spec fn closing(byte: u8) -> bool {
    byte == CLOSE || byte == COMMA || byte == SEMICOLON || byte == EQUALS
}

/// Whether an operand may end at `end`: no name byte stands there, and
/// what follows the whitespace from there on is no opening parenthesis.
pub open spec fn follows_at(s: Seq<u8>, end: int) -> bool {
    &&& 0 <= end <= s.len()
    &&& end == s.len() || !name_byte(s[end])
    &&& !mark_at(s, whitespace_end(s, end), OPEN)
}

/// Whether an expression may end at `end`: no name byte stands there, and
/// what follows the whitespace from there on is the end of the input or
/// closing punctuation.
pub open spec fn closes_at(s: Seq<u8>, end: int) -> bool {
    &&& 0 <= end <= s.len()
    &&& end == s.len() || !name_byte(s[end])
    &&& whitespace_end(s, end) == s.len() || closing(s[whitespace_end(s, end)])
}

/// A name that can stand for an operand: one that can be written and
/// read, and that does not read as an integer.
pub open spec fn operand_name(name: Seq<char>) -> bool {
    good_name(name) && integer_at(encode_utf8(name), 0) is None
}

/// Whether the text of an expression parses to the expression.
pub open spec fn legible_expression(expression: ExpressionView) -> bool
    decreases expression, 0nat,
{
    match expression {
        ExpressionView::Operand(operand) => legible_operand(operand),
        ExpressionView::Operation(operator, lhs, rhs) => {
            &&& legible_expression(*lhs)
            &&& legible_expression(*rhs)
            &&& lhs.binds_at_least(operator.rank())
            &&& rhs.binds_tighter_than(operator.rank())
        },
    }
}

/// Whether the text of an operand parses to the operand.
pub open spec fn legible_operand(operand: OperandView) -> bool
    decreases operand, 0nat,
{
    match operand {
        OperandView::I64(_) => true,
        OperandView::Group(e) => legible_expression(*e),
        OperandView::VarSubstitution(name) => operand_name(name),
        OperandView::FnApplication(name, args) => operand_name(name) && forall|i: int|
            0 <= i < args.len() ==> legible_expression(#[trigger] args[i]),
        OperandView::Match(with, clauses, default) => {
            &&& legible_expression(*with)
            &&& legible_expression(*default)
            &&& forall|i: int|
                0 <= i < clauses.len() ==> legible_expression((#[trigger] clauses[i]).0)
                    && legible_expression(clauses[i].1)
        },
    }
}

/// A legible expression is shaped.
pub proof fn lemma_legible_shaped(expression: ExpressionView)
    requires
        legible_expression(expression),
    ensures
        expression.shaped(),
    decreases expression,
{
    match expression {
        ExpressionView::Operand(_) => {},
        ExpressionView::Operation(_, lhs, rhs) => {
            lemma_legible_shaped(*lhs);
            lemma_legible_shaped(*rhs);
        },
    }
}

/// Text that is not empty and does not begin with whitespace.
pub open spec fn starts(text: Seq<u8>) -> bool {
    text.len() > 0 && !whitespace(text[0])
}

/// The text of a legible operand is not empty and begins with no
/// whitespace.
pub proof fn lemma_operand_starts(operand: OperandView)
    requires
        legible_operand(operand),
    ensures
        starts(operand_text(operand)),
{
    match operand {
        OperandView::I64(n) => {
            lemma_digits(
                if n < 0 {
                    (-n) as nat
                } else {
                    n as nat
                },
            );
            if n >= 0 {
                assert(digit(operand_text(operand)[0]));
            }
        },
        OperandView::Group(_) => {},
        OperandView::VarSubstitution(name) => {
            assert(name_byte(encode_utf8(name)[0]));
        },
        OperandView::FnApplication(name, _) => {
            assert(name_byte(encode_utf8(name)[0]));
            assert(operand_text(operand)[0] == encode_utf8(name)[0]);
        },
        OperandView::Match(_, _, _) => {
            assert(operand_text(operand)[0] == match_word()[0]);
        },
    }
}

/// The text of a legible expression is not empty and begins with no
/// whitespace.
pub proof fn lemma_expression_starts(expression: ExpressionView)
    requires
        legible_expression(expression),
    ensures
        starts(expression_text(expression)),
    decreases expression,
{
    match expression {
        ExpressionView::Operand(operand) => {
            lemma_operand_starts(operand);
        },
        ExpressionView::Operation(operator, lhs, rhs) => {
            lemma_expression_starts(*lhs);
            assert(expression_text(expression)[0] == expression_text(*lhs)[0]);
        },
    }
}

/// The byte of an operator reads as the operator.
pub proof fn lemma_operator_back(s: Seq<u8>, pos: int, operator: Operator)
    requires
        0 <= pos < s.len(),
        s[pos] == operator_byte(operator),
    ensures
        operator_at(s, pos) == Some(operator),
        !whitespace(s[pos]),
        s[pos] != OPEN,
{
}

/// No expression begins at the end of the input or at closing punctuation.
pub proof fn lemma_no_expression(s: Seq<u8>, pos: int)
    requires
        0 <= pos <= s.len(),
        pos == s.len() || closing(s[pos]),
    ensures
        operand_at(s, pos) is None,
        expression_at(s, pos) is None,
        clause_at(s, pos) is None,
{
    assert(digits_end(s, pos) == pos);
    assert(word_end(s, pos) == pos);
}

/// Nothing more follows an operand where an expression may end.
pub proof fn lemma_tail_ends(s: Seq<u8>, end: int)
    requires
        closes_at(s, end),
    ensures
        tail_at(s, end) == (Seq::<(Operator, OperandView)>::empty(), end),
        follows_at(s, end),
{
    lemma_whitespace_end(s, end);
}

/// The text of an expression, read as an operand and what follows it,
/// gives the expression made flat; what may follow the text is read
/// behind it.
pub proof fn lemma_segment_back(s: Seq<u8>, pos: int, expression: ExpressionView)
    requires
        legible_expression(expression),
        0 <= pos,
        word_at(s, pos, expression_text(expression)),
        follows_at(s, pos + expression_text(expression).len()),
    ensures
        operand_at(s, pos) is Some,
        operand_at(s, pos).unwrap().0 == flatten(expression).0,
        pos < operand_at(s, pos).unwrap().1 <= pos + expression_text(expression).len(),
        tail_at(s, operand_at(s, pos).unwrap().1).0 == flatten(expression).1 + tail_at(
            s,
            pos + expression_text(expression).len(),
        ).0,
        tail_at(s, operand_at(s, pos).unwrap().1).1 == tail_at(
            s,
            pos + expression_text(expression).len(),
        ).1,
    decreases expression, 1nat,
{
    let text = expression_text(expression);
    let end = pos + text.len();
    match expression {
        ExpressionView::Operand(operand) => {
            lemma_operand_back(s, pos, operand);
            lemma_operand_starts(operand);
            assert(flatten(expression).1 + tail_at(s, end).0 =~= tail_at(s, end).0);
        },
        ExpressionView::Operation(operator, lhs, rhs) => {
            let left = expression_text(*lhs);
            let right = expression_text(*rhs);
            let middle = seq![SPACE, operator_byte(operator), SPACE];
            assert(!parenthesised(operator, *lhs));
            assert(!parenthesised(operator, *rhs));
            assert(text == left + middle + right);
            lemma_word_at_split(s, pos, left + middle, right);
            lemma_word_at_split(s, pos, left, middle);
            let q = pos + left.len();
            lemma_word_at_byte(s, q, middle, 0);
            lemma_word_at_byte(s, q, middle, 1);
            lemma_word_at_byte(s, q, middle, 2);
            lemma_expression_starts(*rhs);
            lemma_word_at_byte(s, q + 3, right, 0);
            lemma_operator_back(s, q + 1, operator);
            lemma_whitespace_end_exact(s, q, q + 1);
            lemma_whitespace_end_exact(s, q + 2, q + 3);
            assert(follows_at(s, q));
            lemma_segment_back(s, pos, *lhs);
            lemma_segment_back(s, q + 3, *rhs);
            let first = operand_at(s, pos).unwrap().1;
            let third = operand_at(s, q + 3).unwrap().1;
            let middle_operand = flatten(*rhs).0;
            assert(advances(s, q, third));
            assert(tail_at(s, q) == (
                seq![(operator, middle_operand)] + tail_at(s, third).0,
                tail_at(s, third).1,
            ));
            assert(tail_at(s, first).0 =~= flatten(expression).1 + tail_at(s, end).0);
        },
    }
}

/// The text of a legible expression parses to the expression, where the
/// expression may end behind it.
pub proof fn lemma_expression_back(s: Seq<u8>, pos: int, expression: ExpressionView)
    requires
        legible_expression(expression),
        0 <= pos,
        word_at(s, pos, expression_text(expression)),
        closes_at(s, pos + expression_text(expression).len()),
    ensures
        expression_at(s, pos) == Some((expression, pos + expression_text(expression).len())),
    decreases expression, 2nat,
{
    let end = pos + expression_text(expression).len();
    lemma_tail_ends(s, end);
    lemma_segment_back(s, pos, expression);
    lemma_legible_shaped(expression);
    lemma_shunt_inverts_flatten(expression);
    let (first, rest) = flatten(expression);
    assert(rest + Seq::<(Operator, OperandView)>::empty() =~= rest);
}

/// The arguments from `from` on, each behind a separator.
pub open spec fn more_text(args: Seq<ExpressionView>, from: nat) -> Seq<u8>
    decreases args.len() - from,
{
    if from >= args.len() {
        seq![]
    } else {
        separator() + expression_text(args[from as int]) + more_text(args, from + 1)
    }
}

/// The text of all arguments is that of the first ones and then that of
/// the others, each behind a separator.
pub proof fn lemma_arguments_text_split(args: Seq<ExpressionView>, n: nat)
    requires
        1 <= n <= args.len(),
    ensures
        arguments_text(args, args.len()) == arguments_text(args, n) + more_text(args, n),
    decreases args.len() - n,
{
    if n < args.len() {
        lemma_arguments_text_split(args, n + 1);
        assert(arguments_text(args, n + 1) + more_text(args, n + 1) =~= arguments_text(args, n)
            + more_text(args, n));
    } else {
        assert(arguments_text(args, n) + more_text(args, n) =~= arguments_text(args, n));
    }
}

/// The arguments that were written behind separators are read back.
pub proof fn lemma_more_arguments_back(s: Seq<u8>, pos: int, args: Seq<ExpressionView>, from: nat)
    requires
        forall|i: int| 0 <= i < args.len() ==> legible_expression(#[trigger] args[i]),
        0 <= pos,
        1 <= from <= args.len(),
        word_at(s, pos, more_text(args, from)),
        mark_at(s, pos + more_text(args, from).len(), CLOSE),
    ensures
        more_arguments_at(s, pos) == (
            args.skip(from as int),
            pos + more_text(args, from).len(),
        ),
    decreases args, args.len() - from,
{
    if from >= args.len() {
        lemma_whitespace_end_exact(s, pos, pos);
        assert(args.skip(from as int) =~= Seq::<ExpressionView>::empty());
    } else {
        let argument = args[from as int];
        let text = expression_text(argument);
        let rest = more_text(args, from + 1);
        assert(more_text(args, from) == separator() + text + rest);
        lemma_word_at_split(s, pos, separator() + text, rest);
        lemma_word_at_split(s, pos, separator(), text);
        lemma_word_at_byte(s, pos, separator(), 0);
        lemma_word_at_byte(s, pos, separator(), 1);
        lemma_expression_starts(argument);
        lemma_word_at_byte(s, pos + 2, text, 0);
        lemma_whitespace_end_exact(s, pos, pos);
        lemma_whitespace_end_exact(s, pos + 1, pos + 2);
        let end = pos + 2 + text.len();
        assert(closes_at(s, end)) by {
            if from + 1 < args.len() {
                assert(rest == separator() + expression_text(args[from as int + 1]) + more_text(
                    args,
                    from + 2,
                ));
                lemma_word_at_split(
                    s,
                    end,
                    separator(),
                    expression_text(args[from as int + 1]) + more_text(args, from + 2),
                );
                assert(separator() + expression_text(args[from as int + 1]) + more_text(args, from + 2)
                    =~= separator() + (expression_text(args[from as int + 1]) + more_text(
                    args,
                    from + 2,
                )));
                lemma_word_at_byte(s, end, separator(), 0);
            }
            lemma_whitespace_end_exact(s, end, end);
        }
        lemma_expression_back(s, pos + 2, argument);
        lemma_more_arguments_back(s, end, args, from + 1);
        assert(seq![argument] + args.skip(from as int + 1) =~= args.skip(from as int));
    }
}

/// The arguments that were written are read back.
pub proof fn lemma_arguments_back(s: Seq<u8>, pos: int, args: Seq<ExpressionView>)
    requires
        forall|i: int| 0 <= i < args.len() ==> legible_expression(#[trigger] args[i]),
        0 <= pos,
        word_at(s, pos, arguments_text(args, args.len())),
        mark_at(s, pos + arguments_text(args, args.len()).len(), CLOSE),
    ensures
        arguments_at(s, pos) == (args, pos + arguments_text(args, args.len()).len()),
        whitespace_end(s, pos) == pos,
    decreases args, args.len() + 1,
{
    if args.len() == 0 {
        lemma_no_expression(s, pos);
        lemma_whitespace_end_exact(s, pos, pos);
        assert(args =~= Seq::<ExpressionView>::empty());
    } else {
        let text = expression_text(args[0]);
        let rest = more_text(args, 1);
        lemma_arguments_text_split(args, 1);
        lemma_word_at_split(s, pos, text, rest);
        lemma_expression_starts(args[0]);
        lemma_word_at_byte(s, pos, text, 0);
        lemma_whitespace_end_exact(s, pos, pos);
        let end = pos + text.len();
        assert(closes_at(s, end)) by {
            if 1 < args.len() {
                assert(rest == separator() + expression_text(args[1]) + more_text(args, 2));
                assert(separator() + expression_text(args[1]) + more_text(args, 2) =~= separator()
                    + (expression_text(args[1]) + more_text(args, 2)));
                lemma_word_at_split(
                    s,
                    end,
                    separator(),
                    expression_text(args[1]) + more_text(args, 2),
                );
                lemma_word_at_byte(s, end, separator(), 0);
            }
            lemma_whitespace_end_exact(s, end, end);
        }
        lemma_expression_back(s, pos, args[0]);
        lemma_more_arguments_back(s, end, args, 1);
        assert(seq![args[0]] + args.skip(1) =~= args);
    }
}

/// The text of a legible operand parses to the operand, where an operand
/// may end behind it.
pub proof fn lemma_operand_back(s: Seq<u8>, pos: int, operand: OperandView)
    requires
        legible_operand(operand),
        0 <= pos,
        word_at(s, pos, operand_text(operand)),
        follows_at(s, pos + operand_text(operand).len()),
    ensures
        operand_at(s, pos) == Some((operand, pos + operand_text(operand).len())),
    decreases operand, 2nat,
{
    let text = operand_text(operand);
    let end = pos + text.len();
    match operand {
        OperandView::I64(n) => {
            lemma_integer_back(s, pos, n);
        },
        OperandView::VarSubstitution(name) => {
            lemma_integer_within(s, pos, encode_utf8(name));
            lemma_name_back(s, pos, name);
        },
        OperandView::FnApplication(name, args) => {
            let word = encode_utf8(name);
            let list = arguments_text(args, args.len());
            assert(text == word + seq![OPEN] + list + seq![CLOSE]);
            lemma_word_at_split(s, pos, word + seq![OPEN] + list, seq![CLOSE]);
            lemma_word_at_split(s, pos, word + seq![OPEN], list);
            lemma_word_at_split(s, pos, word, seq![OPEN]);
            let open = pos + word.len();
            lemma_word_at_byte(s, open, seq![OPEN], 0);
            lemma_word_at_byte(s, open + 1 + list.len(), seq![CLOSE], 0);
            lemma_integer_within(s, pos, word);
            lemma_name_back(s, pos, name);
            lemma_whitespace_end_exact(s, open, open);
            lemma_arguments_back(s, open + 1, args);
            lemma_whitespace_end_exact(s, open + 1 + list.len(), open + 1 + list.len());
        },
        OperandView::Group(e) => {
            let inner = expression_text(*e);
            assert(text == seq![OPEN] + inner + seq![CLOSE]);
            lemma_word_at_split(s, pos, seq![OPEN] + inner, seq![CLOSE]);
            lemma_word_at_split(s, pos, seq![OPEN], inner);
            lemma_word_at_byte(s, pos, seq![OPEN], 0);
            let close = pos + 1 + inner.len();
            lemma_word_at_byte(s, close, seq![CLOSE], 0);
            lemma_expression_starts(*e);
            lemma_word_at_byte(s, pos + 1, inner, 0);
            lemma_whitespace_end_exact(s, pos + 1, pos + 1);
            lemma_whitespace_end_exact(s, close, close);
            lemma_expression_back(s, pos + 1, *e);
            assert(digits_end(s, pos) == pos);
            assert(word_end(s, pos) == pos);
        },
        OperandView::Match(with, clauses, default) => {
            lemma_match_back(s, pos, operand);
        },
    }
}

/// The clauses from `from` on, each behind a separator.
pub open spec fn more_clauses_text(
    clauses: Seq<(ExpressionView, ExpressionView)>,
    from: nat,
) -> Seq<u8>
    decreases clauses.len() - from,
{
    if from >= clauses.len() {
        seq![]
    } else {
        separator() + clause_text(
            expression_text(clauses[from as int].0),
            expression_text(clauses[from as int].1),
        ) + more_clauses_text(clauses, from + 1)
    }
}

/// The text of all clauses is that of the first ones and then that of the
/// others, each behind a separator.
pub proof fn lemma_clauses_text_split(operand: OperandView, n: nat)
    requires
        operand is Match,
        1 <= n <= clause_count(operand),
    ensures
        clauses_text(operand, clause_count(operand)) == clauses_text(operand, n)
            + more_clauses_text(operand->Match_1, n),
    decreases clause_count(operand) - n,
{
    let clauses = operand->Match_1;
    if n < clauses.len() {
        lemma_clauses_text_split(operand, n + 1);
        assert(clauses_text(operand, n + 1) + more_clauses_text(clauses, n + 1) =~= clauses_text(
            operand,
            n,
        ) + more_clauses_text(clauses, n));
    } else {
        assert(clauses_text(operand, n) + more_clauses_text(clauses, n) =~= clauses_text(
            operand,
            n,
        ));
    }
}

/// A clause that was written is read back, where a clause may end behind
/// it.
pub proof fn lemma_clause_back(
    s: Seq<u8>,
    pos: int,
    clauses: Seq<(ExpressionView, ExpressionView)>,
    i: int,
)
    requires
        0 <= i < clauses.len(),
        legible_expression(clauses[i].0),
        legible_expression(clauses[i].1),
        0 <= pos,
        word_at(
            s,
            pos,
            clause_text(expression_text(clauses[i].0), expression_text(clauses[i].1)),
        ),
        closes_at(
            s,
            pos + clause_text(expression_text(clauses[i].0), expression_text(clauses[i].1)).len(),
        ),
    ensures
        clause_at(s, pos) == Some(
            (
                clauses[i],
                pos + clause_text(
                    expression_text(clauses[i].0),
                    expression_text(clauses[i].1),
                ).len(),
            ),
        ),
    decreases clauses, 0nat,
{
    let value = expression_text(clauses[i].0);
    let result = expression_text(clauses[i].1);
    let middle = seq![SPACE, EQUALS, SPACE];
    lemma_word_at_split(s, pos, value + middle, result);
    lemma_word_at_split(s, pos, value, middle);
    let q = pos + value.len();
    lemma_word_at_byte(s, q, middle, 0);
    lemma_word_at_byte(s, q, middle, 1);
    lemma_word_at_byte(s, q, middle, 2);
    lemma_expression_starts(clauses[i].1);
    lemma_word_at_byte(s, q + 3, result, 0);
    lemma_whitespace_end_exact(s, q, q + 1);
    lemma_whitespace_end_exact(s, q + 2, q + 3);
    lemma_expression_back(s, pos, clauses[i].0);
    lemma_expression_back(s, q + 3, clauses[i].1);
    lemma_expression_starts(clauses[i].0);
}

/// The clauses that were written behind separators are read back.
pub proof fn lemma_more_clauses_back(
    s: Seq<u8>,
    pos: int,
    clauses: Seq<(ExpressionView, ExpressionView)>,
    from: nat,
)
    requires
        forall|i: int|
            0 <= i < clauses.len() ==> legible_expression((#[trigger] clauses[i]).0)
                && legible_expression(clauses[i].1),
        0 <= pos,
        1 <= from <= clauses.len(),
        word_at(s, pos, more_clauses_text(clauses, from)),
        mark_at(s, pos + more_clauses_text(clauses, from).len(), SEMICOLON),
    ensures
        more_clauses_at(s, pos) == (
            clauses.skip(from as int),
            pos + more_clauses_text(clauses, from).len(),
        ),
    decreases clauses, clauses.len() - from + 1,
{
    if from >= clauses.len() {
        lemma_whitespace_end_exact(s, pos, pos);
        assert(clauses.skip(from as int) =~= Seq::<(ExpressionView, ExpressionView)>::empty());
    } else {
        let clause = clauses[from as int];
        let text = clause_text(expression_text(clause.0), expression_text(clause.1));
        let rest = more_clauses_text(clauses, from + 1);
        assert(more_clauses_text(clauses, from) == separator() + text + rest);
        lemma_word_at_split(s, pos, separator() + text, rest);
        lemma_word_at_split(s, pos, separator(), text);
        lemma_word_at_byte(s, pos, separator(), 0);
        lemma_word_at_byte(s, pos, separator(), 1);
        lemma_expression_starts(clause.0);
        lemma_word_at_byte(s, pos + 2, text, 0);
        assert(text[0] == expression_text(clause.0)[0]);
        lemma_whitespace_end_exact(s, pos, pos);
        lemma_whitespace_end_exact(s, pos + 1, pos + 2);
        let end = pos + 2 + text.len();
        assert(closes_at(s, end)) by {
            if from + 1 < clauses.len() {
                let next = clause_text(
                    expression_text(clauses[from as int + 1].0),
                    expression_text(clauses[from as int + 1].1),
                );
                assert(rest == separator() + next + more_clauses_text(clauses, from + 2));
                assert(separator() + next + more_clauses_text(clauses, from + 2) =~= separator() + (
                next + more_clauses_text(clauses, from + 2)));
                lemma_word_at_split(
                    s,
                    end,
                    separator(),
                    next + more_clauses_text(clauses, from + 2),
                );
                lemma_word_at_byte(s, end, separator(), 0);
            }
            lemma_whitespace_end_exact(s, end, end);
        }
        lemma_clause_back(s, pos + 2, clauses, from as int);
        lemma_more_clauses_back(s, end, clauses, from + 1);
        assert(seq![clause] + clauses.skip(from as int + 1) =~= clauses.skip(from as int));
    }
}

/// The clauses that were written are read back.
pub proof fn lemma_clauses_back(s: Seq<u8>, pos: int, operand: OperandView)
    requires
        operand is Match,
        legible_operand(operand),
        0 <= pos,
        word_at(s, pos, clauses_text(operand, clause_count(operand))),
        mark_at(s, pos + clauses_text(operand, clause_count(operand)).len(), SEMICOLON),
    ensures
        clauses_at(s, pos) == (
            operand->Match_1,
            pos + clauses_text(operand, clause_count(operand)).len(),
        ),
        whitespace_end(s, pos) == pos,
    decreases operand, 0nat,
{
    let clauses = operand->Match_1;
    if clauses.len() == 0 {
        lemma_no_expression(s, pos);
        lemma_whitespace_end_exact(s, pos, pos);
        assert(clauses =~= Seq::<(ExpressionView, ExpressionView)>::empty());
    } else {
        let text = clause_text(expression_text(clauses[0].0), expression_text(clauses[0].1));
        let rest = more_clauses_text(clauses, 1);
        lemma_clauses_text_split(operand, 1);
        lemma_word_at_split(s, pos, text, rest);
        lemma_expression_starts(clauses[0].0);
        lemma_word_at_byte(s, pos, text, 0);
        assert(text[0] == expression_text(clauses[0].0)[0]);
        lemma_whitespace_end_exact(s, pos, pos);
        let end = pos + text.len();
        assert(closes_at(s, end)) by {
            if 1 < clauses.len() {
                let next = clause_text(
                    expression_text(clauses[1].0),
                    expression_text(clauses[1].1),
                );
                assert(rest == separator() + next + more_clauses_text(clauses, 2));
                assert(separator() + next + more_clauses_text(clauses, 2) =~= separator() + (next
                    + more_clauses_text(clauses, 2)));
                lemma_word_at_split(s, end, separator(), next + more_clauses_text(clauses, 2));
                lemma_word_at_byte(s, end, separator(), 0);
            }
            lemma_whitespace_end_exact(s, end, end);
        }
        lemma_clause_back(s, pos, clauses, 0);
        lemma_more_clauses_back(s, end, clauses, 1);
        assert(seq![clauses[0]] + clauses.skip(1) =~= clauses);
    }
}

/// A match that was written is read back.
pub proof fn lemma_match_back(s: Seq<u8>, pos: int, operand: OperandView)
    requires
        operand is Match,
        legible_operand(operand),
        0 <= pos,
        word_at(s, pos, operand_text(operand)),
    ensures
        operand_at(s, pos) == Some((operand, pos + operand_text(operand).len())),
    decreases operand, 1nat,
{
    let with = *operand->Match_0;
    let clauses = operand->Match_1;
    let default = *operand->Match_2;
    let word = match_word();
    let scrutinee = expression_text(with);
    let list = clauses_text(operand, clauses.len());
    let last = expression_text(default);
    let gap = seq![SEMICOLON, SPACE];
    let text = operand_text(operand);
    assert(text == word + seq![OPEN] + scrutinee + gap + list + gap + last + seq![CLOSE]);
    lemma_word_at_split(s, pos, word + seq![OPEN] + scrutinee + gap + list + gap + last, seq![CLOSE]);
    lemma_word_at_split(s, pos, word + seq![OPEN] + scrutinee + gap + list + gap, last);
    lemma_word_at_split(s, pos, word + seq![OPEN] + scrutinee + gap + list, gap);
    lemma_word_at_split(s, pos, word + seq![OPEN] + scrutinee + gap, list);
    lemma_word_at_split(s, pos, word + seq![OPEN] + scrutinee, gap);
    lemma_word_at_split(s, pos, word + seq![OPEN], scrutinee);
    lemma_word_at_split(s, pos, word, seq![OPEN]);
    let open = pos + 5;
    let p_with = open + 1;
    let first = p_with + scrutinee.len();
    let p_list = first + 2;
    let second = p_list + list.len();
    let p_last = second + 2;
    let close = p_last + last.len();
    lemma_word_at_byte(s, pos, word, 0);
    lemma_word_at_byte(s, pos, word, 1);
    lemma_word_at_byte(s, pos, word, 2);
    lemma_word_at_byte(s, pos, word, 3);
    lemma_word_at_byte(s, pos, word, 4);
    lemma_word_at_byte(s, open, seq![OPEN], 0);
    lemma_word_at_byte(s, first, gap, 0);
    lemma_word_at_byte(s, first, gap, 1);
    lemma_word_at_byte(s, second, gap, 0);
    lemma_word_at_byte(s, second, gap, 1);
    lemma_word_at_byte(s, close, seq![CLOSE], 0);
    lemma_expression_starts(with);
    lemma_expression_starts(default);
    lemma_word_at_byte(s, p_with, scrutinee, 0);
    lemma_word_at_byte(s, p_last, last, 0);
    assert(digits_end(s, pos) == pos);
    assert forall|i: int| pos <= i < open implies name_byte(#[trigger] s[i]) by {
        lemma_word_at_byte(s, pos, word, i - pos);
    }
    lemma_word_end_exact(s, pos, open);
    lemma_word_at(s, pos, word);
    lemma_whitespace_end_exact(s, open, open);
    lemma_whitespace_end_exact(s, p_with, p_with);
    lemma_whitespace_end_exact(s, first, first);
    lemma_whitespace_end_exact(s, second, second);
    lemma_whitespace_end_exact(s, second + 1, p_last);
    lemma_whitespace_end_exact(s, close, close);
    lemma_expression_back(s, p_with, with);
    lemma_clauses_back(s, p_list, operand);
    assert(whitespace_end(s, first + 1) == p_list) by {
        if clauses.len() == 0 {
            lemma_whitespace_end_exact(s, first + 1, p_list);
        } else {
            lemma_expression_starts(clauses[0].0);
            let head = clause_text(expression_text(clauses[0].0), expression_text(clauses[0].1));
            lemma_clauses_text_split(operand, 1);
            lemma_word_at_split(s, p_list, head, more_clauses_text(clauses, 1));
            lemma_word_at_byte(s, p_list, head, 0);
            assert(head[0] == expression_text(clauses[0].0)[0]);
            lemma_whitespace_end_exact(s, first + 1, p_list);
        }
    }
    lemma_expression_back(s, p_last, default);
    assert(advances(s, open, first));
    assert(advances(s, open, second));
}

} // verus!
