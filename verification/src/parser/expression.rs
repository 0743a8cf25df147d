//! The grammar of expressions.
//!
//! ```text
//! expression := operand (operator operand)*
//! operand    := integer | match | application | variable | "(" expression ")"
//! match      := "match" "(" expression ";" clauses ";" expression ")"
//! clauses    := [clause ("," clause)*]
//! clause     := expression "=" expression
//! application := name "(" [expression ("," expression)*] ")"
//! ```
//!
//! Whitespace may stand between any two tokens. The alternatives of an
//! operand are tried in this order, and a repetition ends where its next
//! item does not parse. The flat run of operands and operators is folded
//! into a tree by the shunting yard.

use vstd::prelude::*;
use crate::ast::{
    clauses_view, expressions_view, Expression, ExpressionView, Match, Matcher, Operand,
    OperandView, Operator,
};
use crate::parser::lexical::{
    integer, integer_at, is_match_word, lemma_whitespace_end, lemma_word_end, match_word, name,
    name_at, scan_word, skip_whitespace, whitespace_end, word_end, CLOSE, COMMA, EQUALS, MINUS,
    OPEN, PLUS, SEMICOLON, SLASH, STAR,
};
use crate::shunting_yard::{shunt, yard_of, ShuntingYard, Yard};

verus! {

/// Whether the byte `mark` stands at `pos`.
pub open spec fn mark_at(s: Seq<u8>, pos: int, mark: u8) -> bool {
    0 <= pos < s.len() && s[pos] == mark
}

/// The operator that the byte at `pos` writes.
pub open spec fn operator_at(s: Seq<u8>, pos: int) -> Option<Operator> {
    if mark_at(s, pos, PLUS) {
        Some(Operator::Add)
    } else if mark_at(s, pos, MINUS) {
        Some(Operator::Subtract)
    } else if mark_at(s, pos, STAR) {
        Some(Operator::Multiply)
    } else if mark_at(s, pos, SLASH) {
        Some(Operator::Divide)
    } else {
        None
    }
}

/// Whether a parse that started at `pos` and ended at `after` has taken
/// something in and stayed within the input.
pub open spec fn advances(s: Seq<u8>, pos: int, after: int) -> bool {
    0 <= pos < after <= s.len()
}

/// The expression that starts at `pos` and the position after it.
pub open spec fn expression_at(s: Seq<u8>, pos: int) -> Option<(ExpressionView, int)>
    decreases s.len() - pos, 1nat,
{
    match operand_at(s, pos) {
        None => None,
        Some((first, after)) => if !advances(s, pos, after) {
            None
        } else {
            let (rest, end) = tail_at(s, after);
            Some((shunt(first, rest), end))
        },
    }
}

/// The operators, each with its right operand, that follow an operand that
/// ends at `pos`, and the position after the last of them.
pub open spec fn tail_at(s: Seq<u8>, pos: int) -> (Seq<(Operator, OperandView)>, int)
    decreases s.len() - pos, 0nat,
{
    let at = whitespace_end(s, pos);
    match operator_at(s, at) {
        None => (seq![], pos),
        Some(operator) => {
            proof {
                lemma_whitespace_end(s, pos);
                lemma_whitespace_end(s, at + 1);
            }
            match operand_at(s, whitespace_end(s, at + 1)) {
                None => (seq![], pos),
                Some((operand, after)) => if !advances(s, pos, after) {
                    (seq![], pos)
                } else {
                    let (more, end) = tail_at(s, after);
                    (seq![(operator, operand)] + more, end)
                },
            }
        },
    }
}

/// The operand that starts at `pos` and the position after it.
pub open spec fn operand_at(s: Seq<u8>, pos: int) -> Option<(OperandView, int)>
    decreases s.len() - pos, 0nat,
{
    match integer_at(s, pos) {
        Some((n, end)) => Some((OperandView::I64(n), end)),
        None => {
            let end = word_end(s, pos);
            if 0 <= pos < end <= s.len() && s.subrange(pos, end) == match_word() {
                match_at(s, end)
            } else {
                match name_at(s, pos) {
                    Some((name, end)) => {
                        let open = whitespace_end(s, end);
                        if mark_at(s, open, OPEN) {
                            proof {
                                lemma_whitespace_end(s, end);
                                lemma_whitespace_end(s, open + 1);
                            }
                            let (args, after) = arguments_at(s, whitespace_end(s, open + 1));
                            let close = whitespace_end(s, after);
                            if mark_at(s, close, CLOSE) {
                                Some((OperandView::FnApplication(name, args), close + 1))
                            } else {
                                None
                            }
                        } else {
                            Some((OperandView::VarSubstitution(name), end))
                        }
                    },
                    None => if mark_at(s, pos, OPEN) {
                        proof {
                            lemma_whitespace_end(s, pos + 1);
                        }
                        match expression_at(s, whitespace_end(s, pos + 1)) {
                            None => None,
                            Some((e, after)) => {
                                let close = whitespace_end(s, after);
                                if mark_at(s, close, CLOSE) {
                                    Some((OperandView::Group(Box::new(e)), close + 1))
                                } else {
                                    None
                                }
                            },
                        }
                    } else {
                        None
                    },
                }
            }
        },
    }
}

/// The arguments that start at `pos`, none where no expression does, and
/// the position after the last of them.
pub open spec fn arguments_at(s: Seq<u8>, pos: int) -> (Seq<ExpressionView>, int)
    decreases s.len() - pos, 2nat,
{
    match expression_at(s, pos) {
        None => (seq![], pos),
        Some((e, after)) => if !advances(s, pos, after) {
            (seq![], pos)
        } else {
            let (more, end) = more_arguments_at(s, after);
            (seq![e] + more, end)
        },
    }
}

/// The arguments, each after a comma, that follow an argument that ends at
/// `pos`, and the position after the last of them.
pub open spec fn more_arguments_at(s: Seq<u8>, pos: int) -> (Seq<ExpressionView>, int)
    decreases s.len() - pos, 0nat,
{
    let comma = whitespace_end(s, pos);
    if mark_at(s, comma, COMMA) {
        proof {
            lemma_whitespace_end(s, pos);
            lemma_whitespace_end(s, comma + 1);
        }
        match expression_at(s, whitespace_end(s, comma + 1)) {
            None => (seq![], pos),
            Some((e, after)) => if !advances(s, pos, after) {
                (seq![], pos)
            } else {
                let (more, end) = more_arguments_at(s, after);
                (seq![e] + more, end)
            },
        }
    } else {
        (seq![], pos)
    }
}

/// The rest of a match after the word `match`, which ends at `pos`, and the
/// position after it.
pub open spec fn match_at(s: Seq<u8>, pos: int) -> Option<(OperandView, int)>
    decreases s.len() - pos, 4nat,
{
    let open = whitespace_end(s, pos);
    if !mark_at(s, open, OPEN) {
        None
    } else {
        proof {
            lemma_whitespace_end(s, pos);
            lemma_whitespace_end(s, open + 1);
        }
        match expression_at(s, whitespace_end(s, open + 1)) {
            None => None,
            Some((with, after_with)) => {
                let first = whitespace_end(s, after_with);
                if !mark_at(s, first, SEMICOLON) || !advances(s, pos, first) {
                    None
                } else {
                    proof {
                        lemma_whitespace_end(s, first + 1);
                    }
                    let (clauses, after_clauses) = clauses_at(s, whitespace_end(s, first + 1));
                    let second = whitespace_end(s, after_clauses);
                    if !mark_at(s, second, SEMICOLON) || !advances(s, pos, second) {
                        None
                    } else {
                        proof {
                            lemma_whitespace_end(s, second + 1);
                        }
                        match expression_at(s, whitespace_end(s, second + 1)) {
                            None => None,
                            Some((default, after_default)) => {
                                let close = whitespace_end(s, after_default);
                                if mark_at(s, close, CLOSE) {
                                    Some(
                                        (
                                            OperandView::Match(
                                                Box::new(with),
                                                clauses,
                                                Box::new(default),
                                            ),
                                            close + 1,
                                        ),
                                    )
                                } else {
                                    None
                                }
                            },
                        }
                    }
                }
            },
        }
    }
}

/// The clause that starts at `pos` and the position after it.
pub open spec fn clause_at(s: Seq<u8>, pos: int) -> Option<((ExpressionView, ExpressionView), int)>
    decreases s.len() - pos, 2nat,
{
    match expression_at(s, pos) {
        None => None,
        Some((value, after)) => {
            let equals = whitespace_end(s, after);
            if !mark_at(s, equals, EQUALS) || !advances(s, pos, equals) {
                None
            } else {
                proof {
                    lemma_whitespace_end(s, equals + 1);
                }
                match expression_at(s, whitespace_end(s, equals + 1)) {
                    None => None,
                    Some((result, end)) => Some(((value, result), end)),
                }
            }
        },
    }
}

/// The clauses that start at `pos`, none where no clause does, and the
/// position after the last of them.
pub open spec fn clauses_at(s: Seq<u8>, pos: int) -> (Seq<(ExpressionView, ExpressionView)>, int)
    decreases s.len() - pos, 3nat,
{
    match clause_at(s, pos) {
        None => (seq![], pos),
        Some((clause, after)) => if !advances(s, pos, after) {
            (seq![], pos)
        } else {
            let (more, end) = more_clauses_at(s, after);
            (seq![clause] + more, end)
        },
    }
}

/// The clauses, each after a comma, that follow a clause that ends at
/// `pos`, and the position after the last of them.
pub open spec fn more_clauses_at(s: Seq<u8>, pos: int) -> (
    Seq<(ExpressionView, ExpressionView)>,
    int,
)
    decreases s.len() - pos, 0nat,
{
    let comma = whitespace_end(s, pos);
    if mark_at(s, comma, COMMA) {
        proof {
            lemma_whitespace_end(s, pos);
            lemma_whitespace_end(s, comma + 1);
        }
        match clause_at(s, whitespace_end(s, comma + 1)) {
            None => (seq![], pos),
            Some((clause, after)) => if !advances(s, pos, after) {
                (seq![], pos)
            } else {
                let (more, end) = more_clauses_at(s, after);
                (seq![clause] + more, end)
            },
        }
    } else {
        (seq![], pos)
    }
}

/// The operator that the byte at `pos` writes.
pub fn operator(input: &[u8], pos: usize) -> (found: Option<Operator>)
    ensures
        found == operator_at(input@, pos as int),
{
    if pos >= input.len() {
        None
    } else if input[pos] == PLUS {
        Some(Operator::Add)
    } else if input[pos] == MINUS {
        Some(Operator::Subtract)
    } else if input[pos] == STAR {
        Some(Operator::Multiply)
    } else if input[pos] == SLASH {
        Some(Operator::Divide)
    } else {
        None
    }
}

/// Whether the byte `mark` stands at `pos`.
pub(crate) fn has_mark(input: &[u8], pos: usize, mark: u8) -> (has: bool)
    ensures
        has == mark_at(input@, pos as int, mark),
{
    pos < input.len() && input[pos] == mark
}

/// The expression that starts at `pos`, and the position after it.
pub fn expression(input: &[u8], pos: usize) -> (found: Option<(Expression, usize)>)
    requires
        pos <= input.len(),
    ensures
        match expression_at(input@, pos as int) {
            Some((e, end)) => found matches Some((x, at)) && x@ == e && at == end && pos < at
                <= input.len(),
            None => found is None,
        },
    decreases input.len() - pos, 1nat,
{
    let ghost s = input@;
    let (first, after) = match operand(input, pos) {
        Some(found) => found,
        None => {
            return None;
        },
    };
    let ghost first_view = first@;
    let mut yard = ShuntingYard::new(first);
    let mut end: usize = after;
    let ghost mut done: Seq<(Operator, OperandView)> = Seq::empty();
    loop
        invariant
            s == input@,
            pos < after <= end <= input.len(),
            yard@ == yard_of(first_view, done),
            yard@.balanced(),
            tail_at(s, after as int).0 == done + tail_at(s, end as int).0,
            tail_at(s, after as int).1 == tail_at(s, end as int).1,
        ensures
            tail_at(s, after as int) == (done, end as int),
        decreases input.len() - end,
    {
        let at = skip_whitespace(input, end);
        let operator = match operator(input, at) {
            Some(operator) => operator,
            None => {
                assert(done + Seq::<(Operator, OperandView)>::empty() =~= done);
                break ;
            },
        };
        let start = skip_whitespace(input, at + 1);
        let (operand, next) = match operand(input, start) {
            Some(found) => found,
            None => {
                assert(done + Seq::<(Operator, OperandView)>::empty() =~= done);
                break ;
            },
        };
        yard.push(operator, operand);
        proof {
            let pair = (operator, operand@);
            assert(done.push(pair).drop_last() =~= done);
            assert(done + (seq![pair] + tail_at(s, next as int).0) =~= done.push(pair) + tail_at(
                s,
                next as int,
            ).0);
            done = done.push(pair);
        }
        end = next;
    }
    Some((yard.into_expression(), end))
}

/// The operand that starts at `pos`, and the position after it.
pub fn operand(input: &[u8], pos: usize) -> (found: Option<(Operand, usize)>)
    requires
        pos <= input.len(),
    ensures
        match operand_at(input@, pos as int) {
            Some((o, end)) => found matches Some((x, at)) && x@ == o && at == end && pos < at
                <= input.len(),
            None => found is None,
        },
    decreases input.len() - pos, 0nat,
{
    if let Some((n, end)) = integer(input, pos) {
        return Some((Operand::I64(n), end));
    }
    let word_end = scan_word(input, pos);
    if word_end > pos && is_match_word(&input[pos..word_end]) {
        return match_(input, word_end);
    }
    match name(input, pos) {
        Some((name, end)) => {
            let open = skip_whitespace(input, end);
            if has_mark(input, open, OPEN) {
                let (args, after) = arguments(input, skip_whitespace(input, open + 1));
                let close = skip_whitespace(input, after);
                if has_mark(input, close, CLOSE) {
                    Some((Operand::FnApplication(name, args), close + 1))
                } else {
                    None
                }
            } else {
                Some((Operand::VarSubstitution(name), end))
            }
        },
        None => {
            if has_mark(input, pos, OPEN) {
                match expression(input, skip_whitespace(input, pos + 1)) {
                    None => None,
                    Some((e, after)) => {
                        let close = skip_whitespace(input, after);
                        if has_mark(input, close, CLOSE) {
                            Some((Operand::Group(Box::new(e)), close + 1))
                        } else {
                            None
                        }
                    },
                }
            } else {
                None
            }
        },
    }
}

/// The arguments that start at `pos`, and the position after them.
pub fn arguments(input: &[u8], pos: usize) -> (found: (Vec<Expression>, usize))
    requires
        pos <= input.len(),
    ensures
        expressions_view(found.0@) == arguments_at(input@, pos as int).0,
        found.1 == arguments_at(input@, pos as int).1,
        pos <= found.1 <= input.len(),
    decreases input.len() - pos, 2nat,
{
    let ghost s = input@;
    let mut args: Vec<Expression> = Vec::new();
    let (first, after) = match expression(input, pos) {
        Some(found) => found,
        None => {
            assert(expressions_view(args@) =~= Seq::<ExpressionView>::empty());
            return (args, pos);
        },
    };
    let ghost first_view = first@;
    args.push(first);
    assert(expressions_view(args@) =~= seq![first_view]);
    let mut end: usize = after;
    loop
        invariant
            s == input@,
            pos < after <= end <= input.len(),
            seq![first_view] + more_arguments_at(s, after as int).0 == expressions_view(args@)
                + more_arguments_at(s, end as int).0,
            more_arguments_at(s, after as int).1 == more_arguments_at(s, end as int).1,
        ensures
            seq![first_view] + more_arguments_at(s, after as int).0 == expressions_view(args@),
            more_arguments_at(s, after as int).1 == end,
        decreases input.len() - end,
    {
        let comma = skip_whitespace(input, end);
        if !has_mark(input, comma, COMMA) {
            assert(expressions_view(args@) + Seq::<ExpressionView>::empty() =~= expressions_view(
                args@,
            ));
            break ;
        }
        let (e, next) = match expression(input, skip_whitespace(input, comma + 1)) {
            Some(found) => found,
            None => {
                assert(expressions_view(args@) + Seq::<ExpressionView>::empty()
                    =~= expressions_view(args@));
                break ;
            },
        };
        proof {
            let before = expressions_view(args@);
            assert(before + (seq![e@] + more_arguments_at(s, next as int).0) =~= before.push(e@)
                + more_arguments_at(s, next as int).0);
        }
        let ghost before = expressions_view(args@);
        args.push(e);
        assert(expressions_view(args@) =~= before.push(e@));
        end = next;
    }
    (args, end)
}

/// The rest of a match after the word `match`, which ends at `pos`, and the
/// position after it.
pub fn match_(input: &[u8], pos: usize) -> (found: Option<(Operand, usize)>)
    requires
        pos <= input.len(),
    ensures
        match match_at(input@, pos as int) {
            Some((o, end)) => found matches Some((x, at)) && x@ == o && at == end && pos < at
                <= input.len(),
            None => found is None,
        },
    decreases input.len() - pos, 4nat,
{
    let open = skip_whitespace(input, pos);
    if !has_mark(input, open, OPEN) {
        return None;
    }
    let (with, after_with) = expression(input, skip_whitespace(input, open + 1))?;
    let first = skip_whitespace(input, after_with);
    if !has_mark(input, first, SEMICOLON) {
        return None;
    }
    let (clauses, after_clauses) = clauses(input, skip_whitespace(input, first + 1));
    let second = skip_whitespace(input, after_clauses);
    if !has_mark(input, second, SEMICOLON) {
        return None;
    }
    let (default, after_default) = expression(input, skip_whitespace(input, second + 1))?;
    let close = skip_whitespace(input, after_default);
    if !has_mark(input, close, CLOSE) {
        return None;
    }
    Some(
        (
            Operand::Match(Match { with: Box::new(with), clauses, default: Box::new(default) }),
            close + 1,
        ),
    )
}

/// The clause that starts at `pos`, and the position after it.
pub fn clause(input: &[u8], pos: usize) -> (found: Option<((Matcher, Expression), usize)>)
    requires
        pos <= input.len(),
    ensures
        match clause_at(input@, pos as int) {
            Some((c, end)) => found matches Some((x, at)) && x.0@ == c.0 && x.1@ == c.1 && at == end
                && pos < at <= input.len(),
            None => found is None,
        },
    decreases input.len() - pos, 2nat,
{
    let (value, after) = expression(input, pos)?;
    let equals = skip_whitespace(input, after);
    if !has_mark(input, equals, EQUALS) {
        return None;
    }
    let (result, end) = expression(input, skip_whitespace(input, equals + 1))?;
    Some(((Matcher::Value(value), result), end))
}

/// The clauses that start at `pos`, and the position after them.
pub fn clauses(input: &[u8], pos: usize) -> (found: (Vec<(Matcher, Expression)>, usize))
    requires
        pos <= input.len(),
    ensures
        clauses_view(found.0@) == clauses_at(input@, pos as int).0,
        found.1 == clauses_at(input@, pos as int).1,
        pos <= found.1 <= input.len(),
    decreases input.len() - pos, 3nat,
{
    let ghost s = input@;
    let mut list: Vec<(Matcher, Expression)> = Vec::new();
    let (first, after) = match clause(input, pos) {
        Some(found) => found,
        None => {
            assert(clauses_view(list@) =~= Seq::<(ExpressionView, ExpressionView)>::empty());
            return (list, pos);
        },
    };
    let ghost first_view = (first.0@, first.1@);
    list.push(first);
    assert(clauses_view(list@) =~= seq![first_view]);
    let mut end: usize = after;
    loop
        invariant
            s == input@,
            pos < after <= end <= input.len(),
            seq![first_view] + more_clauses_at(s, after as int).0 == clauses_view(list@)
                + more_clauses_at(s, end as int).0,
            more_clauses_at(s, after as int).1 == more_clauses_at(s, end as int).1,
        ensures
            seq![first_view] + more_clauses_at(s, after as int).0 == clauses_view(list@),
            more_clauses_at(s, after as int).1 == end,
        decreases input.len() - end,
    {
        let comma = skip_whitespace(input, end);
        if !has_mark(input, comma, COMMA) {
            assert(clauses_view(list@) + Seq::<(ExpressionView, ExpressionView)>::empty()
                =~= clauses_view(list@));
            break ;
        }
        let (c, next) = match clause(input, skip_whitespace(input, comma + 1)) {
            Some(found) => found,
            None => {
                assert(clauses_view(list@) + Seq::<(ExpressionView, ExpressionView)>::empty()
                    =~= clauses_view(list@));
                break ;
            },
        };
        let ghost before = clauses_view(list@);
        let ghost view = (c.0@, c.1@);
        proof {
            assert(before + (seq![view] + more_clauses_at(s, next as int).0) =~= before.push(view)
                + more_clauses_at(s, next as int).0);
        }
        list.push(c);
        assert(clauses_view(list@) =~= before.push(view));
        end = next;
    }
    (list, end)
}

} // verus!
