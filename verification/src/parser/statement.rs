//! The grammar of names in a list, statements and programs.
//!
//! ```text
//! program    := "inputs" names ";" statement* "outputs" names ";"
//! statement  := assignment ";" | definition ";"
//! assignment := name "=" expression
//! definition := name "(" names ")" "=" expression
//! names      := [name ("," name)*]
//! ```
//!
//! Whitespace may stand between any two tokens, before a statement and
//! after the semicolon that ends one.

use vstd::prelude::*;
use crate::ast::{
    names_view, Expression, ExpressionView, Name, Program, ProgramView, Statement, StatementView,
    Statements,
};
use crate::parser::expression::{advances, expression, expression_at, has_mark, mark_at};
use crate::parser::lexical::{
    is_inputs_word, is_outputs_word, inputs_word, lemma_whitespace_end, lemma_word_end, name,
    name_at, outputs_word, scan_word, skip_whitespace, whitespace_end, word_end, CLOSE, COMMA,
    EQUALS, OPEN, SEMICOLON,
};

verus! {

/// The names that start at `pos`, none where no name does, and the
/// position after the last of them.
pub open spec fn names_at(s: Seq<u8>, pos: int) -> (Seq<Seq<char>>, int) {
    match name_at(s, pos) {
        None => (seq![], pos),
        Some((name, after)) => {
            let (more, end) = more_names_at(s, after);
            (seq![name] + more, end)
        },
    }
}

/// The names, each after a comma, that follow a name that ends at `pos`,
/// and the position after the last of them.
pub open spec fn more_names_at(s: Seq<u8>, pos: int) -> (Seq<Seq<char>>, int)
    decreases s.len() - pos,
{
    let comma = whitespace_end(s, pos);
    if mark_at(s, comma, COMMA) {
        let start = whitespace_end(s, comma + 1);
        match name_at(s, start) {
            None => (seq![], pos),
            Some((name, after)) => {
                proof {
                    lemma_whitespace_end(s, pos);
                    lemma_whitespace_end(s, comma + 1);
                    lemma_word_end(s, start);
                }
                let (more, end) = more_names_at(s, after);
                (seq![name] + more, end)
            },
        }
    } else {
        (seq![], pos)
    }
}

/// The end of a statement whose expression ends at `after`: past the
/// semicolon and the whitespace behind it.
pub open spec fn statement_end(s: Seq<u8>, after: int) -> Option<int> {
    let semicolon = whitespace_end(s, after);
    if mark_at(s, semicolon, SEMICOLON) {
        Some(whitespace_end(s, semicolon + 1))
    } else {
        None
    }
}

/// The rest of an assignment to `name` after the `=`, which ends at `pos`.
pub open spec fn assignment_at(s: Seq<u8>, name: Seq<char>, pos: int) -> Option<
    (StatementView, int),
> {
    match expression_at(s, whitespace_end(s, pos)) {
        None => None,
        Some((e, after)) => match statement_end(s, after) {
            None => None,
            Some(end) => Some((StatementView::VarAssignment(name, e), end)),
        },
    }
}

/// The rest of a definition of `name` after the `(`, which ends at `pos`.
pub open spec fn definition_at(s: Seq<u8>, name: Seq<char>, pos: int) -> Option<
    (StatementView, int),
> {
    let (params, after_params) = names_at(s, whitespace_end(s, pos));
    let close = whitespace_end(s, after_params);
    let equals = whitespace_end(s, close + 1);
    if mark_at(s, close, CLOSE) && mark_at(s, equals, EQUALS) {
        match expression_at(s, whitespace_end(s, equals + 1)) {
            None => None,
            Some((e, after)) => match statement_end(s, after) {
                None => None,
                Some(end) => Some((StatementView::FnDefinition(name, params, e), end)),
            },
        }
    } else {
        None
    }
}

/// The statement that starts at `pos`, after whitespace, and the position
/// after it and the whitespace behind it.
pub open spec fn statement_at(s: Seq<u8>, pos: int) -> Option<(StatementView, int)> {
    match name_at(s, whitespace_end(s, pos)) {
        None => None,
        Some((name, after_name)) => {
            let mark = whitespace_end(s, after_name);
            if mark_at(s, mark, EQUALS) {
                assignment_at(s, name, mark + 1)
            } else if mark_at(s, mark, OPEN) {
                definition_at(s, name, mark + 1)
            } else {
                None
            }
        },
    }
}

/// The statements that start at `pos`, as many as parse, and the position
/// after the last of them.
pub open spec fn statements_at(s: Seq<u8>, pos: int) -> (Seq<StatementView>, int)
    decreases s.len() - pos,
{
    match statement_at(s, pos) {
        None => (seq![], pos),
        Some((statement, after)) => if !advances(s, pos, after) {
            (seq![], pos)
        } else {
            let (more, end) = statements_at(s, after);
            (seq![statement] + more, end)
        },
    }
}

/// Whether the word that starts at `pos` is `word` and no longer.
pub open spec fn keyword_at(s: Seq<u8>, pos: int, word: Seq<u8>) -> bool {
    0 <= pos && word_end(s, pos) == pos + word.len() && pos + word.len() <= s.len() && s.subrange(
        pos,
        pos + word.len(),
    ) == word
}

/// The header that starts at `pos`: a keyword, names and a semicolon. It
/// gives the names and the position after the semicolon and the whitespace
/// behind it, or the position at which the header breaks off.
pub open spec fn header_at(s: Seq<u8>, pos: int, word: Seq<u8>) -> Result<
    (Seq<Seq<char>>, int),
    int,
> {
    let start = whitespace_end(s, pos);
    if !keyword_at(s, start, word) {
        Err(start)
    } else {
        let (names, after) = names_at(s, whitespace_end(s, start + word.len()));
        let semicolon = whitespace_end(s, after);
        if mark_at(s, semicolon, SEMICOLON) {
            Ok((names, whitespace_end(s, semicolon + 1)))
        } else {
            Err(semicolon)
        }
    }
}

/// The program that starts at `pos` and the position after it, or the
/// position at which the input stops being a program.
pub open spec fn program_at(s: Seq<u8>, pos: int) -> Result<(ProgramView, int), int> {
    match header_at(s, pos, inputs_word()) {
        Err(at) => Err(at),
        Ok((inputs, after_inputs)) => {
            let (statements, after_statements) = statements_at(s, after_inputs);
            match header_at(s, after_statements, outputs_word()) {
                Err(at) => Err(at),
                Ok((outputs, end)) => Ok((ProgramView { inputs, statements, outputs }, end)),
            }
        },
    }
}

/// The names that start at `pos`, and the position after them.
pub fn names(input: &[u8], pos: usize) -> (found: (Vec<Name>, usize))
    requires
        pos <= input.len(),
    ensures
        names_view(found.0@) == names_at(input@, pos as int).0,
        found.1 == names_at(input@, pos as int).1,
        pos <= found.1 <= input.len(),
{
    let ghost s = input@;
    let mut list: Vec<Name> = Vec::new();
    let (first, after) = match name(input, pos) {
        Some(found) => found,
        None => {
            assert(names_view(list@) =~= Seq::<Seq<char>>::empty());
            return (list, pos);
        },
    };
    let ghost first_view = first@;
    list.push(first);
    assert(names_view(list@) =~= seq![first_view]);
    let mut end: usize = after;
    loop
        invariant
            s == input@,
            pos < after <= end <= input.len(),
            seq![first_view] + more_names_at(s, after as int).0 == names_view(list@)
                + more_names_at(s, end as int).0,
            more_names_at(s, after as int).1 == more_names_at(s, end as int).1,
        ensures
            seq![first_view] + more_names_at(s, after as int).0 == names_view(list@),
            more_names_at(s, after as int).1 == end,
            after <= end <= input.len(),
        decreases input.len() - end,
    {
        let comma = skip_whitespace(input, end);
        if !has_mark(input, comma, COMMA) {
            assert(names_view(list@) + Seq::<Seq<char>>::empty() =~= names_view(list@));
            break ;
        }
        let (n, next) = match name(input, skip_whitespace(input, comma + 1)) {
            Some(found) => found,
            None => {
                assert(names_view(list@) + Seq::<Seq<char>>::empty() =~= names_view(list@));
                break ;
            },
        };
        let ghost before = names_view(list@);
        let ghost view = n@;
        proof {
            assert(before + (seq![view] + more_names_at(s, next as int).0) =~= before.push(view)
                + more_names_at(s, next as int).0);
        }
        list.push(n);
        assert(names_view(list@) =~= before.push(view));
        end = next;
    }
    (list, end)
}

/// The end of a statement whose expression ends at `after`.
fn end_statement(input: &[u8], after: usize) -> (end: Option<usize>)
    requires
        after <= input.len(),
    ensures
        match statement_end(input@, after as int) {
            Some(e) => end == Some(e as usize) && after < e <= input.len(),
            None => end is None,
        },
{
    let semicolon = skip_whitespace(input, after);
    if has_mark(input, semicolon, SEMICOLON) {
        Some(skip_whitespace(input, semicolon + 1))
    } else {
        None
    }
}

/// The statement that starts at `pos`, after whitespace, and the position
/// after it and the whitespace behind it.
pub fn statement(input: &[u8], pos: usize) -> (found: Option<(Statement, usize)>)
    requires
        pos <= input.len(),
    ensures
        match statement_at(input@, pos as int) {
            Some((st, end)) => found matches Some((x, at)) && x@ == st && at == end && pos < at
                <= input.len(),
            None => found is None,
        },
{
    let (target, after_name) = name(input, skip_whitespace(input, pos))?;
    let mark = skip_whitespace(input, after_name);
    if has_mark(input, mark, EQUALS) {
        let (e, after) = expression(input, skip_whitespace(input, mark + 1))?;
        let end = end_statement(input, after)?;
        Some((Statement::VarAssignment(target, e), end))
    } else if has_mark(input, mark, OPEN) {
        let (params, after_params) = names(input, skip_whitespace(input, mark + 1));
        let close = skip_whitespace(input, after_params);
        if !has_mark(input, close, CLOSE) {
            return None;
        }
        let equals = skip_whitespace(input, close + 1);
        if !has_mark(input, equals, EQUALS) {
            return None;
        }
        let (e, after) = expression(input, skip_whitespace(input, equals + 1))?;
        let end = end_statement(input, after)?;
        Some((Statement::FnDefinition(target, params, e), end))
    } else {
        None
    }
}

/// The statements that start at `pos`, as many as parse, and the position
/// after the last of them.
pub fn statements(input: &[u8], pos: usize) -> (found: (Statements, usize))
    requires
        pos <= input.len(),
    ensures
        found.0@ == statements_at(input@, pos as int).0,
        found.1 == statements_at(input@, pos as int).1,
        pos <= found.1 <= input.len(),
{
    let ghost s = input@;
    let mut list: Vec<Statement> = Vec::new();
    let mut end: usize = pos;
    let ghost mut done: Seq<StatementView> = Seq::empty();
    loop
        invariant
            s == input@,
            pos <= end <= input.len(),
            done == Statements(list)@,
            statements_at(s, pos as int).0 == done + statements_at(s, end as int).0,
            statements_at(s, pos as int).1 == statements_at(s, end as int).1,
        ensures
            statements_at(s, pos as int) == (Statements(list)@, end as int),
            pos <= end <= input.len(),
        decreases input.len() - end,
    {
        let (st, next) = match statement(input, end) {
            Some(found) => found,
            None => {
                assert(done + Seq::<StatementView>::empty() =~= done);
                break ;
            },
        };
        proof {
            assert(done + (seq![st@] + statements_at(s, next as int).0) =~= done.push(st@)
                + statements_at(s, next as int).0);
            done = done.push(st@);
        }
        list.push(st);
        assert(Statements(list)@ =~= done);
        end = next;
    }
    (Statements(list), end)
}

/// The header that starts at `pos`: the keyword for the inputs or the one
/// for the outputs, then names and a semicolon.
fn header(input: &[u8], pos: usize, outputs: bool) -> (found: Result<(Vec<Name>, usize), usize>)
    requires
        pos <= input.len(),
    ensures
        match header_at(
            input@,
            pos as int,
            if outputs {
                outputs_word()
            } else {
                inputs_word()
            },
        ) {
            Ok((names, end)) => found matches Ok((list, at)) && names_view(list@) == names && at == end
                && pos < at <= input.len(),
            Err(at) => found == Err::<(Vec<Name>, usize), usize>(at as usize) && pos <= at
                <= input.len(),
        },
{
    let start = skip_whitespace(input, pos);
    let after_word = scan_word(input, start);
    let word = &input[start..after_word];
    let is_keyword = if outputs {
        is_outputs_word(word)
    } else {
        is_inputs_word(word)
    };
    if !is_keyword {
        return Err(start);
    }
    let (list, after) = names(input, skip_whitespace(input, after_word));
    let semicolon = skip_whitespace(input, after);
    if has_mark(input, semicolon, SEMICOLON) {
        Ok((list, skip_whitespace(input, semicolon + 1)))
    } else {
        Err(semicolon)
    }
}

/// The program that starts at `pos` and the position after it, or the
/// position at which the input stops being a program.
pub fn program(input: &[u8], pos: usize) -> (found: Result<(Program, usize), usize>)
    requires
        pos <= input.len(),
    ensures
        match program_at(input@, pos as int) {
            Ok((p, end)) => found matches Ok((x, at)) && x@ == p && at == end && pos < at
                <= input.len(),
            Err(at) => found matches Err(e) && e == at && pos <= at <= input.len(),
        },
{
    let (inputs, after_inputs) = header(input, pos, false)?;
    let (list, after_statements) = statements(input, after_inputs);
    let (outputs, end) = header(input, after_statements, true)?;
    Ok((Program::new(inputs, list, outputs), end))
}

} // verus!
