//! What was written of a program is read back: a program that was parsed,
//! written out and parsed again is the same program.

use vstd::prelude::*;
use vstd::utf8::encode_utf8;
use crate::ast::{ExpressionView, ProgramView, StatementView};
use crate::parser::expression::{advances, expression_at, mark_at};
use crate::parser::legible::lemma_parsed_expression;
use crate::parser::lexical::{
    inputs_word, lemma_whitespace_end, lemma_word_end, name_at, name_byte, outputs_word,
    reserved, whitespace, whitespace_end, word_end, CLOSE, COMMA, EQUALS, LINE_FEED, OPEN,
    SEMICOLON, SPACE,
};
use crate::parser::lexical_laws::{
    good_name, lemma_name_back, lemma_name_read, lemma_whitespace_end_exact, lemma_word_at,
    lemma_word_at_byte, lemma_word_at_split, lemma_word_end_exact, word_at, word_like,
};
use crate::parser::readback::{
    closes_at, legible_expression, lemma_expression_back, lemma_expression_starts,
};
use crate::parser::statement::{
    assignment_at, definition_at, header_at, keyword_at, more_names_at, names_at, program_at,
    statement_at, statement_end, statements_at,
};
use crate::parser::{first_repeat, parsed, ErrorView};
use crate::printer::{
    expression_text, header_text, names_text, program_text, separator, statement_text,
    statements_text,
};

verus! {

/// Whether every name can be written and read.
pub open spec fn good_names(names: Seq<Seq<char>>) -> bool {
    forall|i: int| 0 <= i < names.len() ==> good_name(#[trigger] names[i])
}

/// Whether the text of a statement parses to the statement.
pub open spec fn legible_statement(statement: StatementView) -> bool {
    match statement {
        StatementView::VarAssignment(name, expression) => good_name(name) && legible_expression(
            expression,
        ),
        StatementView::FnDefinition(name, params, body) => good_name(name) && good_names(params)
            && legible_expression(body),
    }
}

/// Whether the text of every statement parses to the statement.
pub open spec fn legible_statements(statements: Seq<StatementView>) -> bool {
    forall|i: int| 0 <= i < statements.len() ==> legible_statement(#[trigger] statements[i])
}

/// Whether the text of a program parses to the program.
pub open spec fn legible_program(program: ProgramView) -> bool {
    good_names(program.inputs) && legible_statements(program.statements) && good_names(
        program.outputs,
    )
}

/// The names from `from` on, each behind a separator.
pub open spec fn more_names_text(names: Seq<Seq<char>>, from: nat) -> Seq<u8>
    decreases names.len() - from,
{
    if from >= names.len() {
        seq![]
    } else {
        separator() + encode_utf8(names[from as int]) + more_names_text(names, from + 1)
    }
}

/// The text of all names is that of the first ones and then that of the
/// others, each behind a separator.
pub proof fn lemma_names_text_split(names: Seq<Seq<char>>, n: nat)
    requires
        1 <= n <= names.len(),
    ensures
        names_text(names, names.len()) == names_text(names, n) + more_names_text(names, n),
    decreases names.len() - n,
{
    if n < names.len() {
        lemma_names_text_split(names, n + 1);
        assert(names_text(names, n + 1) + more_names_text(names, n + 1) =~= names_text(names, n)
            + more_names_text(names, n));
    } else {
        assert(names_text(names, n) + more_names_text(names, n) =~= names_text(names, n));
    }
}

/// What ends a list of names: a semicolon or a closing parenthesis.
pub open spec fn ends_names(s: Seq<u8>, end: int) -> bool {
    0 <= end < s.len() && (s[end] == SEMICOLON || s[end] == CLOSE)
}

/// The names that were written behind separators are read back.
pub proof fn lemma_more_names_back(s: Seq<u8>, pos: int, names: Seq<Seq<char>>, from: nat)
    requires
        good_names(names),
        0 <= pos,
        1 <= from <= names.len(),
        word_at(s, pos, more_names_text(names, from)),
        ends_names(s, pos + more_names_text(names, from).len()),
    ensures
        more_names_at(s, pos) == (names.skip(from as int), pos + more_names_text(names, from).len()),
    decreases names.len() - from,
{
    if from >= names.len() {
        lemma_whitespace_end_exact(s, pos, pos);
        assert(names.skip(from as int) =~= Seq::<Seq<char>>::empty());
    } else {
        let name = names[from as int];
        let word = encode_utf8(name);
        let rest = more_names_text(names, from + 1);
        assert(more_names_text(names, from) == separator() + word + rest);
        lemma_word_at_split(s, pos, separator() + word, rest);
        lemma_word_at_split(s, pos, separator(), word);
        lemma_word_at_byte(s, pos, separator(), 0);
        lemma_word_at_byte(s, pos, separator(), 1);
        lemma_word_at_byte(s, pos + 2, word, 0);
        assert(name_byte(word[0]));
        lemma_whitespace_end_exact(s, pos, pos);
        lemma_whitespace_end_exact(s, pos + 1, pos + 2);
        let end = pos + 2 + word.len();
        if from + 1 < names.len() {
            let next = encode_utf8(names[from as int + 1]) + more_names_text(names, from + 2);
            assert(rest =~= separator() + next);
            lemma_word_at_split(s, end, separator(), next);
            lemma_word_at_byte(s, end, separator(), 0);
        }
        lemma_name_back(s, pos + 2, name);
        lemma_more_names_back(s, end, names, from + 1);
        assert(seq![name] + names.skip(from as int + 1) =~= names.skip(from as int));
    }
}

/// The names that were written are read back.
pub proof fn lemma_names_back(s: Seq<u8>, pos: int, names: Seq<Seq<char>>)
    requires
        good_names(names),
        0 <= pos,
        word_at(s, pos, names_text(names, names.len())),
        ends_names(s, pos + names_text(names, names.len()).len()),
    ensures
        names_at(s, pos) == (names, pos + names_text(names, names.len()).len()),
        whitespace_end(s, pos) == pos,
{
    if names.len() == 0 {
        assert(word_end(s, pos) == pos);
        lemma_whitespace_end_exact(s, pos, pos);
        assert(names =~= Seq::<Seq<char>>::empty());
    } else {
        let word = encode_utf8(names[0]);
        let rest = more_names_text(names, 1);
        lemma_names_text_split(names, 1);
        lemma_word_at_split(s, pos, word, rest);
        lemma_word_at_byte(s, pos, word, 0);
        assert(name_byte(word[0]));
        lemma_whitespace_end_exact(s, pos, pos);
        let end = pos + word.len();
        if 1 < names.len() {
            let next = encode_utf8(names[1]) + more_names_text(names, 2);
            assert(rest =~= separator() + next);
            lemma_word_at_split(s, end, separator(), next);
            lemma_word_at_byte(s, end, separator(), 0);
        }
        lemma_name_back(s, pos, names[0]);
        lemma_more_names_back(s, end, names, 1);
        assert(seq![names[0]] + names.skip(1) =~= names);
    }
}

/// The text of a legible statement begins with a name byte.
pub proof fn lemma_statement_starts(statement: StatementView)
    requires
        legible_statement(statement),
    ensures
        statement_text(statement).len() > 0,
        name_byte(statement_text(statement)[0]),
{
    match statement {
        StatementView::VarAssignment(name, _) => {
            assert(name_byte(encode_utf8(name)[0]));
            assert(statement_text(statement)[0] == encode_utf8(name)[0]);
        },
        StatementView::FnDefinition(name, _, _) => {
            assert(name_byte(encode_utf8(name)[0]));
            assert(statement_text(statement)[0] == encode_utf8(name)[0]);
        },
    }
}

/// A statement that was written on a line of its own is read back, with
/// the end of the line behind it.
pub proof fn lemma_statement_back(s: Seq<u8>, pos: int, statement: StatementView)
    requires
        legible_statement(statement),
        0 <= pos,
        word_at(s, pos, statement_text(statement) + seq![LINE_FEED]),
        pos + statement_text(statement).len() + 1 == s.len() || !whitespace(
            s[pos + statement_text(statement).len() + 1],
        ),
    ensures
        statement_at(s, pos) == Some((statement, pos + statement_text(statement).len() + 1)),
        whitespace_end(s, pos) == pos,
{
    let text = statement_text(statement);
    let end = pos + text.len() + 1;
    lemma_word_at_split(s, pos, text, seq![LINE_FEED]);
    lemma_word_at_byte(s, pos + text.len(), seq![LINE_FEED], 0);
    lemma_statement_starts(statement);
    lemma_word_at_byte(s, pos, text, 0);
    lemma_whitespace_end_exact(s, pos, pos);
    lemma_whitespace_end_exact(s, end - 1, end);
    match statement {
        StatementView::VarAssignment(name, expression) => {
            let word = encode_utf8(name);
            let middle = seq![SPACE, EQUALS, SPACE];
            let body = expression_text(expression);
            assert(text == word + middle + body + seq![SEMICOLON]);
            lemma_word_at_split(s, pos, word + middle + body, seq![SEMICOLON]);
            lemma_word_at_split(s, pos, word + middle, body);
            lemma_word_at_split(s, pos, word, middle);
            let q = pos + word.len();
            lemma_word_at_byte(s, q, middle, 0);
            lemma_word_at_byte(s, q, middle, 1);
            lemma_word_at_byte(s, q, middle, 2);
            lemma_expression_starts(expression);
            lemma_word_at_byte(s, q + 3, body, 0);
            let semicolon = q + 3 + body.len();
            lemma_word_at_byte(s, semicolon, seq![SEMICOLON], 0);
            lemma_name_back(s, pos, name);
            lemma_whitespace_end_exact(s, q, q + 1);
            lemma_whitespace_end_exact(s, q + 2, q + 3);
            lemma_whitespace_end_exact(s, semicolon, semicolon);
            lemma_expression_back(s, q + 3, expression);
        },
        StatementView::FnDefinition(name, params, body) => {
            let word = encode_utf8(name);
            let list = names_text(params, params.len());
            let middle = seq![CLOSE, SPACE, EQUALS, SPACE];
            let returned = expression_text(body);
            assert(text == word + seq![OPEN] + list + middle + returned + seq![SEMICOLON]);
            lemma_word_at_split(s, pos, word + seq![OPEN] + list + middle + returned, seq![SEMICOLON]);
            lemma_word_at_split(s, pos, word + seq![OPEN] + list + middle, returned);
            lemma_word_at_split(s, pos, word + seq![OPEN] + list, middle);
            lemma_word_at_split(s, pos, word + seq![OPEN], list);
            lemma_word_at_split(s, pos, word, seq![OPEN]);
            let open = pos + word.len();
            let close = open + 1 + list.len();
            lemma_word_at_byte(s, open, seq![OPEN], 0);
            lemma_word_at_byte(s, close, middle, 0);
            lemma_word_at_byte(s, close, middle, 1);
            lemma_word_at_byte(s, close, middle, 2);
            lemma_word_at_byte(s, close, middle, 3);
            lemma_expression_starts(body);
            lemma_word_at_byte(s, close + 4, returned, 0);
            let semicolon = close + 4 + returned.len();
            lemma_word_at_byte(s, semicolon, seq![SEMICOLON], 0);
            lemma_name_back(s, pos, name);
            lemma_whitespace_end_exact(s, open, open);
            lemma_names_back(s, open + 1, params);
            lemma_whitespace_end_exact(s, close, close);
            lemma_whitespace_end_exact(s, close + 1, close + 2);
            lemma_whitespace_end_exact(s, close + 3, close + 4);
            lemma_whitespace_end_exact(s, semicolon, semicolon);
            lemma_expression_back(s, close + 4, body);
        },
    }
}

/// The statements from `from` on, each on a line of its own.
pub open spec fn lines_text(statements: Seq<StatementView>, from: nat) -> Seq<u8>
    decreases statements.len() - from,
{
    if from >= statements.len() {
        seq![]
    } else {
        statement_text(statements[from as int]) + seq![LINE_FEED] + lines_text(
            statements,
            from + 1,
        )
    }
}

/// The text of all statements, with the end of the last line, is that of
/// the first ones and then the others, each on a line of its own.
pub proof fn lemma_statements_text_split(statements: Seq<StatementView>, n: nat)
    requires
        1 <= n <= statements.len(),
    ensures
        statements_text(statements, statements.len()) + seq![LINE_FEED] == statements_text(
            statements,
            n,
        ) + seq![LINE_FEED] + lines_text(statements, n),
    decreases statements.len() - n,
{
    if n < statements.len() {
        lemma_statements_text_split(statements, n + 1);
        assert(statements_text(statements, n + 1) + seq![LINE_FEED] + lines_text(
            statements,
            n + 1,
        ) =~= statements_text(statements, n) + seq![LINE_FEED] + lines_text(statements, n));
    } else {
        assert(statements_text(statements, n) + seq![LINE_FEED] + lines_text(statements, n)
            =~= statements_text(statements, n) + seq![LINE_FEED]);
    }
}

/// The statements that were written, each on a line of its own, are read
/// back, where no statement follows them.
pub proof fn lemma_statements_back(
    s: Seq<u8>,
    pos: int,
    statements: Seq<StatementView>,
    from: nat,
)
    requires
        legible_statements(statements),
        0 <= pos,
        from <= statements.len(),
        word_at(s, pos, lines_text(statements, from)),
        statement_at(s, pos + lines_text(statements, from).len()) is None,
        pos + lines_text(statements, from).len() == s.len() || !whitespace(
            s[pos + lines_text(statements, from).len()],
        ),
    ensures
        statements_at(s, pos) == (
            statements.skip(from as int),
            pos + lines_text(statements, from).len(),
        ),
    decreases statements.len() - from,
{
    lemma_word_at(s, pos, lines_text(statements, from));
    if from >= statements.len() {
        assert(statements.skip(from as int) =~= Seq::<StatementView>::empty());
    } else {
        let statement = statements[from as int];
        let line = statement_text(statement) + seq![LINE_FEED];
        let rest = lines_text(statements, from + 1);
        assert(lines_text(statements, from) == line + rest);
        lemma_word_at_split(s, pos, line, rest);
        let end = pos + line.len();
        lemma_word_at(s, end, rest);
        if from + 1 < statements.len() {
            let next = statement_text(statements[from as int + 1]);
            lemma_statement_starts(statements[from as int + 1]);
            assert(rest =~= next + (seq![LINE_FEED] + lines_text(statements, from + 2)));
            lemma_word_at_split(s, end, next, seq![LINE_FEED] + lines_text(statements, from + 2));
            lemma_word_at_byte(s, end, next, 0);
        }
        lemma_statement_back(s, pos, statement);
        lemma_statements_back(s, end, statements, from + 1);
        assert(seq![statement] + statements.skip(from as int + 1) =~= statements.skip(from as int));
    }
}

/// Whether a word is one of the two keywords of a header.
pub open spec fn is_keyword(word: Seq<u8>) -> bool {
    word == inputs_word() || word == outputs_word()
}

/// A keyword is a word, and reserved.
pub proof fn lemma_keyword(word: Seq<u8>)
    requires
        is_keyword(word),
    ensures
        word_like(word),
        reserved(word),
        !whitespace(word[0]),
{
    if word == inputs_word() {
        assert(word.len() == 6);
        assert(word[0] == 0x69 && word[1] == 0x6e && word[2] == 0x70 && word[3] == 0x75 && word[4]
            == 0x74 && word[5] == 0x73);
    } else {
        assert(word.len() == 7);
        assert(word[0] == 0x6f && word[1] == 0x75 && word[2] == 0x74 && word[3] == 0x70 && word[4]
            == 0x75 && word[5] == 0x74 && word[6] == 0x73);
    }
}

/// A header that was written is read back, and no statement begins where
/// it stands.
pub proof fn lemma_header_back(s: Seq<u8>, pos: int, word: Seq<u8>, names: Seq<Seq<char>>)
    requires
        is_keyword(word),
        good_names(names),
        0 <= pos,
        word_at(s, pos, header_text(word, names)),
    ensures
        header_at(s, pos, word) == Ok::<(Seq<Seq<char>>, int), int>(
            (names, whitespace_end(s, pos + header_text(word, names).len())),
        ),
        statement_at(s, pos) is None,
        !whitespace(s[pos]),
{
    lemma_keyword(word);
    let text = header_text(word, names);
    let after = pos + word.len();
    let list = names_text(names, names.len());
    if names.len() == 0 {
        assert(text == word + seq![SEMICOLON]);
        lemma_word_at_split(s, pos, word, seq![SEMICOLON]);
        lemma_word_at_byte(s, after, seq![SEMICOLON], 0);
        lemma_whitespace_end_exact(s, after, after);
        assert(list =~= Seq::<u8>::empty());
        assert(word_end(s, after) == after);
        assert(names =~= Seq::<Seq<char>>::empty());
    } else {
        assert(text == word + seq![SPACE] + list + seq![SEMICOLON]);
        lemma_word_at_split(s, pos, word + seq![SPACE] + list, seq![SEMICOLON]);
        lemma_word_at_split(s, pos, word + seq![SPACE], list);
        lemma_word_at_split(s, pos, word, seq![SPACE]);
        lemma_word_at_byte(s, after, seq![SPACE], 0);
        lemma_word_at_byte(s, after + 1 + list.len(), seq![SEMICOLON], 0);
        lemma_names_back(s, after + 1, names);
        lemma_whitespace_end_exact(s, after, after + 1);
        lemma_whitespace_end_exact(s, after + 1 + list.len(), after + 1 + list.len());
    }
    lemma_word_at(s, pos, word);
    lemma_word_at_byte(s, pos, word, 0);
    assert forall|i: int| pos <= i < after implies name_byte(#[trigger] s[i]) by {
        lemma_word_at_byte(s, pos, word, i - pos);
    }
    lemma_word_end_exact(s, pos, after);
    lemma_whitespace_end_exact(s, pos, pos);
}

/// The text of a program is its first header, the end of a line, its
/// statements, each on a line of its own, and its second header.
pub proof fn lemma_program_text(program: ProgramView)
    ensures
        program_text(program) == header_text(inputs_word(), program.inputs) + seq![LINE_FEED]
            + lines_text(program.statements, 0) + header_text(outputs_word(), program.outputs),
{
    let statements = program.statements;
    let lines = lines_text(statements, 0);
    if statements.len() > 0 {
        lemma_statements_text_split(statements, 1);
        assert(statements_text(statements, 1) + seq![LINE_FEED] + lines_text(statements, 1)
            =~= lines);
    }
    assert(program_text(program) =~= header_text(inputs_word(), program.inputs) + seq![LINE_FEED]
        + lines + header_text(outputs_word(), program.outputs));
}

/// An input that holds the parts of a program, one behind the other and
/// nothing else, parses to the program.
pub proof fn lemma_parts_back(s: Seq<u8>, program: ProgramView, start: int, out: int)
    requires
        legible_program(program),
        word_at(s, 0, header_text(inputs_word(), program.inputs)),
        start == header_text(inputs_word(), program.inputs).len() + 1,
        word_at(s, start - 1, seq![LINE_FEED]),
        word_at(s, start, lines_text(program.statements, 0)),
        out == start + lines_text(program.statements, 0).len(),
        word_at(s, out, header_text(outputs_word(), program.outputs)),
        s.len() == out + header_text(outputs_word(), program.outputs).len(),
    ensures
        program_at(s, 0) == Ok::<(ProgramView, int), int>((program, s.len() as int)),
{
    let statements = program.statements;
    lemma_word_at_byte(s, start - 1, seq![LINE_FEED], 0);
    lemma_header_back(s, 0, inputs_word(), program.inputs);
    lemma_header_back(s, out, outputs_word(), program.outputs);
    lemma_word_at(s, out, header_text(outputs_word(), program.outputs));
    assert(whitespace_end(s, start - 1) == start) by {
        if statements.len() > 0 {
            let first = statement_text(statements[0]);
            lemma_statement_starts(statements[0]);
            assert(lines_text(statements, 0) =~= first + (seq![LINE_FEED] + lines_text(
                statements,
                1,
            )));
            lemma_word_at_split(s, start, first, seq![LINE_FEED] + lines_text(statements, 1));
            lemma_word_at_byte(s, start, first, 0);
        }
        lemma_whitespace_end_exact(s, start - 1, start);
    }
    lemma_statements_back(s, start, statements, 0);
    assert(statements.skip(0) =~= statements);
    lemma_whitespace_end_exact(s, s.len() as int, s.len() as int);
}

/// The text of a legible program parses to the program, and to the end.
pub proof fn lemma_program_back(program: ProgramView)
    requires
        legible_program(program),
    ensures
        program_at(program_text(program), 0) == Ok::<(ProgramView, int), int>(
            (program, program_text(program).len() as int),
        ),
{
    let s = program_text(program);
    let head = header_text(inputs_word(), program.inputs);
    let foot = header_text(outputs_word(), program.outputs);
    let lines = lines_text(program.statements, 0);
    lemma_program_text(program);
    lemma_word_at(s, 0, s);
    assert(s.subrange(0, s.len() as int) =~= s);
    lemma_word_at_split(s, 0, head + seq![LINE_FEED] + lines, foot);
    lemma_word_at_split(s, 0, head + seq![LINE_FEED], lines);
    lemma_word_at_split(s, 0, head, seq![LINE_FEED]);
    lemma_parts_back(s, program, head.len() as int + 1, head.len() as int + 1 + lines.len());
}

/// The names that were parsed behind commas can be written and read.
pub proof fn lemma_parsed_more_names(s: Seq<u8>, pos: int)
    ensures
        good_names(more_names_at(s, pos).0),
    decreases s.len() - pos,
{
    let comma = whitespace_end(s, pos);
    if mark_at(s, comma, COMMA) {
        let start = whitespace_end(s, comma + 1);
        match name_at(s, start) {
            None => {},
            Some((name, after)) => {
                lemma_whitespace_end(s, pos);
                lemma_whitespace_end(s, comma + 1);
                lemma_word_end(s, start);
                lemma_name_read(s, start);
                lemma_parsed_more_names(s, after);
                let more = more_names_at(s, after).0;
                let all = more_names_at(s, pos).0;
                assert(all == seq![name] + more);
                assert forall|i: int| 0 <= i < all.len() implies good_name(#[trigger] all[i]) by {
                    if i > 0 {
                        assert(all[i] == more[i - 1]);
                    }
                }
            },
        }
    }
}

/// The names that were parsed can be written and read.
pub proof fn lemma_parsed_names(s: Seq<u8>, pos: int)
    ensures
        good_names(names_at(s, pos).0),
{
    match name_at(s, pos) {
        None => {},
        Some((name, after)) => {
            lemma_name_read(s, pos);
            lemma_parsed_more_names(s, after);
            let more = more_names_at(s, after).0;
            let all = names_at(s, pos).0;
            assert(all == seq![name] + more);
            assert forall|i: int| 0 <= i < all.len() implies good_name(#[trigger] all[i]) by {
                if i > 0 {
                    assert(all[i] == more[i - 1]);
                }
            }
        },
    }
}

/// A statement that was parsed is legible.
pub proof fn lemma_parsed_statement(s: Seq<u8>, pos: int)
    requires
        statement_at(s, pos) is Some,
    ensures
        legible_statement(statement_at(s, pos).unwrap().0),
{
    let start = whitespace_end(s, pos);
    lemma_name_read(s, start);
    let (name, after_name) = name_at(s, start).unwrap();
    let mark = whitespace_end(s, after_name);
    if mark_at(s, mark, EQUALS) {
        lemma_parsed_expression(s, whitespace_end(s, mark + 1));
    } else {
        lemma_parsed_names(s, whitespace_end(s, mark + 1));
        let close = whitespace_end(s, names_at(s, whitespace_end(s, mark + 1)).1);
        let equals = whitespace_end(s, close + 1);
        lemma_parsed_expression(s, whitespace_end(s, equals + 1));
    }
}

/// The statements that were parsed are legible.
pub proof fn lemma_parsed_statements(s: Seq<u8>, pos: int)
    ensures
        legible_statements(statements_at(s, pos).0),
    decreases s.len() - pos,
{
    match statement_at(s, pos) {
        None => {},
        Some((statement, after)) => {
            if advances(s, pos, after) {
                lemma_parsed_statement(s, pos);
                lemma_parsed_statements(s, after);
                let more = statements_at(s, after).0;
                let all = statements_at(s, pos).0;
                assert(all == seq![statement] + more);
                assert forall|i: int| 0 <= i < all.len() implies legible_statement(
                    #[trigger] all[i],
                ) by {
                    if i > 0 {
                        assert(all[i] == more[i - 1]);
                    }
                }
            }
        },
    }
}

/// A program that was parsed is legible.
pub proof fn lemma_parsed_program(s: Seq<u8>, pos: int)
    requires
        program_at(s, pos) is Ok,
    ensures
        legible_program(program_at(s, pos)->Ok_0.0),
{
    let start = whitespace_end(s, pos);
    lemma_parsed_names(s, whitespace_end(s, start + inputs_word().len()));
    let after_inputs = header_at(s, pos, inputs_word())->Ok_0.1;
    lemma_parsed_statements(s, after_inputs);
    let after_statements = statements_at(s, after_inputs).1;
    let out = whitespace_end(s, after_statements);
    lemma_parsed_names(s, whitespace_end(s, out + outputs_word().len()));
}

/// The round trip: a program that was parsed, written out and parsed again
/// is the same program.
pub proof fn lemma_program_round_trip(s: Seq<u8>)
    requires
        parsed(s) is Ok,
    ensures
        parsed(program_text(parsed(s)->Ok_0)) == Ok::<ProgramView, ErrorView>(parsed(s)->Ok_0),
{
    let program = parsed(s)->Ok_0;
    lemma_parsed_program(s, 0);
    lemma_program_back(program);
}

} // verus!
