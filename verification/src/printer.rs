//! The source text of a tree.
//!
//! An operation is written with one space on either side of its operator.
//! A side that is an operation of an operator of lower precedence stands in
//! parentheses. Names are written in UTF-8, integers in base ten, items of
//! a list with a comma and a space between them, statements one to a line.

use vstd::prelude::*;
use vstd::string::StringSliceAdditionalSpecFns;
use vstd::utf8::{
    decode_utf8, encode_utf8, encode_utf8_valid_utf8, is_ascii_chars, is_ascii_chars_encode_utf8,
    valid_utf8, valid_utf8_concat,
};
use crate::ast::{
    clauses_view, expressions_view, names_view, Expression, ExpressionView, Match, Matcher, Name,
    Operand, OperandView, Operator, Program, ProgramView, Statement, StatementView, Statements,
    TokenView,
};
use crate::parser::lexical::{
    inputs_word, match_word, outputs_word, to_str, CLOSE, COMMA, EQUALS, LINE_FEED, MINUS, OPEN,
    PLUS, SEMICOLON, SLASH, SPACE, STAR, ZERO,
};
use crate::semantics::clause_count;

verus! {

/// The byte that writes an operator.
pub open spec fn operator_byte(operator: Operator) -> u8 {
    match operator {
        Operator::Add => PLUS,
        Operator::Subtract => MINUS,
        Operator::Multiply => STAR,
        Operator::Divide => SLASH,
    }
}

/// The digits of a number in base ten, without leading zeros.
pub open spec fn digits(n: nat) -> Seq<u8>
    decreases n,
{
    if n < 10 {
        seq![(ZERO + n) as u8]
    } else {
        digits(n / 10).push((ZERO + n % 10) as u8)
    }
}

/// An integer in base ten, with `-` before a negative one.
pub open spec fn integer_text(n: i64) -> Seq<u8> {
    if n < 0 {
        seq![MINUS] + digits((-n) as nat)
    } else {
        digits(n as nat)
    }
}

/// The separator of the items of a list.
pub open spec fn separator() -> Seq<u8> {
    seq![COMMA, SPACE]
}

/// The first `n` names with separators between them.
pub open spec fn names_text(names: Seq<Seq<char>>, n: nat) -> Seq<u8>
    decreases n,
{
    if n == 0 || n > names.len() {
        seq![]
    } else if n == 1 {
        encode_utf8(names[0])
    } else {
        names_text(names, (n - 1) as nat) + separator() + encode_utf8(names[n - 1])
    }
}

/// The text of an expression.
pub open spec fn expression_text(expression: ExpressionView) -> Seq<u8>
    decreases expression, 0nat,
{
    match expression {
        ExpressionView::Operand(operand) => operand_text(operand),
        ExpressionView::Operation(operator, lhs, rhs) => side_text(operator, *lhs) + seq![
            SPACE,
            operator_byte(operator),
            SPACE,
        ] + side_text(operator, *rhs),
    }
}

/// Whether a side of an operation of `operator` is written in parentheses.
pub open spec fn parenthesised(operator: Operator, side: ExpressionView) -> bool {
    match side {
        ExpressionView::Operation(inner, _, _) => inner.rank() < operator.rank(),
        ExpressionView::Operand(_) => false,
    }
}

/// The text of one side of an operation of `operator`.
pub open spec fn side_text(operator: Operator, side: ExpressionView) -> Seq<u8>
    decreases side, 1nat,
{
    if parenthesised(operator, side) {
        seq![OPEN] + expression_text(side) + seq![CLOSE]
    } else {
        expression_text(side)
    }
}

/// The text of an operand.
pub open spec fn operand_text(operand: OperandView) -> Seq<u8>
    decreases operand, clause_count(operand) + 1,
{
    match operand {
        OperandView::I64(n) => integer_text(n),
        OperandView::Group(e) => seq![OPEN] + expression_text(*e) + seq![CLOSE],
        OperandView::VarSubstitution(name) => encode_utf8(name),
        OperandView::FnApplication(name, args) => encode_utf8(name) + seq![OPEN] + arguments_text(
            args,
            args.len(),
        ) + seq![CLOSE],
        OperandView::Match(with, clauses, default) => match_word() + seq![OPEN] + expression_text(
            *with,
        ) + seq![SEMICOLON, SPACE] + clauses_text(operand, clauses.len()) + seq![
            SEMICOLON,
            SPACE,
        ] + expression_text(*default) + seq![CLOSE],
    }
}

/// The first `n` arguments with separators between them.
pub open spec fn arguments_text(args: Seq<ExpressionView>, n: nat) -> Seq<u8>
    decreases args, n,
{
    if n == 0 || n > args.len() {
        seq![]
    } else if n == 1 {
        expression_text(args[0])
    } else {
        arguments_text(args, (n - 1) as nat) + separator() + expression_text(args[n - 1])
    }
}

/// The text of a clause: the value, ` = `, the result.
pub open spec fn clause_text(value: Seq<u8>, result: Seq<u8>) -> Seq<u8> {
    value + seq![SPACE, EQUALS, SPACE] + result
}

/// The first `n` clauses of a match with separators between them.
pub open spec fn clauses_text(operand: OperandView, n: nat) -> Seq<u8>
    decreases operand, n,
{
    match operand {
        OperandView::Match(_, clauses, _) => if n == 0 || n > clauses.len() {
            seq![]
        } else if n == 1 {
            clause_text(expression_text(clauses[0].0), expression_text(clauses[0].1))
        } else {
            clauses_text(operand, (n - 1) as nat) + separator() + clause_text(
                expression_text(clauses[n - 1].0),
                expression_text(clauses[n - 1].1),
            )
        },
        _ => seq![],
    }
}

/// The text of a statement, with the semicolon that ends it.
pub open spec fn statement_text(statement: StatementView) -> Seq<u8> {
    match statement {
        StatementView::VarAssignment(name, expression) => encode_utf8(name) + seq![
            SPACE,
            EQUALS,
            SPACE,
        ] + expression_text(expression) + seq![SEMICOLON],
        StatementView::FnDefinition(name, params, body) => encode_utf8(name) + seq![OPEN]
            + names_text(params, params.len()) + seq![CLOSE, SPACE, EQUALS, SPACE]
            + expression_text(body) + seq![SEMICOLON],
    }
}

/// The first `n` statements, one to a line.
pub open spec fn statements_text(statements: Seq<StatementView>, n: nat) -> Seq<u8>
    decreases n,
{
    if n == 0 || n > statements.len() {
        seq![]
    } else if n == 1 {
        statement_text(statements[0])
    } else {
        statements_text(statements, (n - 1) as nat) + seq![LINE_FEED] + statement_text(
            statements[n - 1],
        )
    }
}

/// A keyword, the names behind a space where there are any, a semicolon.
pub open spec fn header_text(word: Seq<u8>, names: Seq<Seq<char>>) -> Seq<u8> {
    if names.len() == 0 {
        word + seq![SEMICOLON]
    } else {
        word + seq![SPACE] + names_text(names, names.len()) + seq![SEMICOLON]
    }
}

/// The text of a program: the inputs, the statements, the outputs, each
/// on a line of its own.
pub open spec fn program_text(program: ProgramView) -> Seq<u8> {
    let statements = if program.statements.len() == 0 {
        seq![]
    } else {
        statements_text(program.statements, program.statements.len()) + seq![LINE_FEED]
    };
    header_text(inputs_word(), program.inputs) + seq![LINE_FEED] + statements + header_text(
        outputs_word(),
        program.outputs,
    )
}

/// Appends the bytes to the text.
pub(crate) fn write(out: &mut Vec<u8>, bytes: &[u8])
    ensures
        final(out)@ == old(out)@ + bytes@,
{
    let mut i: usize = 0;
    while i < bytes.len()
        invariant
            i <= bytes.len(),
            out@ == old(out)@ + bytes@.take(i as int),
        decreases bytes.len() - i,
    {
        out.push(bytes[i]);
        assert(bytes@.take(i + 1) =~= bytes@.take(i as int).push(bytes[i as int]));
        assert(out@ =~= old(out)@ + bytes@.take(i + 1));
        i += 1;
    }
    assert(bytes@.take(i as int) =~= bytes@);
}

/// Appends a name.
pub fn write_name(out: &mut Vec<u8>, name: &Name)
    ensures
        final(out)@ == old(out)@ + encode_utf8(name@),
{
    write(out, name.0.as_str().as_bytes());
}

/// Appends the digits of a number.
pub fn write_digits(out: &mut Vec<u8>, n: u64)
    ensures
        final(out)@ == old(out)@ + digits(n as nat),
    decreases n,
{
    if n >= 10 {
        write_digits(out, n / 10);
    }
    let digit: u8 = ZERO + (n % 10) as u8;
    out.push(digit);
    assert(out@ =~= old(out)@ + digits(n as nat));
}

/// Appends an integer.
pub fn write_integer(out: &mut Vec<u8>, n: i64)
    ensures
        final(out)@ == old(out)@ + integer_text(n),
{
    if n < 0 {
        out.push(MINUS);
        let magnitude: u64 = ((-(n + 1)) as u64) + 1;
        write_digits(out, magnitude);
        assert(out@ =~= old(out)@ + integer_text(n));
    } else {
        write_digits(out, n as u64);
    }
}

impl Operator {
    /// The byte that writes the operator.
    pub fn symbol(self) -> (byte: u8)
        ensures
            byte == operator_byte(self),
    {
        match self {
            Operator::Add => PLUS,
            Operator::Subtract => MINUS,
            Operator::Multiply => STAR,
            Operator::Divide => SLASH,
        }
    }
}

/// Whether a side of an operation of `operator` is written in parentheses.
pub(crate) fn needs_parentheses(operator: Operator, side: &Expression) -> (needs: bool)
    ensures
        needs == parenthesised(operator, side@),
{
    match side {
        Expression::Operation(inner, _, _) => inner.precedence() < operator.precedence(),
        Expression::Operand(_) => false,
    }
}

/// Appends an expression.
pub fn write_expression(out: &mut Vec<u8>, expression: &Expression)
    ensures
        final(out)@ == old(out)@ + expression_text(expression@),
    decreases expression, 1nat,
{
    match expression {
        Expression::Operand(operand) => write_operand(out, operand),
        Expression::Operation(operator, lhs, rhs) => {
            write_side(out, *operator, lhs);
            out.push(SPACE);
            out.push(operator.symbol());
            out.push(SPACE);
            write_side(out, *operator, rhs);
            assert(out@ =~= old(out)@ + expression_text(expression@));
        },
    }
}

fn write_side(out: &mut Vec<u8>, operator: Operator, side: &Expression)
    ensures
        final(out)@ == old(out)@ + side_text(operator, side@),
    decreases side, 2nat,
{
    if needs_parentheses(operator, side) {
        out.push(OPEN);
        write_expression(out, side);
        out.push(CLOSE);
        assert(out@ =~= old(out)@ + side_text(operator, side@));
    } else {
        write_expression(out, side);
    }
}

/// Appends an operand.
pub fn write_operand(out: &mut Vec<u8>, operand: &Operand)
    ensures
        final(out)@ == old(out)@ + operand_text(operand@),
    decreases operand, 0nat,
{
    match operand {
        Operand::I64(n) => write_integer(out, *n),
        Operand::Group(e) => {
            out.push(OPEN);
            write_expression(out, e);
            out.push(CLOSE);
            assert(out@ =~= old(out)@ + operand_text(operand@));
        },
        Operand::VarSubstitution(name) => write_name(out, name),
        Operand::FnApplication(name, args) => {
            write_name(out, name);
            out.push(OPEN);
            write_arguments(out, args);
            out.push(CLOSE);
            assert(out@ =~= old(out)@ + operand_text(operand@));
        },
        Operand::Match(match_) => {
            out.push(0x6d);
            out.push(0x61);
            out.push(0x74);
            out.push(0x63);
            out.push(0x68);
            out.push(OPEN);
            write_expression(out, &match_.with);
            out.push(SEMICOLON);
            out.push(SPACE);
            write_clauses(out, match_);
            out.push(SEMICOLON);
            out.push(SPACE);
            write_expression(out, &match_.default);
            out.push(CLOSE);
            assert(operand@ == OperandView::Match(
                Box::new(match_.with@),
                clauses_view(match_.clauses@),
                Box::new(match_.default@),
            ));
            assert(out@ =~= old(out)@ + operand_text(operand@));
        },
    }
}

fn write_arguments(out: &mut Vec<u8>, args: &Vec<Expression>)
    ensures
        final(out)@ == old(out)@ + arguments_text(expressions_view(args@), args.len() as nat),
    decreases args, 0nat,
{
    let ghost views = expressions_view(args@);
    let mut i: usize = 0;
    while i < args.len()
        invariant
            i <= args.len(),
            views == expressions_view(args@),
            out@ == old(out)@ + arguments_text(views, i as nat),
        decreases args.len() - i,
    {
        let ghost before = out@;
        if i > 0 {
            out.push(COMMA);
            out.push(SPACE);
        }
        write_expression(out, &args[i]);
        assert(out@ =~= old(out)@ + arguments_text(views, (i + 1) as nat));
        i += 1;
    }
}

fn write_clauses(out: &mut Vec<u8>, match_: &Match)
    ensures
        final(out)@ == old(out)@ + clauses_text(
            Operand::Match(*match_)@,
            match_.clauses.len() as nat,
        ),
    decreases match_, 0nat,
{
    let ghost operand = Operand::Match(*match_)@;
    let ghost views = clauses_view(match_.clauses@);
    assert(operand == OperandView::Match(
        Box::new(match_.with@),
        views,
        Box::new(match_.default@),
    ));
    let mut i: usize = 0;
    while i < match_.clauses.len()
        invariant
            i <= match_.clauses.len(),
            views == clauses_view(match_.clauses@),
            operand == OperandView::Match(Box::new(match_.with@), views, Box::new(match_.default@)),
            out@ == old(out)@ + clauses_text(operand, i as nat),
        decreases match_.clauses.len() - i,
    {
        if i > 0 {
            out.push(COMMA);
            out.push(SPACE);
        }
        match &match_.clauses[i].0 {
            Matcher::Value(value) => write_expression(out, value),
        }
        out.push(SPACE);
        out.push(EQUALS);
        out.push(SPACE);
        write_expression(out, &match_.clauses[i].1);
        proof {
            assert(views[i as int] == (match_.clauses[i as int].0@, match_.clauses[i as int].1@));
            assert(out@ =~= old(out)@ + clauses_text(operand, (i + 1) as nat));
        }
        i += 1;
    }
}

/// Appends names with separators between them.
pub fn write_names(out: &mut Vec<u8>, names: &Vec<Name>)
    ensures
        final(out)@ == old(out)@ + names_text(names_view(names@), names.len() as nat),
{
    let ghost views = names_view(names@);
    let mut i: usize = 0;
    while i < names.len()
        invariant
            i <= names.len(),
            views == names_view(names@),
            out@ == old(out)@ + names_text(views, i as nat),
        decreases names.len() - i,
    {
        if i > 0 {
            out.push(COMMA);
            out.push(SPACE);
        }
        write_name(out, &names[i]);
        assert(out@ =~= old(out)@ + names_text(views, (i + 1) as nat));
        i += 1;
    }
}

/// Appends a statement.
pub fn write_statement(out: &mut Vec<u8>, statement: &Statement)
    ensures
        final(out)@ == old(out)@ + statement_text(statement@),
{
    match statement {
        Statement::VarAssignment(name, expression) => {
            write_name(out, name);
            out.push(SPACE);
            out.push(EQUALS);
            out.push(SPACE);
            write_expression(out, expression);
            out.push(SEMICOLON);
        },
        Statement::FnDefinition(name, params, body) => {
            write_name(out, name);
            out.push(OPEN);
            write_names(out, params);
            out.push(CLOSE);
            out.push(SPACE);
            out.push(EQUALS);
            out.push(SPACE);
            write_expression(out, body);
            out.push(SEMICOLON);
        },
    }
    assert(out@ =~= old(out)@ + statement_text(statement@));
}

/// Appends statements, one to a line.
pub fn write_statements(out: &mut Vec<u8>, statements: &Statements)
    ensures
        final(out)@ == old(out)@ + statements_text(statements@, statements.0.len() as nat),
{
    let ghost views = statements@;
    let mut i: usize = 0;
    while i < statements.0.len()
        invariant
            i <= statements.0.len(),
            views == statements@,
            out@ == old(out)@ + statements_text(views, i as nat),
        decreases statements.0.len() - i,
    {
        if i > 0 {
            out.push(LINE_FEED);
        }
        write_statement(out, &statements.0[i]);
        assert(out@ =~= old(out)@ + statements_text(views, (i + 1) as nat));
        i += 1;
    }
}

fn write_header(out: &mut Vec<u8>, outputs: bool, names: &Vec<Name>)
    ensures
        final(out)@ == old(out)@ + header_text(
            if outputs {
                outputs_word()
            } else {
                inputs_word()
            },
            names_view(names@),
        ),
{
    if outputs {
        out.push(0x6f);
        out.push(0x75);
        out.push(0x74);
    } else {
        out.push(0x69);
        out.push(0x6e);
    }
    out.push(0x70);
    out.push(0x75);
    out.push(0x74);
    out.push(0x73);
    if names.len() > 0 {
        out.push(SPACE);
        write_names(out, names);
    }
    out.push(SEMICOLON);
    assert(out@ =~= old(out)@ + header_text(
        if outputs {
            outputs_word()
        } else {
            inputs_word()
        },
        names_view(names@),
    ));
}

impl Expression {
    /// The source text of the expression.
    pub fn to_bytes(&self) -> (text: Vec<u8>)
        ensures
            text@ == expression_text(self@),
    {
        let mut out: Vec<u8> = Vec::new();
        write_expression(&mut out, self);
        assert(out@ =~= expression_text(self@));
        out
    }
}

impl Operand {
    /// The source text of the operand.
    pub fn to_bytes(&self) -> (text: Vec<u8>)
        ensures
            text@ == operand_text(self@),
    {
        let mut out: Vec<u8> = Vec::new();
        write_operand(&mut out, self);
        assert(out@ =~= operand_text(self@));
        out
    }
}

impl Statement {
    /// The source text of the statement.
    pub fn to_bytes(&self) -> (text: Vec<u8>)
        ensures
            text@ == statement_text(self@),
    {
        let mut out: Vec<u8> = Vec::new();
        write_statement(&mut out, self);
        assert(out@ =~= statement_text(self@));
        out
    }
}

impl Statements {
    /// The source text of the statements.
    pub fn to_bytes(&self) -> (text: Vec<u8>)
        ensures
            text@ == statements_text(self@, self.0.len() as nat),
    {
        let mut out: Vec<u8> = Vec::new();
        write_statements(&mut out, self);
        assert(out@ =~= statements_text(self@, self.0.len() as nat));
        out
    }
}

impl Program {
    /// The source text of the program.
    pub fn to_bytes(&self) -> (text: Vec<u8>)
        ensures
            text@ == program_text(self@),
    {
        let mut out: Vec<u8> = Vec::new();
        write_header(&mut out, false, &self.inputs);
        out.push(LINE_FEED);
        if self.statements.0.len() > 0 {
            write_statements(&mut out, &self.statements);
            out.push(LINE_FEED);
        }
        write_header(&mut out, true, &self.outputs);
        assert(out@ =~= program_text(self@));
        out
    }
}

/// The text of a token.
pub open spec fn token_text(token: TokenView) -> Seq<u8> {
    match token {
        TokenView::Operand(operand) => operand_text(operand),
        TokenView::Operator(operator) => seq![operator_byte(operator)],
    }
}

/// The first `n` tokens with a space between each two.
pub open spec fn tokens_text(tokens: Seq<TokenView>, n: nat) -> Seq<u8>
    decreases n,
{
    if n == 0 || n > tokens.len() {
        seq![]
    } else if n == 1 {
        token_text(tokens[0])
    } else {
        tokens_text(tokens, (n - 1) as nat) + seq![SPACE] + token_text(tokens[n - 1])
    }
}

/// A tree holds at least one token.
pub proof fn lemma_tokens_not_empty(expression: ExpressionView)
    ensures
        expression.tokens().len() > 0,
    decreases expression,
{
    match expression {
        ExpressionView::Operand(_) => {},
        ExpressionView::Operation(_, lhs, rhs) => {
            lemma_tokens_not_empty(*lhs);
        },
    }
}

/// The text of tokens that follow others follows the text of the others
/// behind a space.
pub proof fn lemma_tokens_text_concat(a: Seq<TokenView>, b: Seq<TokenView>, n: nat)
    requires
        a.len() > 0,
        0 < n <= b.len(),
    ensures
        tokens_text(a + b, a.len() + n) == tokens_text(a, a.len()) + seq![SPACE] + tokens_text(b, n),
    decreases n,
{
    let whole = a + b;
    lemma_tokens_text_prefix(a, b, a.len());
    assert(whole[a.len() + n - 1] == b[n - 1]);
    if n == 1 {
        assert(tokens_text(whole, a.len() + 1) == tokens_text(whole, a.len()) + seq![SPACE]
            + token_text(b[0]));
    } else {
        lemma_tokens_text_concat(a, b, (n - 1) as nat);
        assert(tokens_text(whole, a.len() + n) =~= tokens_text(a, a.len()) + seq![SPACE]
            + tokens_text(b, n));
    }
}

/// The text of the first tokens depends on no token behind them.
pub proof fn lemma_tokens_text_prefix(a: Seq<TokenView>, b: Seq<TokenView>, n: nat)
    requires
        n <= a.len(),
    ensures
        tokens_text(a + b, n) == tokens_text(a, n),
    decreases n,
{
    if n > 0 {
        lemma_tokens_text_prefix(a, b, (n - 1) as nat);
        assert((a + b)[n - 1] == a[n - 1]);
        if n > 1 {
            assert((a + b)[0] == a[0]);
        }
    }
}

/// A tree that is grouped by precedence is written without parentheses of
/// its own: its text is that of its tokens, from left to right, with a
/// space between each two.
pub proof fn lemma_shaped_text_is_flat(expression: ExpressionView)
    requires
        expression.shaped(),
    ensures
        expression_text(expression) == tokens_text(
            expression.tokens(),
            expression.tokens().len(),
        ),
    decreases expression,
{
    match expression {
        ExpressionView::Operand(_) => {},
        ExpressionView::Operation(operator, lhs, rhs) => {
            lemma_shaped_text_is_flat(*lhs);
            lemma_shaped_text_is_flat(*rhs);
            lemma_tokens_not_empty(*lhs);
            lemma_tokens_not_empty(*rhs);
            let left = lhs.tokens();
            let right = rhs.tokens();
            let middle = seq![TokenView::Operator(operator)];
            lemma_tokens_text_concat(left, middle, 1);
            lemma_tokens_text_concat(left + middle, right, right.len());
            assert(tokens_text(middle, 1) == seq![operator_byte(operator)]);
            assert(expression_text(expression) =~= tokens_text(
                expression.tokens(),
                expression.tokens().len(),
            ));
        },
    }
}

/// Whether every byte is an ASCII character.
pub open spec fn ascii(bytes: Seq<u8>) -> bool {
    forall|i: int| 0 <= i < bytes.len() ==> (#[trigger] bytes[i]) < 0x80
}

/// ASCII characters are valid UTF-8.
pub proof fn lemma_ascii_valid(bytes: Seq<u8>)
    requires
        ascii(bytes),
    ensures
        valid_utf8(bytes),
{
    let chars = Seq::new(bytes.len(), |i: int| bytes[i] as char);
    assert(is_ascii_chars(chars)) by {
        assert forall|i: int| 0 <= i < chars.len() implies '\0' <= #[trigger] chars[i]
            <= '\u{7f}' by {
            assert(bytes[i] < 0x80);
        }
    }
    is_ascii_chars_encode_utf8(chars);
    assert(encode_utf8(chars) =~= bytes) by {
        assert forall|i: int| 0 <= i < bytes.len() implies encode_utf8(chars)[i] == bytes[i] by {
            assert(chars[i] as u8 == encode_utf8(chars)[i]);
            assert(bytes[i] < 0x80);
        }
    }
    encode_utf8_valid_utf8(chars);
}

/// Valid UTF-8 between two runs of ASCII characters is valid UTF-8.
pub proof fn lemma_wrapped_valid(open: Seq<u8>, inner: Seq<u8>, close: Seq<u8>)
    requires
        ascii(open),
        valid_utf8(inner),
        ascii(close),
    ensures
        valid_utf8(open + inner + close),
{
    lemma_ascii_valid(open);
    lemma_ascii_valid(close);
    valid_utf8_concat(open, inner);
    valid_utf8_concat(open + inner, close);
}

/// The digits of a number are ASCII characters.
pub proof fn lemma_digits_ascii(n: nat)
    ensures
        ascii(digits(n)),
    decreases n,
{
    if n >= 10 {
        lemma_digits_ascii(n / 10);
    }
}

/// The text of an integer is valid UTF-8.
pub proof fn lemma_integer_text_valid(n: i64)
    ensures
        valid_utf8(integer_text(n)),
{
    if n < 0 {
        lemma_digits_ascii((-n) as nat);
    } else {
        lemma_digits_ascii(n as nat);
    }
    lemma_ascii_valid(integer_text(n));
}

/// The text of names is valid UTF-8.
pub proof fn lemma_names_text_valid(names: Seq<Seq<char>>, n: nat)
    ensures
        valid_utf8(names_text(names, n)),
    decreases n,
{
    if n == 0 || n > names.len() {
    } else if n == 1 {
        encode_utf8_valid_utf8(names[0]);
    } else {
        lemma_names_text_valid(names, (n - 1) as nat);
        encode_utf8_valid_utf8(names[n - 1]);
        lemma_ascii_valid(separator());
        valid_utf8_concat(names_text(names, (n - 1) as nat), separator());
        valid_utf8_concat(
            names_text(names, (n - 1) as nat) + separator(),
            encode_utf8(names[n - 1]),
        );
    }
}

/// The text of an expression is valid UTF-8.
pub proof fn lemma_expression_text_valid(expression: ExpressionView)
    ensures
        valid_utf8(expression_text(expression)),
    decreases expression, 0nat,
{
    match expression {
        ExpressionView::Operand(operand) => {
            lemma_operand_text_valid(operand);
        },
        ExpressionView::Operation(operator, lhs, rhs) => {
            lemma_side_text_valid(operator, *lhs);
            lemma_side_text_valid(operator, *rhs);
            let middle = seq![SPACE, operator_byte(operator), SPACE];
            lemma_ascii_valid(middle);
            valid_utf8_concat(side_text(operator, *lhs), middle);
            valid_utf8_concat(side_text(operator, *lhs) + middle, side_text(operator, *rhs));
        },
    }
}

/// The text of a side of an operation is valid UTF-8.
pub proof fn lemma_side_text_valid(operator: Operator, side: ExpressionView)
    ensures
        valid_utf8(side_text(operator, side)),
    decreases side, 1nat,
{
    lemma_expression_text_valid(side);
    if parenthesised(operator, side) {
        lemma_wrapped_valid(seq![OPEN], expression_text(side), seq![CLOSE]);
    }
}

/// The text of an operand is valid UTF-8.
pub proof fn lemma_operand_text_valid(operand: OperandView)
    ensures
        valid_utf8(operand_text(operand)),
    decreases operand, clause_count(operand) + 1,
{
    match operand {
        OperandView::I64(n) => {
            lemma_integer_text_valid(n);
        },
        OperandView::Group(e) => {
            lemma_expression_text_valid(*e);
            lemma_wrapped_valid(seq![OPEN], expression_text(*e), seq![CLOSE]);
        },
        OperandView::VarSubstitution(name) => {
            encode_utf8_valid_utf8(name);
        },
        OperandView::FnApplication(name, args) => {
            encode_utf8_valid_utf8(name);
            lemma_arguments_text_valid(args, args.len());
            let list = arguments_text(args, args.len());
            lemma_wrapped_valid(seq![OPEN], list, seq![CLOSE]);
            valid_utf8_concat(encode_utf8(name), seq![OPEN] + list + seq![CLOSE]);
            assert(operand_text(operand) =~= encode_utf8(name) + (seq![OPEN] + list + seq![CLOSE]));
        },
        OperandView::Match(with, clauses, default) => {
            lemma_expression_text_valid(*with);
            lemma_expression_text_valid(*default);
            lemma_clauses_text_valid(operand, clauses.len());
            let head = match_word() + seq![OPEN];
            let gap = seq![SEMICOLON, SPACE];
            let list = clauses_text(operand, clauses.len());
            lemma_ascii_valid(head);
            lemma_ascii_valid(gap);
            lemma_ascii_valid(seq![CLOSE]);
            valid_utf8_concat(head, expression_text(*with));
            valid_utf8_concat(head + expression_text(*with), gap);
            valid_utf8_concat(head + expression_text(*with) + gap, list);
            valid_utf8_concat(head + expression_text(*with) + gap + list, gap);
            valid_utf8_concat(
                head + expression_text(*with) + gap + list + gap,
                expression_text(*default),
            );
            valid_utf8_concat(
                head + expression_text(*with) + gap + list + gap + expression_text(*default),
                seq![CLOSE],
            );
            assert(operand_text(operand) =~= head + expression_text(*with) + gap + list + gap
                + expression_text(*default) + seq![CLOSE]);
        },
    }
}

/// The text of arguments is valid UTF-8.
pub proof fn lemma_arguments_text_valid(args: Seq<ExpressionView>, n: nat)
    ensures
        valid_utf8(arguments_text(args, n)),
    decreases args, n,
{
    if n == 0 || n > args.len() {
    } else if n == 1 {
        lemma_expression_text_valid(args[0]);
    } else {
        lemma_arguments_text_valid(args, (n - 1) as nat);
        lemma_expression_text_valid(args[n - 1]);
        lemma_ascii_valid(separator());
        valid_utf8_concat(arguments_text(args, (n - 1) as nat), separator());
        valid_utf8_concat(
            arguments_text(args, (n - 1) as nat) + separator(),
            expression_text(args[n - 1]),
        );
    }
}

/// The text of the clauses of a match is valid UTF-8.
pub proof fn lemma_clauses_text_valid(operand: OperandView, n: nat)
    ensures
        valid_utf8(clauses_text(operand, n)),
    decreases operand, n,
{
    match operand {
        OperandView::Match(_, clauses, _) => {
            if n == 0 || n > clauses.len() {
            } else {
                let value = expression_text(clauses[n - 1].0);
                let result = expression_text(clauses[n - 1].1);
                let middle = seq![SPACE, EQUALS, SPACE];
                lemma_expression_text_valid(clauses[n - 1].0);
                lemma_expression_text_valid(clauses[n - 1].1);
                lemma_ascii_valid(middle);
                valid_utf8_concat(value, middle);
                valid_utf8_concat(value + middle, result);
                if n > 1 {
                    lemma_clauses_text_valid(operand, (n - 1) as nat);
                    lemma_ascii_valid(separator());
                    valid_utf8_concat(clauses_text(operand, (n - 1) as nat), separator());
                    valid_utf8_concat(
                        clauses_text(operand, (n - 1) as nat) + separator(),
                        clause_text(value, result),
                    );
                }
            }
        },
        _ => {},
    }
}

/// The text of a statement is valid UTF-8.
pub proof fn lemma_statement_text_valid(statement: StatementView)
    ensures
        valid_utf8(statement_text(statement)),
{
    match statement {
        StatementView::VarAssignment(name, expression) => {
            let middle = seq![SPACE, EQUALS, SPACE];
            encode_utf8_valid_utf8(name);
            lemma_expression_text_valid(expression);
            lemma_ascii_valid(middle);
            lemma_ascii_valid(seq![SEMICOLON]);
            valid_utf8_concat(encode_utf8(name), middle);
            valid_utf8_concat(encode_utf8(name) + middle, expression_text(expression));
            valid_utf8_concat(
                encode_utf8(name) + middle + expression_text(expression),
                seq![SEMICOLON],
            );
        },
        StatementView::FnDefinition(name, params, body) => {
            let middle = seq![CLOSE, SPACE, EQUALS, SPACE];
            let list = names_text(params, params.len());
            encode_utf8_valid_utf8(name);
            lemma_names_text_valid(params, params.len());
            lemma_expression_text_valid(body);
            lemma_ascii_valid(seq![OPEN]);
            lemma_ascii_valid(middle);
            lemma_ascii_valid(seq![SEMICOLON]);
            valid_utf8_concat(encode_utf8(name), seq![OPEN]);
            valid_utf8_concat(encode_utf8(name) + seq![OPEN], list);
            valid_utf8_concat(encode_utf8(name) + seq![OPEN] + list, middle);
            valid_utf8_concat(encode_utf8(name) + seq![OPEN] + list + middle, expression_text(body));
            valid_utf8_concat(
                encode_utf8(name) + seq![OPEN] + list + middle + expression_text(body),
                seq![SEMICOLON],
            );
        },
    }
}

/// The text of statements is valid UTF-8.
pub proof fn lemma_statements_text_valid(statements: Seq<StatementView>, n: nat)
    ensures
        valid_utf8(statements_text(statements, n)),
    decreases n,
{
    if n == 0 || n > statements.len() {
    } else if n == 1 {
        lemma_statement_text_valid(statements[0]);
    } else {
        lemma_statements_text_valid(statements, (n - 1) as nat);
        lemma_statement_text_valid(statements[n - 1]);
        lemma_ascii_valid(seq![LINE_FEED]);
        valid_utf8_concat(statements_text(statements, (n - 1) as nat), seq![LINE_FEED]);
        valid_utf8_concat(
            statements_text(statements, (n - 1) as nat) + seq![LINE_FEED],
            statement_text(statements[n - 1]),
        );
    }
}

/// The text of a header is valid UTF-8.
pub proof fn lemma_header_text_valid(word: Seq<u8>, names: Seq<Seq<char>>)
    requires
        ascii(word),
    ensures
        valid_utf8(header_text(word, names)),
{
    lemma_ascii_valid(word);
    lemma_ascii_valid(seq![SEMICOLON]);
    lemma_ascii_valid(seq![SPACE]);
    lemma_names_text_valid(names, names.len());
    valid_utf8_concat(word, seq![SEMICOLON]);
    valid_utf8_concat(word, seq![SPACE]);
    valid_utf8_concat(word + seq![SPACE], names_text(names, names.len()));
    valid_utf8_concat(word + seq![SPACE] + names_text(names, names.len()), seq![SEMICOLON]);
}

/// The text of a program is valid UTF-8.
pub proof fn lemma_program_text_valid(program: ProgramView)
    ensures
        valid_utf8(program_text(program)),
{
    let head = header_text(inputs_word(), program.inputs);
    let foot = header_text(outputs_word(), program.outputs);
    let lines = if program.statements.len() == 0 {
        Seq::<u8>::empty()
    } else {
        statements_text(program.statements, program.statements.len()) + seq![LINE_FEED]
    };
    lemma_header_text_valid(inputs_word(), program.inputs);
    lemma_header_text_valid(outputs_word(), program.outputs);
    lemma_statements_text_valid(program.statements, program.statements.len());
    lemma_ascii_valid(seq![LINE_FEED]);
    lemma_ascii_valid(Seq::<u8>::empty());
    valid_utf8_concat(
        statements_text(program.statements, program.statements.len()),
        seq![LINE_FEED],
    );
    valid_utf8_concat(head, seq![LINE_FEED]);
    valid_utf8_concat(head + seq![LINE_FEED], lines);
    valid_utf8_concat(head + seq![LINE_FEED] + lines, foot);
}

/// The string that valid UTF-8 encodes.
fn into_text(bytes: Vec<u8>) -> (text: String)
    requires
        valid_utf8(bytes@),
    ensures
        text@ == decode_utf8(bytes@),
{
    match to_str(bytes.as_slice()) {
        Ok(text) => text,
        Err(_) => String::new(),
    }
}

impl Expression {
    /// The source text of the expression, as a string.
    pub fn text(&self) -> (text: String)
        ensures
            text@ == decode_utf8(expression_text(self@)),
    {
        proof {
            lemma_expression_text_valid(self@);
        }
        into_text(self.to_bytes())
    }
}

impl Operand {
    /// The source text of the operand, as a string.
    pub fn text(&self) -> (text: String)
        ensures
            text@ == decode_utf8(operand_text(self@)),
    {
        proof {
            lemma_operand_text_valid(self@);
        }
        into_text(self.to_bytes())
    }
}

impl Statement {
    /// The source text of the statement, as a string.
    pub fn text(&self) -> (text: String)
        ensures
            text@ == decode_utf8(statement_text(self@)),
    {
        proof {
            lemma_statement_text_valid(self@);
        }
        into_text(self.to_bytes())
    }
}

impl Statements {
    /// The source text of the statements, as a string.
    pub fn text(&self) -> (text: String)
        ensures
            text@ == decode_utf8(statements_text(self@, self.0.len() as nat)),
    {
        proof {
            lemma_statements_text_valid(self@, self.0.len() as nat);
        }
        into_text(self.to_bytes())
    }
}

impl Program {
    /// The source text of the program, as a string.
    pub fn text(&self) -> (text: String)
        ensures
            text@ == decode_utf8(program_text(self@)),
    {
        proof {
            lemma_program_text_valid(self@);
        }
        into_text(self.to_bytes())
    }
}

} // verus!
