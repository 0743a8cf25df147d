use langs::ast::{Expression, Match, Matcher, Name, Operand, Operator, Program, Statement, Statements};
use langs::parser::expression::expression;
use langs::parser::parse;
use langs::printer::{write_digits, write_integer, write_names};

fn as_name(s: &str) -> Name {
    Name(s.to_string())
}

fn var(s: &str) -> Expression {
    Expression::Operand(Operand::VarSubstitution(as_name(s)))
}

fn lit(n: i64) -> Expression {
    Expression::Operand(Operand::I64(n))
}

fn op(operator: Operator, lhs: Expression, rhs: Expression) -> Expression {
    Expression::Operation(operator, Box::new(lhs), Box::new(rhs))
}

fn text(e: &Expression) -> String {
    assert_eq!(e.text().as_bytes(), e.to_bytes().as_slice());
    e.text()
}

fn reads_back(source: &str) {
    let (tree, end) = expression(source.as_bytes(), 0).unwrap();
    assert_eq!(end, source.len());
    let printed = tree.to_bytes();
    assert_eq!(expression(&printed, 0), Some((tree, printed.len())));
}

#[test]
fn integers_are_written_in_base_ten() {
    let mut out = vec![b'x'];
    write_integer(&mut out, 0);
    write_integer(&mut out, -1);
    write_integer(&mut out, 10);
    write_integer(&mut out, i64::MAX);
    write_integer(&mut out, i64::MIN);
    assert_eq!(
        String::from_utf8(out).unwrap(),
        "x0-1109223372036854775807-9223372036854775808"
    );
    let mut digits = vec![];
    write_digits(&mut digits, u64::MAX);
    assert_eq!(digits, b"18446744073709551615".to_vec());
}

#[test]
fn operations_are_written_with_spaces() {
    assert_eq!(text(&op(Operator::Add, lit(1), var("a"))), "1 + a");
    assert_eq!(text(&op(Operator::Subtract, lit(1), lit(-2))), "1 - -2");
    assert_eq!(text(&op(Operator::Multiply, var("a"), var("b"))), "a * b");
    assert_eq!(text(&op(Operator::Divide, var("a"), var("b"))), "a / b");
}

#[test]
fn a_looser_operation_below_a_tighter_one_gets_parentheses() {
    let sum = op(Operator::Add, lit(1), lit(2));
    assert_eq!(text(&op(Operator::Multiply, sum.clone(), lit(3))), "(1 + 2) * 3");
    assert_eq!(text(&op(Operator::Multiply, lit(3), sum.clone())), "3 * (1 + 2)");
    assert_eq!(text(&op(Operator::Subtract, lit(3), sum.clone())), "3 - 1 + 2");
    assert_eq!(text(&op(Operator::Add, sum.clone(), sum)), "1 + 2 + 1 + 2");
    let quotient = op(Operator::Divide, lit(8), lit(2));
    assert_eq!(text(&op(Operator::Multiply, quotient.clone(), lit(3))), "(8 / 2) * 3");
    assert_eq!(text(&op(Operator::Divide, lit(8), op(Operator::Multiply, lit(2), lit(3)))), "8 / 2 * 3");
}

#[test]
fn operands_are_written() {
    let call = Operand::FnApplication(
        as_name("f"),
        vec![lit(1), op(Operator::Add, var("a"), lit(2)), var("b")],
    );
    assert_eq!(String::from_utf8(call.to_bytes()).unwrap(), "f(1, a + 2, b)");
    let empty = Operand::FnApplication(as_name("g"), vec![]);
    assert_eq!(empty.text(), "g()");
    assert_eq!(
        Operand::VarSubstitution(as_name("名前")).text(),
        "名前"
    );
    let group = Operand::Group(Box::new(op(Operator::Add, lit(1), lit(2))));
    assert_eq!(String::from_utf8(group.to_bytes()).unwrap(), "(1 + 2)");
    let dispatch = Operand::Match(Match {
        with: Box::new(var("n")),
        clauses: vec![(Matcher::Value(lit(1)), lit(10)), (Matcher::Value(lit(2)), var("x"))],
        default: Box::new(lit(0)),
    });
    assert_eq!(
        String::from_utf8(dispatch.to_bytes()).unwrap(),
        "match(n; 1 = 10, 2 = x; 0)"
    );
    let bare = Operand::Match(Match {
        with: Box::new(var("n")),
        clauses: vec![],
        default: Box::new(lit(0)),
    });
    assert_eq!(String::from_utf8(bare.to_bytes()).unwrap(), "match(n; ; 0)");
    let mut names = vec![];
    write_names(&mut names, &vec![as_name("a"), as_name("é"), as_name("c")]);
    assert_eq!(String::from_utf8(names).unwrap(), "a, é, c");
}

#[test]
fn programs_are_written_a_statement_to_a_line() {
    let program = Program::new(
        vec![as_name("a"), as_name("b")],
        Statements(vec![
            Statement::FnDefinition(
                as_name("f"),
                vec![as_name("x"), as_name("y")],
                op(Operator::Add, op(Operator::Multiply, var("x"), var("y")), lit(1)),
            ),
            Statement::VarAssignment(
                as_name("c"),
                Expression::Operand(Operand::FnApplication(as_name("f"), vec![var("a"), var("b")])),
            ),
        ]),
        vec![as_name("c")],
    );
    assert_eq!(
        program.text(),
        "inputs a, b;\nf(x, y) = x * y + 1;\nc = f(a, b);\noutputs c;"
    );
    assert_eq!(program.text().as_bytes(), program.to_bytes().as_slice());
    assert_eq!(program.statements.text(), "f(x, y) = x * y + 1;\nc = f(a, b);");
    assert_eq!(program.statements.0[1].text(), "c = f(a, b);");
    assert_eq!(parse(&program.to_bytes()), Ok(program));
    let empty = Program::new(vec![], Statements(vec![]), vec![]);
    assert_eq!(String::from_utf8(empty.to_bytes()).unwrap(), "inputs;\noutputs;");
    assert_eq!(parse(&empty.to_bytes()), Ok(empty));
    let statement = Statement::FnDefinition(as_name("f"), vec![], lit(-11));
    assert_eq!(String::from_utf8(statement.to_bytes()).unwrap(), "f() = -11;");
    let two = Statements(vec![
        Statement::VarAssignment(as_name("a"), lit(1)),
        Statement::VarAssignment(as_name("b"), lit(2)),
    ]);
    assert_eq!(String::from_utf8(two.to_bytes()).unwrap(), "a = 1;\nb = 2;");
}

#[test]
fn what_was_read_is_read_back_from_its_text() {
    reads_back("1");
    reads_back("-9223372036854775808");
    reads_back("a + b * c - d / e");
    reads_back("a - b - c - d");
    reads_back("8 / 2 * 3 / 4 * 5");
    reads_back("(1 + 2) * (3 - (4 / 5))");
    reads_back("f(5) + bar * fn(1, 2, -3, f(i, foo / 3, 9) - -3)");
    reads_back("f ( ) +\tg(\n1 ,2 )");
    reads_back("match(x; 1 = 10, 2 = match(y; ; 0); f(z))");
    reads_back("a+b - 99999999999999999999");
    reads_back("über + 名前");
}
