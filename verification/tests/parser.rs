use langs::ast::{Expression, Match, Matcher, Name, Operand, Operator, Program, Statement, Statements, Token};
use langs::parser::expression::{expression, operand, operator};
use langs::parser::lexical::{integer, name, to_str};
use langs::parser::statement::{names, statement};
use langs::parser::{parse, parse_one, Error};

fn as_name(s: &str) -> Name {
    Name(s.to_string())
}

fn var(s: &str) -> Expression {
    Expression::Operand(Operand::VarSubstitution(as_name(s)))
}

fn lit(n: i64) -> Expression {
    Expression::Operand(Operand::I64(n))
}

fn flat(source: &[u8]) -> (Vec<Token>, Vec<u8>) {
    let (e, at) = expression(source, 0).unwrap();
    (e.tokens(), source[at..].to_vec())
}

#[test]
fn mod_assignment() {
    parse_one(b"a = 1;").unwrap();
}

#[test]
fn mod_assignment_with_operation() {
    parse_one(b"b = 1 + 2;").unwrap();
}

#[test]
fn mod_definition() {
    parse_one(b"f(a) = a * 3;").unwrap();
}

#[test]
fn statement_assignment() {
    statement(b"a = 1;", 0).unwrap();
}

#[test]
fn statement_assignment_with_operation() {
    statement(b"b = 1 + 2;", 0).unwrap();
}

#[test]
fn statement_definition() {
    assert_eq!(
        statement(b"f(a) = a * 3;", 0),
        Some((
            Statement::FnDefinition(
                as_name("f"),
                vec![as_name("a")],
                Expression::Operation(Operator::Multiply, Box::new(var("a")), Box::new(lit(3)))
            ),
            13
        ))
    );
}

#[test]
fn zero_parameters() {
    assert_eq!(
        statement(b"f() = -11;", 0),
        Some((Statement::FnDefinition(as_name("f"), vec![], lit(-11)), 10))
    );
}

#[test]
fn expression_test() {
    assert_eq!(flat(b"1"), (vec![Token::Operand(Operand::I64(1))], b"".to_vec()));
    assert_eq!(flat(b"-123"), (vec![Token::Operand(Operand::I64(-123))], b"".to_vec()));
    assert_eq!(
        flat(b"35 + -12"),
        (
            vec![
                Token::Operand(Operand::I64(35)),
                Token::Operator(Operator::Add),
                Token::Operand(Operand::I64(-12)),
            ],
            b"".to_vec()
        )
    );
    assert_eq!(
        flat(b"35 - i;"),
        (
            vec![
                Token::Operand(Operand::I64(35)),
                Token::Operator(Operator::Subtract),
                Token::Operand(Operand::VarSubstitution(as_name("i"))),
            ],
            b";".to_vec()
        )
    );
    assert_eq!(
        flat(b"foo * bar;"),
        (
            vec![
                Token::Operand(Operand::VarSubstitution(as_name("foo"))),
                Token::Operator(Operator::Multiply),
                Token::Operand(Operand::VarSubstitution(as_name("bar"))),
            ],
            b";".to_vec()
        )
    );
    let (tokens, rest) = flat(b"f(5) + bar * fn(1, 2, -3, f(i, foo / 3, 9) - -3);");
    assert_eq!(rest, b";".to_vec());
    assert_eq!(
        tokens,
        vec![
            Token::Operand(Operand::FnApplication(as_name("f"), vec![lit(5)])),
            Token::Operator(Operator::Add),
            Token::Operand(Operand::VarSubstitution(as_name("bar"))),
            Token::Operator(Operator::Multiply),
            Token::Operand(Operand::FnApplication(
                as_name("fn"),
                vec![
                    lit(1),
                    lit(2),
                    lit(-3),
                    Expression::Operation(
                        Operator::Subtract,
                        Box::new(Expression::Operand(Operand::FnApplication(
                            as_name("f"),
                            vec![
                                var("i"),
                                Expression::Operation(
                                    Operator::Divide,
                                    Box::new(var("foo")),
                                    Box::new(lit(3))
                                ),
                                lit(9),
                            ]
                        ))),
                        Box::new(lit(-3))
                    ),
                ]
            )),
        ]
    );
}

#[test]
fn expression_operator_test() {
    assert_eq!(operator(b"+", 0), Some(Operator::Add));
    assert_eq!(operator(b"-", 0), Some(Operator::Subtract));
    assert_eq!(operator(b"*", 0), Some(Operator::Multiply));
    assert_eq!(operator(b"/", 0), Some(Operator::Divide));
    assert_eq!(operator(b"^", 0), None);
    assert_eq!(operator(b"+ ", 0), Some(Operator::Add));
}

#[test]
fn expression_i64_test() {
    assert_eq!(integer(b"1", 0), Some((1, 1)));
    assert_eq!(integer(b"794", 0), Some((794, 3)));
    assert_eq!(integer(b"-1", 0), Some((-1, 2)));
    assert_eq!(integer(b"-390", 0), Some((-390, 4)));
    assert_eq!(integer(b"a", 0), None);
}

#[test]
fn operand_test() {
    assert_eq!(operand(b"1", 0), Some((Operand::I64(1), 1)));
    assert_eq!(operand(b"794", 0), Some((Operand::I64(794), 3)));
    assert_eq!(operand(b"-1", 0), Some((Operand::I64(-1), 2)));
    assert_eq!(operand(b"-390", 0), Some((Operand::I64(-390), 4)));

    assert_eq!(
        operand(b"f)", 0),
        Some((Operand::VarSubstitution(as_name("f")), 1))
    );
    assert_eq!(
        operand(b"foo * 5", 0),
        Some((Operand::VarSubstitution(as_name("foo")), 3))
    );

    assert_eq!(
        operand(b"fn(k * 5)", 0),
        Some((
            Operand::FnApplication(
                as_name("fn"),
                vec![Expression::Operation(
                    Operator::Multiply,
                    Box::new(var("k")),
                    Box::new(lit(5))
                )]
            ),
            9
        ))
    );
    assert_eq!(
        operand(b"j(3 + foo, l + 3 - 2)", 0),
        Some((
            Operand::FnApplication(
                as_name("j"),
                vec![
                    Expression::Operation(Operator::Add, Box::new(lit(3)), Box::new(var("foo"))),
                    Expression::Operation(
                        Operator::Subtract,
                        Box::new(Expression::Operation(
                            Operator::Add,
                            Box::new(var("l")),
                            Box::new(lit(3))
                        )),
                        Box::new(lit(2))
                    ),
                ]
            ),
            21
        ))
    );
}

#[test]
fn expression_function_application_test() {
    assert_eq!(operand(b"f()", 0), Some((Operand::FnApplication(as_name("f"), vec![]), 3)));
    assert_eq!(
        operand(b"f(5)", 0),
        Some((Operand::FnApplication(as_name("f"), vec![lit(5)]), 4))
    );
    assert_eq!(
        operand(b"f(5, 6)", 0),
        Some((Operand::FnApplication(as_name("f"), vec![lit(5), lit(6)]), 7))
    );
    assert_eq!(
        operand(b"f(a)", 0),
        Some((Operand::FnApplication(as_name("f"), vec![var("a")]), 4))
    );
    assert_eq!(
        operand(b"fn(i, j)", 0),
        Some((Operand::FnApplication(as_name("fn"), vec![var("i"), var("j")]), 8))
    );
    assert_eq!(operand(b"f(", 0), None);
    assert_eq!(operand(b"f(1,)", 0), None);
    assert_eq!(operand(b"f (1 , 2 )", 0).unwrap().1, 10);
}

#[test]
fn names_are_runs_without_whitespace_or_punctuation() {
    assert_eq!(name(b"abc", 0), Some((as_name("abc"), 3)));
    assert_eq!(name(b"abc=", 0), Some((as_name("abc"), 3)));
    assert_eq!(name(b"a+b c", 0), Some((as_name("a+b"), 3)));
    assert_eq!(name(b" abc", 0), None);
    assert_eq!(name(b"", 0), None);
    assert_eq!(name(b"(", 0), None);
    assert_eq!(name(b"inputs", 0), None);
    assert_eq!(name(b"outputs ", 0), None);
    assert_eq!(name(b"match", 0), None);
    assert_eq!(name(b"inputsa", 0), Some((as_name("inputsa"), 7)));
    assert_eq!(name("é;".as_bytes(), 0), Some((as_name("é"), 2)));
    assert_eq!(name(&[0xff, 0x3b], 0), None);
    assert_eq!(names(b"a, b ,c;", 0), (vec![as_name("a"), as_name("b"), as_name("c")], 7));
    assert_eq!(names(b";", 0), (vec![], 0));
    assert_eq!(names(b"a, ;", 0), (vec![as_name("a")], 1));
}

#[test]
fn to_str_decodes_utf8() {
    assert_eq!(to_str(b"abc").unwrap(), "abc".to_string());
    assert_eq!(to_str("héllo".as_bytes()).unwrap(), "héllo".to_string());
    assert!(to_str(&[0xc3]).is_err());
}

#[test]
fn integers_stay_within_i64() {
    assert_eq!(integer(b"9223372036854775807", 0), Some((i64::MAX, 19)));
    assert_eq!(integer(b"9223372036854775808", 0), None);
    assert_eq!(integer(b"-9223372036854775808", 0), Some((i64::MIN, 20)));
    assert_eq!(integer(b"-9223372036854775809", 0), None);
    assert_eq!(integer(b"99999999999999999999999999", 0), None);
    assert_eq!(integer(b"0007", 0), Some((7, 4)));
    assert_eq!(integer(b"-", 0), None);
    assert_eq!(integer(b"12ab", 0), Some((12, 2)));
    assert_eq!(integer(b"x 12", 2), Some((12, 4)));
}

#[test]
fn groups_are_operands() {
    assert_eq!(
        expression(b"(1 + 2) * 3", 0),
        Some((
            Expression::Operation(
                Operator::Multiply,
                Box::new(Expression::Operand(Operand::Group(Box::new(Expression::Operation(
                    Operator::Add,
                    Box::new(lit(1)),
                    Box::new(lit(2))
                ))))),
                Box::new(lit(3))
            ),
            11
        ))
    );
    assert_eq!(expression(b"(1 + 2", 0), None);
    assert_eq!(expression(b"( 1 )", 0), Some((Expression::Operand(Operand::Group(Box::new(lit(1)))), 5)));
}

#[test]
fn a_dangling_operator_is_left_unread() {
    assert_eq!(expression(b"1 + ;", 0), Some((lit(1), 1)));
    assert_eq!(expression(b"1 +", 0), Some((lit(1), 1)));
    assert_eq!(expression(b"1-2", 0).unwrap().1, 3);
}

#[test]
fn match_is_read() {
    let source = b"match(x; 1 = 10, 2 = 20; 0)";
    assert_eq!(
        operand(source, 0),
        Some((
            Operand::Match(Match {
                with: Box::new(var("x")),
                clauses: vec![
                    (Matcher::Value(lit(1)), lit(10)),
                    (Matcher::Value(lit(2)), lit(20)),
                ],
                default: Box::new(lit(0)),
            }),
            source.len()
        ))
    );
    assert_eq!(
        operand(b"match (x;;0)", 0),
        Some((
            Operand::Match(Match {
                with: Box::new(var("x")),
                clauses: vec![],
                default: Box::new(lit(0)),
            }),
            12
        ))
    );
    assert_eq!(operand(b"match(x; 1 = 10)", 0), None);
    assert_eq!(operand(b"match", 0), None);
    assert_eq!(
        operand(b"matches(1)", 0),
        Some((Operand::FnApplication(as_name("matches"), vec![lit(1)]), 10))
    );
}

#[test]
fn programs_are_read() {
    let program = parse(b"inputs a, b;\nf(x, y) = x * y + 1;\nc = f(a, b);\noutputs c;\n").unwrap();
    assert_eq!(
        program,
        Program::new(
            vec![as_name("a"), as_name("b")],
            Statements(vec![
                Statement::FnDefinition(
                    as_name("f"),
                    vec![as_name("x"), as_name("y")],
                    Expression::Operation(
                        Operator::Add,
                        Box::new(Expression::Operation(
                            Operator::Multiply,
                            Box::new(var("x")),
                            Box::new(var("y"))
                        )),
                        Box::new(lit(1))
                    )
                ),
                Statement::VarAssignment(
                    as_name("c"),
                    Expression::Operand(Operand::FnApplication(
                        as_name("f"),
                        vec![var("a"), var("b")]
                    ))
                ),
            ]),
            vec![as_name("c")]
        )
    );
    assert_eq!(
        parse(b"inputs; outputs;"),
        Ok(Program::new(vec![], Statements(vec![]), vec![]))
    );
    assert_eq!(
        parse(b"  inputs\ta ;outputs a ;  "),
        Ok(Program::new(vec![as_name("a")], Statements(vec![]), vec![as_name("a")]))
    );
}

#[test]
fn refusals_name_what_was_not_read() {
    assert_eq!(
        parse(b"inputs; outputs; extra"),
        Err(Error::RemainingInput(
            b"extra".to_vec(),
            Program::new(vec![], Statements(vec![]), vec![])
        ))
    );
    assert_eq!(parse(b"a = 1;"), Err(Error::Malformed(b"a = 1;".to_vec())));
    assert_eq!(
        parse(b"inputs a; b = ; outputs b;"),
        Err(Error::Malformed(b"b = ; outputs b;".to_vec()))
    );
    assert_eq!(parse(b"inputs a b; outputs;"), Err(Error::Malformed(b"b; outputs;".to_vec())));
    assert_eq!(parse(b"inputs a; outputs a"), Err(Error::Malformed(b"".to_vec())));
    assert_eq!(parse(b"inputsa; outputs;"), Err(Error::Malformed(b"inputsa; outputs;".to_vec())));
    assert_eq!(
        parse(b"inputs a, b, a; outputs;"),
        Err(Error::DuplicateInput(as_name("a")))
    );
    assert_eq!(
        parse(b"inputs a, b, b, a; outputs;"),
        Err(Error::DuplicateInput(as_name("b")))
    );
    assert_eq!(
        parse_one(b"a = 1; b"),
        Err(Error::RemainingInput(
            b"b".to_vec(),
            Program::new(
                vec![],
                Statements(vec![Statement::VarAssignment(as_name("a"), lit(1))]),
                vec![]
            )
        ))
    );
    assert_eq!(parse_one(b"a 1;"), Err(Error::Malformed(b"a 1;".to_vec())));
}
