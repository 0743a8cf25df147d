use langs::ast::{Expression, Name, Operand, Operator};
use langs::interpreter::{execute, Error, Function, Interpreter};
use langs::parser::expression::expression;
use langs::parser::parse;
use langs::parser::statement::statement;

fn as_name(s: &str) -> Name {
    Name(s.to_string())
}

fn run(i: &mut Interpreter, source: &[u8]) -> Result<(), Error> {
    i.statement(&statement(source, 0).unwrap().0)
}

fn value(i: &Interpreter, name: &str) -> i64 {
    Interpreter::variable(&as_name(name), &i.variables).unwrap()
}

#[test]
fn mod_unprovided_input_errors() {
    let mut i = Interpreter::new();
    assert_eq!(
        i.run(&parse(b"inputs a; b = 1; outputs b;").unwrap(), &vec![]),
        Err(Error::IncorrectInputCount {
            inputs_count: 1,
            provided_count: 0,
        })
    );
}

#[test]
fn mod_undefined_output_errors() {
    let mut i = Interpreter::new();
    assert_eq!(
        i.run(&parse(b"inputs; b = 1; outputs z;").unwrap(), &vec![]),
        Err(Error::UnknownVariable(as_name("z")))
    );
}

#[test]
fn mod_var_can_be_redefined() {
    let mut i = Interpreter::new();
    run(&mut i, b"n = 1;").unwrap();
    run(&mut i, b"n = 2;").unwrap();
    assert_eq!(value(&i, "n"), 2);
}

#[test]
fn mod_var_can_be_redefined_using_itself() {
    let mut i = Interpreter::new();
    run(&mut i, b"a = 2;").unwrap();
    run(&mut i, b"b = 3;").unwrap();
    run(&mut i, b"a = a + b;").unwrap();
    assert_eq!(value(&i, "a"), 5);
}

#[test]
fn mod_var_errors_if_undefined() {
    let mut i = Interpreter::new();
    assert_eq!(
        run(&mut i, b"a = b;"),
        Err(Error::UnknownVariable(as_name("b")))
    );
}

#[test]
fn mod_fn_can_be_redefined() {
    let mut i = Interpreter::new();
    run(&mut i, b"f(a) = a;").unwrap();
    run(&mut i, b"f(a) = 3 * a;").unwrap();
    let latest = i.function(&as_name("f"), i.functions.len()).unwrap();
    assert_eq!(
        i.functions[latest],
        Function {
            name: as_name("f"),
            params: vec![as_name("a")],
            body: expression(b"3 * a;", 0).unwrap().0,
        }
    );
    let seen = i.function(&as_name("f"), latest).unwrap();
    assert_eq!(
        i.functions[seen],
        Function {
            name: as_name("f"),
            params: vec![as_name("a")],
            body: Expression::Operand(Operand::VarSubstitution(as_name("a"))),
        }
    );
    assert_eq!(i.function(&as_name("f"), seen), None);
}

#[test]
fn mod_fn_has_a_single_signature() {
    let mut i = Interpreter::new();
    run(&mut i, b"f(a) = a;").unwrap();
    run(&mut i, b"f(a, b) = a + b;").unwrap();
    let latest = i.function(&as_name("f"), i.functions.len()).unwrap();
    assert_eq!(
        i.functions[latest],
        Function {
            name: as_name("f"),
            params: vec![as_name("a"), as_name("b")],
            body: expression(b"a + b;", 0).unwrap().0,
        }
    );
    let seen = i.function(&as_name("f"), latest).unwrap();
    assert_eq!(
        i.functions[seen],
        Function {
            name: as_name("f"),
            params: vec![as_name("a")],
            body: Expression::Operand(Operand::VarSubstitution(as_name("a"))),
        }
    );
    assert_eq!(i.function(&as_name("f"), seen), None);
}

#[test]
fn mod_fn_cannot_use_external_variables() {
    let mut i = Interpreter::new();
    run(&mut i, b"n = 1;").unwrap();
    run(&mut i, b"f(a) = a * n;").unwrap();
    assert_eq!(
        run(&mut i, b"j = f(2);"),
        Err(Error::UnknownVariable(as_name("n")))
    );
}

#[test]
fn fn_params_can_reuse_external_variable_names() {
    let mut i = Interpreter::new();
    run(&mut i, b"i = 1;").unwrap();
    run(&mut i, b"f(i) = i;").unwrap();
    run(&mut i, b"j = f(2);").unwrap();
    assert_eq!(value(&i, "j"), 2);
}

#[test]
fn fn_params_can_reuse_external_names() {
    let mut i = Interpreter::new();
    run(&mut i, b"i = 1;").unwrap();
    run(&mut i, b"f(i) = i;").unwrap();
    run(&mut i, b"j = f(2);").unwrap();
    assert_eq!(value(&i, "j"), 2);
}

#[test]
fn mod_fn_args_can_use_external_variables() {
    let mut i = Interpreter::new();
    run(&mut i, b"a = 1;").unwrap();
    run(&mut i, b"f(b) = b;").unwrap();
    run(&mut i, b"j = f(a);").unwrap();
    assert_eq!(value(&i, "j"), 1);
}

#[test]
fn mod_fn_args_use_current_external_variables() {
    let mut i = Interpreter::new();
    run(&mut i, b"x = 1;").unwrap();
    run(&mut i, b"f(a) = a;").unwrap();
    run(&mut i, b"y = f(x);").unwrap();
    run(&mut i, b"x = 2;").unwrap();
    assert_eq!(value(&i, "y"), 1);
}

#[test]
fn fn_evaluates_functions_from_when_it_was_defined_1() {
    let mut i = Interpreter::new();
    run(&mut i, b"f(a, b) = a * b;").unwrap();
    println!("{:?}", i.functions);
    run(&mut i, b"g(x) = f(x, x);").unwrap();
    println!("{:?}", i.functions);
    run(&mut i, b"f(a, b) = a + b;").unwrap();
    println!("{:?}", i.functions);
    run(&mut i, b"n = g(3);").unwrap();
    println!("{:?}", i.functions);
    assert_eq!(value(&i, "n"), 9);
}

#[test]
fn fn_evaluates_functions_from_when_it_was_defined_2() {
    let mut i = Interpreter::new();
    run(&mut i, b"f(a, b) = a + b;").unwrap();
    println!("{:?}", i.functions);
    run(&mut i, b"g(x) = f(x, x + 1);").unwrap();
    println!("{:?}", i.functions);
    run(&mut i, b"f(a) = a;").unwrap();
    println!("{:?}", i.functions);
    run(&mut i, b"n = g(1);").unwrap();
    println!("{:?}", i.functions);
    assert_eq!(value(&i, "n"), 3);
}

#[test]
fn fn_can_call_previous_definition_of_same_name() {
    let mut i = Interpreter::new();
    run(&mut i, b"f(a) = a * 5;").unwrap();
    run(&mut i, b"f(a, b) = f(a) + b;").unwrap();
    run(&mut i, b"i = f(2, 1);").unwrap();
    assert_eq!(value(&i, "i"), 11);
}

#[test]
fn mod_fn_errors_if_undefined() {
    let mut i = Interpreter::new();
    assert_eq!(
        run(&mut i, b"a = f(1);"),
        Err(Error::UnknownFunction(as_name("f")))
    );
}

#[test]
fn mod_fn_too_few_args_errors() {
    let mut i = Interpreter::new();
    run(&mut i, b"a(x) = x;").unwrap();
    assert_eq!(
        run(&mut i, b"i = a();"),
        Err(Error::IncorrectArgumentCount {
            name: as_name("a"),
            params_count: 1,
            provided_count: 0,
        })
    );
}

#[test]
fn mod_fn_too_many_args_errors() {
    let mut i = Interpreter::new();
    run(&mut i, b"b(x, y) = x - y;").unwrap();
    assert_eq!(
        run(&mut i, b"i = b(1, 2, 3);"),
        Err(Error::IncorrectArgumentCount {
            name: as_name("b"),
            params_count: 2,
            provided_count: 3,
        })
    );
}

#[test]
fn mod_var_and_fn_names_can_overlap() {
    let mut i = Interpreter::new();
    run(&mut i, b"a = 7;").unwrap();
    run(&mut i, b"a(x, y) = x / y;").unwrap();
    run(&mut i, b"b = a;").unwrap();
    run(&mut i, b"c = a(3, 2);").unwrap();
    run(&mut i, b"d = a * a(a, 3);").unwrap();
    assert_eq!(value(&i, "a"), 7);
    assert_eq!(value(&i, "b"), 7);
    assert_eq!(value(&i, "c"), 3 / 2);
    assert_eq!(value(&i, "d"), 7 * (7 / 3));
}

#[test]
fn mod_vars_use_current_fn_definitions() {
    let mut i = Interpreter::new();
    run(&mut i, b"f(a) = a;").unwrap();
    run(&mut i, b"x = f(1);").unwrap();
    run(&mut i, b"f(a) = a + 1;").unwrap();
    run(&mut i, b"y = f(1);").unwrap();
    run(&mut i, b"f(a, b) = a + b;").unwrap();
    run(&mut i, b"z = f(1, 2);").unwrap();
    assert_eq!(value(&i, "x"), 1);
    assert_eq!(value(&i, "y"), 2);
    assert_eq!(value(&i, "z"), 3);
}

#[test]
fn operations_nest_by_precedence() {
    let program = parse(b"inputs; a = 1 + 89 / 9; outputs a;").unwrap();
    assert_eq!(execute(&program, &vec![]), Ok(vec![10]));
    let _ = Operator::Add;
}

#[test]
fn the_documented_scenarios_hold() {
    assert_eq!(
        langs::interpret(b"inputs; a = 1 + 89 / 9; outputs a;", &vec![]),
        Ok(vec![10])
    );
    assert_eq!(
        langs::interpret(
            b"inputs; f(a,b) = a * b; g(x) = f(x, x); f(a,b) = a + b; n = g(3); outputs n;",
            &vec![]
        ),
        Ok(vec![9])
    );
    assert_eq!(
        langs::interpret(b"inputs a; f(a) = a; j = f(2); outputs j;", &vec![5]),
        Ok(vec![2])
    );
    assert_eq!(
        langs::interpret(b"inputs; a = 9223372036854775807 + 1; outputs a;", &vec![]),
        Ok(vec![9223372036854775807])
    );
    assert_eq!(
        langs::interpret(b"inputs; c = 5 / 0; outputs c;", &vec![]),
        Ok(vec![9223372036854775807])
    );
    assert_eq!(
        langs::interpret(b"inputs; c = -5 / 0; outputs c;", &vec![]),
        Ok(vec![-9223372036854775808])
    );
    assert_eq!(
        langs::interpret(b"inputs; c = 0 / 0; outputs c;", &vec![]),
        Ok(vec![9223372036854775807])
    );
}

#[test]
fn arithmetic_saturates_on_the_right_side() {
    let run = |source: &[u8], inputs: Vec<i64>| langs::interpret(source, &inputs).unwrap();
    let source = b"inputs a, b; s = a + b; d = a - b; p = a * b; q = a / b; outputs s, d, p, q;";
    assert_eq!(
        run(source, vec![i64::MIN, -1]),
        vec![i64::MIN, i64::MIN + 1, i64::MAX, i64::MAX]
    );
    assert_eq!(
        run(source, vec![i64::MAX, i64::MAX]),
        vec![i64::MAX, 0, i64::MAX, 1]
    );
    assert_eq!(
        run(source, vec![i64::MIN, i64::MAX]),
        vec![-1, i64::MIN, i64::MIN, -1]
    );
    assert_eq!(run(source, vec![-7, 2]), vec![-5, -9, -14, -3]);
    assert_eq!(run(source, vec![7, -2]), vec![5, 9, -14, -3]);
}

#[test]
fn errors_tell_parsing_from_running() {
    assert!(matches!(
        langs::interpret(b"inputs; a = ; outputs a;", &vec![]),
        Err(langs::Error::ParseError(_))
    ));
    assert_eq!(
        langs::interpret(b"inputs a; outputs a;", &vec![]),
        Err(langs::Error::InterpreterError(Error::IncorrectInputCount {
            inputs_count: 1,
            provided_count: 0
        }))
    );
    assert_eq!(
        langs::compile(b"inputs; outputs a;").map(|_| ()),
        Err(langs::Error::CompilerError(langs::compiler::Error::UnassignedOutput(
            as_name("a")
        )))
    );
}

#[test]
fn functions_keep_their_parameters_in_order() {
    let function = Function::new(
        as_name("f"),
        vec![as_name("x"), as_name("y")],
        expression(b"x - y", 0).unwrap().0,
    );
    assert_eq!(function.params(), &vec![as_name("x"), as_name("y")]);
    assert_eq!(function.name, as_name("f"));
}

#[test]
fn a_failed_run_keeps_what_ran_before() {
    let mut i = Interpreter::new();
    let program = parse(b"inputs a; b = a + 1; c = d; e = 1; outputs b;").unwrap();
    assert_eq!(i.run(&program, &vec![1]), Err(Error::UnknownVariable(as_name("d"))));
    assert_eq!(value(&i, "a"), 1);
    assert_eq!(value(&i, "b"), 2);
    assert_eq!(
        Interpreter::variable(&as_name("e"), &i.variables),
        Err(Error::UnknownVariable(as_name("e")))
    );
}

#[test]
fn a_match_takes_the_first_clause_that_fits() {
    let source = b"inputs n; r = match(n; 1 = 10, 2 = 20, 1 = 30; 0 - 1); outputs r;";
    assert_eq!(langs::interpret(source, &vec![1]), Ok(vec![10]));
    assert_eq!(langs::interpret(source, &vec![2]), Ok(vec![20]));
    assert_eq!(langs::interpret(source, &vec![3]), Ok(vec![-1]));
    // Only what is reached is evaluated.
    let lazy = b"inputs n; r = match(n; 1 = 10; missing); outputs r;";
    assert_eq!(langs::interpret(lazy, &vec![1]), Ok(vec![10]));
    assert_eq!(
        langs::interpret(lazy, &vec![2]),
        Err(langs::Error::InterpreterError(Error::UnknownVariable(as_name("missing"))))
    );
}

#[test]
fn var_can_be_redefined() {
    let mut i = Interpreter::new();
    run(&mut i, b"n = 1;").unwrap();
    run(&mut i, b"n = 2;").unwrap();
    assert_eq!(value(&i, "n"), 2);
}

#[test]
fn var_can_be_redefined_using_itself() {
    let mut i = Interpreter::new();
    run(&mut i, b"a = 2;").unwrap();
    run(&mut i, b"b = 3;").unwrap();
    run(&mut i, b"a = a + b;").unwrap();
    assert_eq!(value(&i, "a"), 5);
}

#[test]
fn fn_can_be_redefined() {
    let mut i = Interpreter::new();
    run(&mut i, b"f(a) = a;").unwrap();
    run(&mut i, b"f(a) = 3 * a;").unwrap();
    let latest = &i.functions[i.function(&as_name("f"), i.functions.len()).unwrap()];
    assert_eq!(
        (latest.params.clone(), latest.body.clone()),
        (vec![as_name("a")], expression(b"3 * a;", 0).unwrap().0,)
    );
}

#[test]
fn fn_has_a_single_signature() {
    let mut i = Interpreter::new();
    run(&mut i, b"f(a) = a;").unwrap();
    run(&mut i, b"f(a, b) = a + b;").unwrap();
    let latest = &i.functions[i.function(&as_name("f"), i.functions.len()).unwrap()];
    assert_eq!(
        (latest.params.clone(), latest.body.clone()),
        (
            vec![as_name("a"), as_name("b")],
            expression(b"a + b;", 0).unwrap().0,
        )
    );
}

#[test]
fn fn_args_can_use_external_variables() {
    let mut i = Interpreter::new();
    run(&mut i, b"a = 1;").unwrap();
    run(&mut i, b"f(b) = b;").unwrap();
    run(&mut i, b"j = f(a);").unwrap();
    assert_eq!(value(&i, "j"), 1);
}

#[test]
fn fn_args_use_current_external_variables() {
    let mut i = Interpreter::new();
    run(&mut i, b"x = 1;").unwrap();
    run(&mut i, b"f(a) = a;").unwrap();
    run(&mut i, b"y = f(x);").unwrap();
    run(&mut i, b"x = 2;").unwrap();
    assert_eq!(value(&i, "y"), 1);
}

#[test]
fn var_and_fn_names_can_overlap() {
    let mut i = Interpreter::new();
    run(&mut i, b"a = 7;").unwrap();
    run(&mut i, b"a(x, y) = x / y;").unwrap();
    run(&mut i, b"b = a;").unwrap();
    run(&mut i, b"c = a(3, 2);").unwrap();
    run(&mut i, b"d = a * a(a, 3);").unwrap();
    assert_eq!(value(&i, "a"), 7);
    assert_eq!(value(&i, "b"), 7);
    assert_eq!(value(&i, "c"), 3 / 2);
    assert_eq!(value(&i, "d"), 7 * (7 / 3));
}

#[test]
fn vars_use_current_fn_definitions() {
    let mut i = Interpreter::new();
    run(&mut i, b"f(a) = a;").unwrap();
    run(&mut i, b"x = f(1);").unwrap();
    run(&mut i, b"f(a) = a + 1;").unwrap();
    run(&mut i, b"y = f(1);").unwrap();
    run(&mut i, b"f(a, b) = a + b;").unwrap();
    run(&mut i, b"z = f(1, 2);").unwrap();
    assert_eq!(value(&i, "x"), 1);
    assert_eq!(value(&i, "y"), 2);
    assert_eq!(value(&i, "z"), 3);
}
