use langs::arith::{sat_add, sat_div, sat_mul, sat_sub};
use langs::ast::Name;
use langs::compiler::backend::{apply_binary, evaluate, run, Outcome};
use langs::compiler::math::{
    define_saturating_add, define_saturating_div, define_saturating_mul, define_saturating_sub,
};
use langs::bindings::Bindings;
use langs::compiler::expression::{synthesise_expression, ExpressionSynthesiser, Signature};
use langs::compiler::param::{classify_parameters, Param};
use langs::compiler::var::Var;
use langs::compiler::target::{Arithmetic, Binary, Relation, Routine, TranslationUnit, Value};
use langs::compiler::{compile, Error};
use langs::parser;

fn as_name(s: &str) -> Name {
    Name(s.to_string())
}

fn parse(s: &[u8]) -> langs::ast::Program {
    parser::parse(s).unwrap()
}

fn unit(s: &[u8]) -> TranslationUnit {
    compile(&parse(s)).unwrap()
}

fn both(source: &[u8], inputs: Vec<i64>) -> Vec<i64> {
    let program = parse(source);
    let interpreted = langs::interpreter::execute(&program, &inputs).unwrap();
    let compiled = run(&compile(&program).unwrap(), &inputs);
    assert_eq!(compiled, Outcome::Outputs(interpreted.clone()));
    interpreted
}

const EDGES: [i64; 11] = [
    i64::MIN,
    i64::MIN + 1,
    -4611686018427387905,
    -3,
    -1,
    0,
    1,
    2,
    3037000500,
    i64::MAX - 1,
    i64::MAX,
];

fn call(routine: &Routine, a: i64, b: i64) -> Option<i64> {
    let routines = vec![];
    let mut locals = vec![];
    evaluate(&routines, 0, &vec![a, b], &vec![], &mut locals, &routine.body)
}

#[test]
fn mod_can_synthesise_with_no_inputs_or_outputs() {
    compile(&parse(b"inputs; outputs;")).unwrap();
}

#[test]
fn mod_can_synthesise_inputs_into_outputs() {
    compile(&parse(b"inputs a; outputs a;")).unwrap();
}

#[test]
fn inputs_pass_through_to_outputs() {
    assert_eq!(both(b"inputs a; outputs a;", vec![7]), vec![7]);
    assert_eq!(both(b"inputs a, b; outputs b, a, b;", vec![1, 2]), vec![2, 1, 2]);
    assert_eq!(both(b"inputs; outputs;", vec![]), Vec::<i64>::new());
}

#[test]
fn the_saturating_routines_saturate() {
    let add = define_saturating_add();
    let sub = define_saturating_sub();
    let mul = define_saturating_mul();
    let div = define_saturating_div();
    assert_eq!(add.name, as_name("saturating_add"));
    assert_eq!(div.params, vec![as_name("numerator"), as_name("denominator")]);
    for &a in EDGES.iter() {
        for &b in EDGES.iter() {
            assert_eq!(call(&add, a, b), Some(a.saturating_add(b)));
            assert_eq!(call(&sub, a, b), Some(a.saturating_sub(b)));
            assert_eq!(call(&mul, a, b), Some(a.saturating_mul(b)));
            let quotient = if b == 0 {
                if a < 0 {
                    i64::MIN
                } else {
                    i64::MAX
                }
            } else if a == i64::MIN && b == -1 {
                i64::MAX
            } else {
                a / b
            };
            assert_eq!(call(&div, a, b), Some(quotient));
            assert_eq!(sat_add(a, b), a.saturating_add(b));
            assert_eq!(sat_sub(a, b), a.saturating_sub(b));
            assert_eq!(sat_mul(a, b), a.saturating_mul(b));
            assert_eq!(sat_div(a, b), quotient);
        }
    }
}

#[test]
fn the_machine_leaves_some_quotients_undefined() {
    assert_eq!(apply_binary(Binary::Quotient, 7, 0), None);
    assert_eq!(apply_binary(Binary::Quotient, i64::MIN, -1), None);
    assert_eq!(apply_binary(Binary::Quotient, -7, 2), Some(-3));
    assert_eq!(apply_binary(Binary::Quotient, 7, -2), Some(-3));
    assert_eq!(apply_binary(Binary::Wrapping(Arithmetic::Add), i64::MAX, 1), Some(i64::MIN));
    assert_eq!(apply_binary(Binary::Wrapping(Arithmetic::Subtract), i64::MIN, 1), Some(i64::MAX));
    assert_eq!(apply_binary(Binary::Wrapping(Arithmetic::Multiply), i64::MAX, 2), Some(-2));
    assert_eq!(apply_binary(Binary::Overflows(Arithmetic::Multiply), i64::MAX, 2), Some(1));
    assert_eq!(apply_binary(Binary::Overflows(Arithmetic::Add), 1, 2), Some(0));
    assert_eq!(apply_binary(Binary::Compare(Relation::AtLeast), 2, 2), Some(1));
    assert_eq!(apply_binary(Binary::Compare(Relation::Less), 2, 2), Some(0));
    assert_eq!(apply_binary(Binary::Xor, 5, 0), Some(1));
    assert_eq!(apply_binary(Binary::Xor, 5, 7), Some(0));
    assert_eq!(apply_binary(Binary::And, 5, 0), Some(0));
    assert_eq!(apply_binary(Binary::Or, 0, -1), Some(1));
}

#[test]
fn units_compute_what_the_interpreter_computes() {
    assert_eq!(both(b"inputs; a = 1 + 89 / 9; outputs a;", vec![]), vec![10]);
    assert_eq!(
        both(
            b"inputs; f(a,b) = a * b; g(x) = f(x, x); f(a,b) = a + b; n = g(3); outputs n;",
            vec![]
        ),
        vec![9]
    );
    assert_eq!(both(b"inputs a; f(a) = a; j = f(2); outputs j;", vec![5]), vec![2]);
    assert_eq!(
        both(b"inputs; a = 9223372036854775807 + 1; outputs a;", vec![]),
        vec![9223372036854775807]
    );
    assert_eq!(both(b"inputs; c = 5 / 0; outputs c;", vec![]), vec![i64::MAX]);
    assert_eq!(both(b"inputs; c = -5 / 0; outputs c;", vec![]), vec![i64::MIN]);
    assert_eq!(
        both(
            b"inputs a, b;\nf(x, y) = x * y + 1;\nc = f(a, b);\noutputs c;",
            vec![6, 7]
        ),
        vec![43]
    );
    assert_eq!(
        both(b"inputs x; x = x + 1; y = x * x; x = y - x; outputs x, y;", vec![4]),
        vec![20, 25]
    );
    assert_eq!(
        both(
            b"inputs n; r = match(n; 1 = 10, 2 = 20, 1 = 30; match(n - 3; 0 = 7; 0 - 1)); outputs r;",
            vec![1]
        ),
        vec![10]
    );
    for (n, r) in [(2, 20), (3, 7), (4, -1)] {
        assert_eq!(
            both(
                b"inputs n; r = match(n; 1 = 10, 2 = 20; match(n - 3; 0 = 7; 0 - 1)); outputs r;",
                vec![n]
            ),
            vec![r]
        );
    }
}

#[test]
fn a_later_input_of_the_same_name_wins() {
    let program = langs::ast::Program::new(
        vec![as_name("a"), as_name("a")],
        parse(b"inputs; b = a; outputs;").statements,
        vec![as_name("b"), as_name("a")],
    );
    let inputs = vec![1, 2];
    assert_eq!(langs::interpreter::execute(&program, &inputs), Ok(vec![2, 2]));
    assert_eq!(run(&compile(&program).unwrap(), &inputs), Outcome::Outputs(vec![2, 2]));
}

#[test]
fn a_wrong_number_of_arguments_is_reported() {
    let unit = unit(b"inputs a, b; outputs a;");
    assert_eq!(run(&unit, &vec![1]), Outcome::Usage { expected: 2, provided: 1 });
    assert_eq!(run(&unit, &vec![1, 2, 3]), Outcome::Usage { expected: 2, provided: 3 });
    assert_eq!(run(&unit, &vec![1, 2]), Outcome::Outputs(vec![1]));
}

#[test]
fn what_would_fail_at_run_time_is_refused() {
    assert_eq!(
        compile(&parse(b"inputs; b = 1; outputs z;")),
        Err(Error::UnassignedOutput(as_name("z")))
    );
    assert_eq!(
        compile(&parse(b"inputs; a = b; b = 1; outputs a;")),
        Err(Error::UnknownVariable(as_name("b")))
    );
    assert_eq!(
        compile(&parse(b"inputs; n = 1; f(a) = a * n; outputs n;")),
        Err(Error::UnknownVariable(as_name("n")))
    );
    assert_eq!(
        compile(&parse(b"inputs; a = f(1); f(x) = x; outputs a;")),
        Err(Error::UnknownFunction(as_name("f")))
    );
    assert_eq!(
        compile(&parse(b"inputs; f(x) = f(x); outputs;")),
        Err(Error::UnknownFunction(as_name("f")))
    );
    assert_eq!(
        compile(&parse(b"inputs; b(x, y) = x - y; i = b(1, 2, 3); outputs i;")),
        Err(Error::IncorrectArgumentCount {
            name: as_name("b"),
            params_count: 2,
            provided_count: 3,
        })
    );
}

#[test]
fn a_unit_holds_its_routines_in_order() {
    let unit = unit(b"inputs a; f(x) = x + 1; f(x) = f(x) * 2; b = f(a); outputs b;");
    assert_eq!(unit.routines.len(), 6);
    assert_eq!(unit.routines[0].name, as_name("saturating_add"));
    assert_eq!(unit.routines[1].name, as_name("saturating_sub"));
    assert_eq!(unit.routines[2].name, as_name("saturating_mul"));
    assert_eq!(unit.routines[3].name, as_name("saturating_div"));
    assert_eq!(unit.routines[4].name, as_name("f"));
    assert_eq!(
        unit.routines[4].body,
        Value::Call(0, vec![Value::Parameter(0), Value::Constant(1)])
    );
    assert_eq!(
        unit.routines[5].body,
        Value::Call(
            2,
            vec![Value::Call(4, vec![Value::Parameter(0)]), Value::Constant(2)]
        )
    );
    assert_eq!(unit.entry.cells, vec![as_name("a"), as_name("b")]);
    assert_eq!(unit.entry.inputs, vec![0]);
    assert_eq!(unit.entry.outputs, vec![1]);
    assert_eq!(unit.entry.stores.len(), 1);
    assert_eq!(unit.entry.stores[0].cell, 1);
    assert_eq!(unit.entry.stores[0].value, Value::Call(5, vec![Value::Load(0)]));
    assert_eq!(run(&unit, &vec![4]), Outcome::Outputs(vec![10]));
}

#[test]
fn a_broken_unit_is_undefined() {
    let mut unit = unit(b"inputs a; b = a; outputs b;");
    unit.entry.outputs = vec![9];
    assert_eq!(run(&unit, &vec![1]), Outcome::Undefined);
    let mut other = self::unit(b"inputs a; b = a; outputs b;");
    other.entry.stores[0].value = Value::Call(7, vec![]);
    assert_eq!(run(&other, &vec![1]), Outcome::Undefined);
    let mut third = self::unit(b"inputs a; b = a; outputs b;");
    third.entry.stores[0].value = Value::Bound;
    assert_eq!(run(&third, &vec![1]), Outcome::Undefined);
}

#[test]
fn variables_are_read_from_where_they_are_kept() {
    assert_eq!(Var::Register(2).synthesise_substitution(), Value::Parameter(2));
    assert_eq!(Var::Stack(3).synthesise_substitution(), Value::Load(3));
    let mut places = Bindings::new();
    places.insert(as_name("a"), 0);
    places.insert(as_name("b"), 1);
    places.insert(as_name("a"), 2);
    let signatures = vec![
        Signature { name: as_name("f"), arity: 1, routine: 4 },
        Signature { name: as_name("g"), arity: 0, routine: 5 },
        Signature { name: as_name("f"), arity: 2, routine: 6 },
    ];
    let all = ExpressionSynthesiser { signatures: &signatures, visible: 3, places: &places, cells: false };
    assert_eq!(all.variable(&as_name("a")), Some(Var::Register(2)));
    assert_eq!(all.variable(&as_name("c")), None);
    let source = langs::parser::expression::expression(b"f(a, b) + g()", 0).unwrap().0;
    assert_eq!(
        all.synthesise(&source),
        Ok(Value::Call(
            0,
            vec![
                Value::Call(6, vec![Value::Parameter(2), Value::Parameter(1)]),
                Value::Call(5, vec![]),
            ]
        ))
    );
    let fewer = ExpressionSynthesiser { signatures: &signatures, visible: 2, places: &places, cells: true };
    assert_eq!(fewer.variable(&as_name("b")), Some(Var::Stack(1)));
    assert_eq!(
        fewer.synthesise(&source),
        Err(Error::IncorrectArgumentCount {
            name: as_name("f"),
            params_count: 1,
            provided_count: 2,
        })
    );
    assert_eq!(
        synthesise_expression(&source, &places, true, &signatures, 0),
        Err(Error::UnknownFunction(as_name("f")))
    );
}

#[test]
fn a_match_is_lowered_to_a_chain_of_choices() {
    let unit = unit(b"inputs n; r = match(n; 1 = 10, 2 = 20; 0); outputs r;");
    let compare = |value: i64| {
        Value::Binary(
            Binary::Compare(Relation::Equal),
            Box::new(Value::Bound),
            Box::new(Value::Constant(value)),
        )
    };
    assert_eq!(
        unit.entry.stores[0].value,
        Value::Let(
            Box::new(Value::Load(0)),
            Box::new(Value::Select(
                Box::new(compare(1)),
                Box::new(Value::Constant(10)),
                Box::new(Value::Select(
                    Box::new(compare(2)),
                    Box::new(Value::Constant(20)),
                    Box::new(Value::Constant(0)),
                )),
            )),
        )
    );
}

#[test]
fn parameters_are_classified() {
    let inputs = vec![as_name("a"), as_name("b"), as_name("a")];
    let outputs = vec![as_name("c"), as_name("b"), as_name("c"), as_name("b")];
    let assigned = vec![as_name("c"), as_name("d")];
    let params = classify_parameters(&inputs, &outputs, &assigned).unwrap();
    assert_eq!(
        params,
        vec![
            Param::Input(as_name("a")),
            Param::InputAndOutput(as_name("b")),
            Param::Output(as_name("c")),
        ]
    );
    assert_eq!(params[0].name(), &as_name("a"));
    assert!(params[0].is_input() && !params[0].is_output());
    assert!(params[1].is_input() && params[1].is_output());
    assert!(!params[2].is_input() && params[2].is_output());
    assert!(params[0].pre_initialised() && !params[0].outputted());
    assert!(params[1].pre_initialised() && params[1].outputted());
    assert!(!params[2].pre_initialised() && params[2].outputted());
    assert_eq!(
        classify_parameters(&inputs, &vec![as_name("b"), as_name("z"), as_name("y")], &assigned),
        Err(Error::UnassignedOutput(as_name("z")))
    );
}
