use std::collections::{HashMap, HashSet};

use langs::ast::{Expression, Name, Operand, Operator, Program, Statement, Statements, Token};
use langs::compiler::backend::{run, Outcome};
use langs::compiler::compile;
use langs::interpreter::execute;
use langs::parser::parse;
use langs::shunting_yard::ShuntingYard;
use quickcheck::{Arbitrary, Gen, QuickCheck, StdGen};
use rand::thread_rng;

#[derive(Clone, Debug)]
struct AnyProgram(Program);

#[derive(Clone, Debug)]
struct AnyExpression(Expression);

impl Arbitrary for AnyProgram {
    fn arbitrary<G: Gen>(g: &mut G) -> AnyProgram {
        AnyProgram(arbitrary_program(g, &mut HashSet::new(), &mut HashMap::new()))
    }
}

impl Arbitrary for AnyExpression {
    fn arbitrary<G: Gen>(g: &mut G) -> AnyExpression {
        AnyExpression(arbitrary_expression(g, 0, &HashSet::new(), &HashMap::new()))
    }
}

fn arbitrary_name<G: Gen>(g: &mut G, level: usize) -> Name {
    let size = g.size().saturating_sub(level).max(1);
    let len = 0..g.gen_range(1, size + 1);
    let mut name: String = len
        .map(|i| {
            let chars = match i {
                0 => "abcdefghijklmnopqrstuvwxyz",
                _ => "abcdefghijklmnopqrstuvwxyz_",
            };
            *g.choose(chars.as_bytes()).unwrap() as char
        })
        .collect();
    if name == "inputs" || name == "outputs" || name == "match" {
        name.push('_');
    }
    Name(name)
}

fn arbitrary_program<G: Gen>(
    g: &mut G,
    mut vars: &mut HashSet<Name>,
    fns: &mut HashMap<Name, usize>,
) -> Program {
    let size = g.size();
    let input_len = 0..g.gen_range(0, size + 1);
    let mut inputs: Vec<Name> = Vec::new();
    for _ in input_len {
        let name = arbitrary_name(g, 1);
        if !inputs.contains(&name) {
            inputs.push(name);
        }
    }

    vars.extend(inputs.iter().cloned());
    let statements = arbitrary_statements(g, &mut vars, fns);

    let output_len = g.gen_range(0, size + 1);
    let mut outputs = vars.clone().into_iter().collect::<Vec<_>>();
    let output_slice = outputs.as_mut_slice();
    g.shuffle(output_slice);
    let outputs = output_slice
        .into_iter()
        .take(output_len)
        .map(|o| o.clone())
        .collect();

    Program::new(inputs, statements, outputs)
}

fn arbitrary_statements<G: Gen>(
    g: &mut G,
    vars: &mut HashSet<Name>,
    fns: &mut HashMap<Name, usize>,
) -> Statements {
    let size = g.size();
    let statements_len = 0..g.gen_range(0, size + 1);
    statements_len
        .fold(
            (Statements(Vec::new()), vars, fns),
            |(mut statements, mut vars, mut fns), _| {
                statements
                    .0
                    .push(arbitrary_statement(g, 1, &mut vars, &mut fns));
                (statements, vars, fns)
            },
        )
        .0
}

fn arbitrary_statement<G: Gen>(
    g: &mut G,
    level: usize,
    vars: &mut HashSet<Name>,
    fns: &mut HashMap<Name, usize>,
) -> Statement {
    let size = g.size().saturating_sub(level).max(1);
    match g.gen_range(0, 2) {
        0 => {
            let var_name = arbitrary_name(g, 0);
            let statement = Statement::VarAssignment(
                var_name.clone(),
                arbitrary_expression(g, level + 1, vars, fns),
            );
            vars.insert(var_name);
            statement
        }
        1 => {
            let fn_name = arbitrary_name(g, 0);
            let params: HashSet<_> = (0..g.gen_range(0, size + 1))
                .map(|_| arbitrary_name(g, 0))
                .collect();
            let params_count = params.len();
            // Removing any previous function by this name prevents the expression from
            // using the previously defined function
            fns.remove(&fn_name);
            let expr = arbitrary_expression(g, level + 1, &params.clone(), fns);
            let statement =
                Statement::FnDefinition(fn_name.clone(), params.into_iter().collect(), expr);
            fns.insert(fn_name, params_count);
            statement
        }
        _ => unreachable!(),
    }
}

fn arbitrary_operator<G: Gen>(g: &mut G) -> Operator {
    match g.gen_range(0, 4) {
        0 => Operator::Subtract,
        1 => Operator::Add,
        2 => Operator::Divide,
        3 => Operator::Multiply,
        _ => unreachable!(),
    }
}

fn arbitrary_expression<G: Gen>(
    g: &mut G,
    level: usize,
    vars: &HashSet<Name>,
    fns: &HashMap<Name, usize>,
) -> Expression {
    let size = g.size().saturating_sub(level);
    // Terminate expressions of sufficient depth.
    if size <= 1 {
        return Expression::Operand(arbitrary_operand(g, level + 1, vars, fns));
    }
    match g.gen_range(0, 2) {
        0 => Expression::Operand(arbitrary_operand(g, level + 1, vars, fns)),
        1 => {
            let operator = arbitrary_operator(g);
            let mut exp0 = arbitrary_expression(g, level + 1, vars, fns);
            let mut exp1 = arbitrary_expression(g, level + 1, vars, fns);
            if let Expression::Operation(inner_operator, _, _) = exp0.clone() {
                if inner_operator < operator {
                    exp0 = Expression::Operand(Operand::Group(Box::new(exp0)));
                }
            }
            if let Expression::Operation(inner_operator, _, _) = exp1.clone() {
                if inner_operator < operator {
                    exp1 = Expression::Operand(Operand::Group(Box::new(exp1)));
                }
            }
            Expression::Operation(operator, Box::new(exp0), Box::new(exp1))
        }
        _ => unreachable!(),
    }
}

fn arbitrary_operand<G: Gen>(
    g: &mut G,
    level: usize,
    vars: &HashSet<Name>,
    fns: &HashMap<Name, usize>,
) -> Operand {
    let size = g.size().saturating_sub(level);
    // Terminate expressions of sufficient depth.
    if size <= 1 {
        return Operand::I64(i64::arbitrary(g));
    }
    match g.gen_range(0, 3) {
        0 => Operand::I64(i64::arbitrary(g)),
        1 => g
            .choose(vars.iter().collect::<Vec<_>>().as_slice())
            .map(|var_name| Operand::VarSubstitution(var_name.clone().clone()))
            .unwrap_or_else(|| Operand::I64(i64::arbitrary(g))),
        2 => g
            .choose(fns.iter().collect::<Vec<_>>().as_slice())
            .map(|&(ref fn_name, params_count)| {
                Operand::FnApplication(
                    fn_name.clone().clone(),
                    (0..*params_count)
                        .map(|_| arbitrary_expression(g, level + 1, vars, fns))
                        .collect(),
                )
            })
            .unwrap_or_else(|| Operand::I64(i64::arbitrary(g))),
        _ => unreachable!(),
    }
}

fn parses_correctly_prop(input: AnyProgram) -> bool {
    let text = input.0.to_bytes();
    parse(&text).unwrap().to_bytes() == text
}

#[test]
fn mod_parses_correctly() {
    // QuickCheck's default size creates infeasibly vast statements, and beyond some
    // point they stop exploring novel code paths. This does a much better job of
    // exploring potential edgecases.
    for size in 1..11 {
        let mut qc = QuickCheck::new().gen(StdGen::new(thread_rng(), size));
        qc.quickcheck(parses_correctly_prop as fn(AnyProgram) -> bool);
    }
}

fn reads_back_prop(input: AnyProgram) -> bool {
    let read = parse(&input.0.to_bytes()).unwrap();
    parse(&read.to_bytes()) == Ok(read)
}

#[test]
fn what_was_parsed_is_parsed_back_from_its_text() {
    for size in 1..11 {
        let mut qc = QuickCheck::new().gen(StdGen::new(thread_rng(), size));
        qc.quickcheck(reads_back_prop as fn(AnyProgram) -> bool);
    }
}

fn shunts_correctly_prop(input: AnyExpression) -> bool {
    let input = input.0;
    let tokens = input.tokens();
    let mut shunting_yard = match tokens[0].clone() {
        Token::Operand(first_operand) => ShuntingYard::new(first_operand),
        _ => unreachable!(),
    };
    for chunk in tokens[1..].chunks(2) {
        let (operator, operand) = match chunk {
            &[Token::Operator(operator), Token::Operand(ref operand)] => (operator, operand),
            _ => unreachable!(),
        };
        shunting_yard.push(operator, operand.clone());
    }
    let output = shunting_yard.into_expression();
    output.tokens() == tokens && input.to_bytes() == output.to_bytes()
}

#[test]
fn shunts_correctly() {
    // QuickCheck's default size creates infeasibly vast statements, and beyond some
    // point they stop exploring novel code paths. This does a much better job of
    // exploring potential edgecases.
    for size in 1..11 {
        let mut qc = QuickCheck::new().gen(StdGen::new(thread_rng(), size));
        qc.quickcheck(shunts_correctly_prop as fn(AnyExpression) -> bool);
    }
}

fn interprets_successfully_property(program: AnyProgram) -> bool {
    let program = program.0;
    let inputs: Vec<i64> = (0..program.inputs.len()).map(|n| n as i64 - 3).collect();
    let result = execute(&program, &inputs);
    if let Ok(ref outputs) = result {
        assert_eq!(outputs.len(), program.outputs.len());
    }
    if let Err(ref e) = result {
        println!("{:?}", e);
    }
    result.is_ok()
}

#[test]
fn mod_interprets_successfully() {
    // QuickCheck's default size creates infeasibly vast statements, and beyond some
    // point they stop exploring novel code paths. This does a much better job of
    // exploring potential edgecases.
    for size in 1..11 {
        let mut qc = QuickCheck::new().gen(StdGen::new(thread_rng(), size));
        qc.quickcheck(interprets_successfully_property as fn(AnyProgram) -> bool);
    }
}

fn synthesises_successfully_property(program: AnyProgram) -> bool {
    let program = program.0;
    let inputs: Vec<i64> = (0..program.inputs.len()).map(|n| n as i64 - 3).collect();
    match compile(&program) {
        Ok(unit) => run(&unit, &inputs) == Outcome::Outputs(execute(&program, &inputs).unwrap()),
        Err(e) => {
            println!("{:?}", e);
            false
        }
    }
}

#[test]
fn mod_synthesises_successfully() {
    // QuickCheck's default size creates infeasibly vast statements, and beyond some
    // point they stop exploring novel code paths. This does a much better job of
    // exploring potential edgecases.
    for size in 1..11 {
        let mut qc = QuickCheck::new().gen(StdGen::new(thread_rng(), size));
        qc.quickcheck(synthesises_successfully_property as fn(AnyProgram) -> bool);
    }
}
