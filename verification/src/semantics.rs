//! What a program means: the value of an expression, the effect of a
//! statement and the outputs of a program, as mathematical functions.
//!
//! Functions are kept in the order of their definition. A function defined
//! as the `k`-th sees the first `k` definitions and no later one: that
//! prefix is the function table as it was when the function was defined. A
//! name resolves to its latest definition within the prefix in force.

use vstd::prelude::*;
use crate::arith::{clamp, saturating_quotient};
use crate::ast::{ExpressionView, OperandView, Operator, ProgramView, StatementView};

verus! {

/// A defined function: its name, its parameters and its body.
pub struct FunctionView {
    pub name: Seq<char>,
    pub params: Seq<Seq<char>>,
    pub body: ExpressionView,
}

/// Why an evaluation failed.
pub enum ErrorView {
    UnknownVariable(Seq<char>),
    UnknownFunction(Seq<char>),
    IncorrectArgumentCount { name: Seq<char>, params_count: nat, provided_count: nat },
    IncorrectInputCount { inputs_count: nat, provided_count: nat },
}

/// The variables and the functions that statements have bound so far.
pub struct State {
    pub variables: Map<Seq<char>, i64>,
    pub functions: Seq<FunctionView>,
}

/// The result of an operator on two values.
pub open spec fn apply(operator: Operator, lhs: i64, rhs: i64) -> i64 {
    match operator {
        Operator::Add => clamp(lhs + rhs) as i64,
        Operator::Subtract => clamp(lhs - rhs) as i64,
        Operator::Multiply => clamp(lhs * rhs) as i64,
        Operator::Divide => saturating_quotient(lhs as int, rhs as int) as i64,
    }
}

/// The index of the latest definition of `name` among the first `scope`
/// functions.
pub open spec fn resolve(functions: Seq<FunctionView>, scope: nat, name: Seq<char>) -> Option<nat>
    decreases scope,
{
    if scope == 0 {
        None
    } else if scope <= functions.len() && functions[scope - 1].name == name {
        Some((scope - 1) as nat)
    } else {
        resolve(functions, (scope - 1) as nat, name)
    }
}

/// The variables of a call: each parameter bound to its argument, a later
/// parameter of the same name over an earlier one.
pub open spec fn bind(params: Seq<Seq<char>>, values: Seq<i64>) -> Map<Seq<char>, i64>
    decreases params.len(),
{
    if params.len() == 0 || values.len() == 0 {
        Map::empty()
    } else {
        bind(params.drop_last(), values.drop_last()).insert(params.last(), values.last())
    }
}

/// The number of clauses of a match, and zero for any other operand.
pub open spec fn clause_count(operand: OperandView) -> nat {
    match operand {
        OperandView::Match(_, clauses, _) => clauses.len(),
        _ => 0,
    }
}

/// The value of an expression among the first `scope` functions.
pub open spec fn eval_expression(
    functions: Seq<FunctionView>,
    scope: nat,
    variables: Map<Seq<char>, i64>,
    expression: ExpressionView,
) -> Result<i64, ErrorView>
    decreases scope, expression, 0nat,
{
    match expression {
        ExpressionView::Operand(operand) => eval_operand(functions, scope, variables, operand),
        ExpressionView::Operation(operator, lhs, rhs) => match eval_expression(
            functions,
            scope,
            variables,
            *lhs,
        ) {
            Err(e) => Err(e),
            Ok(a) => match eval_expression(functions, scope, variables, *rhs) {
                Err(e) => Err(e),
                Ok(b) => Ok(apply(operator, a, b)),
            },
        },
    }
}

/// The value of an operand among the first `scope` functions.
pub open spec fn eval_operand(
    functions: Seq<FunctionView>,
    scope: nat,
    variables: Map<Seq<char>, i64>,
    operand: OperandView,
) -> Result<i64, ErrorView>
    decreases scope, operand, clause_count(operand) + 1,
{
    match operand {
        OperandView::I64(n) => Ok(n),
        OperandView::Group(e) => eval_expression(functions, scope, variables, *e),
        OperandView::VarSubstitution(name) => if variables.contains_key(name) {
            Ok(variables[name])
        } else {
            Err(ErrorView::UnknownVariable(name))
        },
        OperandView::FnApplication(name, args) => match resolve(functions, scope, name) {
            None => Err(ErrorView::UnknownFunction(name)),
            Some(k) => if k >= scope || k >= functions.len() {
                Err(ErrorView::UnknownFunction(name))
            } else if functions[k as int].params.len() != args.len() {
                Err(
                    ErrorView::IncorrectArgumentCount {
                        name,
                        params_count: functions[k as int].params.len(),
                        provided_count: args.len(),
                    },
                )
            } else {
                match eval_arguments(functions, scope, variables, args, args.len()) {
                    Err(e) => Err(e),
                    Ok(values) => eval_expression(
                        functions,
                        k,
                        bind(functions[k as int].params, values),
                        functions[k as int].body,
                    ),
                }
            },
        },
        OperandView::Match(with, clauses, default) => match eval_expression(
            functions,
            scope,
            variables,
            *with,
        ) {
            Err(e) => Err(e),
            Ok(value) => eval_clauses(functions, scope, variables, operand, value, 0),
        },
    }
}

/// The values of the first `n` arguments, from left to right; the first
/// failure, if any, is the result.
pub open spec fn eval_arguments(
    functions: Seq<FunctionView>,
    scope: nat,
    variables: Map<Seq<char>, i64>,
    args: Seq<ExpressionView>,
    n: nat,
) -> Result<Seq<i64>, ErrorView>
    decreases scope, args, n,
{
    if n == 0 || n > args.len() {
        Ok(seq![])
    } else {
        match eval_arguments(functions, scope, variables, args, (n - 1) as nat) {
            Err(e) => Err(e),
            Ok(values) => match eval_expression(functions, scope, variables, args[n - 1]) {
                Err(e) => Err(e),
                Ok(value) => Ok(values.push(value)),
            },
        }
    }
}

/// The value of a match whose scrutinee is `value`, from the clause at
/// `from` on: the result of the first clause whose matcher equals `value`,
/// or the default where none does.
pub open spec fn eval_clauses(
    functions: Seq<FunctionView>,
    scope: nat,
    variables: Map<Seq<char>, i64>,
    operand: OperandView,
    value: i64,
    from: nat,
) -> Result<i64, ErrorView>
    decreases scope, operand, clause_count(operand) - from,
{
    match operand {
        OperandView::Match(_, clauses, default) => if from >= clauses.len() {
            eval_expression(functions, scope, variables, *default)
        } else {
            match eval_expression(functions, scope, variables, clauses[from as int].0) {
                Err(e) => Err(e),
                Ok(matcher) => if matcher == value {
                    eval_expression(functions, scope, variables, clauses[from as int].1)
                } else {
                    eval_clauses(functions, scope, variables, operand, value, from + 1)
                },
            }
        },
        _ => Ok(value),
    }
}

/// The state after a statement, or why it failed.
pub open spec fn run_statement(state: State, statement: StatementView) -> Result<State, ErrorView> {
    match statement {
        StatementView::VarAssignment(name, expression) => match eval_expression(
            state.functions,
            state.functions.len(),
            state.variables,
            expression,
        ) {
            Err(e) => Err(e),
            Ok(value) => Ok(
                State { variables: state.variables.insert(name, value), functions: state.functions },
            ),
        },
        StatementView::FnDefinition(name, params, body) => Ok(
            State {
                variables: state.variables,
                functions: state.functions.push(FunctionView { name, params, body }),
            },
        ),
    }
}

/// The state after the first `n` statements, or why the first of them that
/// failed did.
pub open spec fn run_statements(state: State, statements: Seq<StatementView>, n: nat) -> Result<
    State,
    ErrorView,
>
    decreases n,
{
    if n == 0 || n > statements.len() {
        Ok(state)
    } else {
        match run_statements(state, statements, (n - 1) as nat) {
            Err(e) => Err(e),
            Ok(before) => run_statement(before, statements[n - 1]),
        }
    }
}

/// The state with each of the first `n` input names bound to its value.
pub open spec fn bind_inputs(state: State, names: Seq<Seq<char>>, values: Seq<i64>, n: nat) -> State
    decreases n,
{
    if n == 0 || n > names.len() || n > values.len() {
        state
    } else {
        let before = bind_inputs(state, names, values, (n - 1) as nat);
        State {
            variables: before.variables.insert(names[n - 1], values[n - 1]),
            functions: before.functions,
        }
    }
}

/// The values of the first `n` output names, or the first of them that is
/// not bound.
pub open spec fn read_outputs(variables: Map<Seq<char>, i64>, names: Seq<Seq<char>>, n: nat) -> Result<
    Seq<i64>,
    ErrorView,
>
    decreases n,
{
    if n == 0 || n > names.len() {
        Ok(seq![])
    } else {
        match read_outputs(variables, names, (n - 1) as nat) {
            Err(e) => Err(e),
            Ok(values) => if variables.contains_key(names[n - 1]) {
                Ok(values.push(variables[names[n - 1]]))
            } else {
                Err(ErrorView::UnknownVariable(names[n - 1]))
            },
        }
    }
}

/// The state that the first `n` statements leave behind: that after the
/// last of them where all succeed, else that before the first that fails.
pub open spec fn reached(state: State, statements: Seq<StatementView>, n: nat) -> State
    decreases n,
{
    if n == 0 || n > statements.len() {
        state
    } else {
        match run_statements(state, statements, (n - 1) as nat) {
            Err(_) => reached(state, statements, (n - 1) as nat),
            Ok(before) => match run_statement(before, statements[n - 1]) {
                Ok(after) => after,
                Err(_) => before,
            },
        }
    }
}

/// The state that a run of a program that starts in `state` leaves behind.
/// A wrong number of inputs leaves the state as it was; otherwise the
/// inputs are bound, and the statements take effect up to the first that
/// fails.
pub open spec fn left_by(state: State, program: ProgramView, inputs: Seq<i64>) -> State {
    if program.inputs.len() != inputs.len() {
        state
    } else {
        reached(
            bind_inputs(state, program.inputs, inputs, inputs.len()),
            program.statements,
            program.statements.len(),
        )
    }
}

/// The state in which a program that starts in `state` ends, or why it
/// failed: the inputs are counted, then bound, then the statements run.
pub open spec fn run_to_end(state: State, program: ProgramView, inputs: Seq<i64>) -> Result<
    State,
    ErrorView,
> {
    if program.inputs.len() != inputs.len() {
        Err(
            ErrorView::IncorrectInputCount {
                inputs_count: program.inputs.len(),
                provided_count: inputs.len(),
            },
        )
    } else {
        run_statements(
            bind_inputs(state, program.inputs, inputs, inputs.len()),
            program.statements,
            program.statements.len(),
        )
    }
}

/// The outputs of a program that starts in `state`, or why it failed.
pub open spec fn run_from(state: State, program: ProgramView, inputs: Seq<i64>) -> Result<
    Seq<i64>,
    ErrorView,
> {
    match run_to_end(state, program, inputs) {
        Err(e) => Err(e),
        Ok(end) => read_outputs(end.variables, program.outputs, program.outputs.len()),
    }
}

/// The state in which nothing is bound.
pub open spec fn empty_state() -> State {
    State { variables: Map::empty(), functions: seq![] }
}

/// The outputs of a program on the given inputs, or why it failed.
pub open spec fn run_program(program: ProgramView, inputs: Seq<i64>) -> Result<Seq<i64>, ErrorView> {
    run_from(empty_state(), program, inputs)
}

/// Where the first statements succeed, they leave behind the state that
/// they end in.
pub proof fn lemma_reached_end(state: State, statements: Seq<StatementView>, n: nat)
    requires
        n <= statements.len(),
        run_statements(state, statements, n) is Ok,
    ensures
        reached(state, statements, n) == run_statements(state, statements, n)->Ok_0,
{
}

/// Once a statement has failed, no later one changes what is left behind.
pub proof fn lemma_reached_stays(state: State, statements: Seq<StatementView>, failed: nat, n: nat)
    requires
        failed <= n <= statements.len(),
        run_statements(state, statements, failed) is Err,
    ensures
        reached(state, statements, n) == reached(state, statements, failed),
        run_statements(state, statements, n) == run_statements(state, statements, failed),
    decreases n,
{
    if failed < n {
        lemma_reached_stays(state, statements, failed, (n - 1) as nat);
    }
}

/// As many outputs are read as there are names of outputs.
pub proof fn lemma_outputs_len(variables: Map<Seq<char>, i64>, names: Seq<Seq<char>>, n: nat)
    requires
        n <= names.len(),
    ensures
        read_outputs(variables, names, n) matches Ok(values) ==> values.len() == n,
    decreases n,
{
    if n > 0 {
        lemma_outputs_len(variables, names, (n - 1) as nat);
    }
}

/// A run that succeeds gives one output for each name of an output.
pub proof fn lemma_run_outputs_len(program: ProgramView, inputs: Seq<i64>)
    ensures
        run_program(program, inputs) matches Ok(values) ==> values.len() == program.outputs.len(),
{
    match run_to_end(empty_state(), program, inputs) {
        Ok(end) => {
            lemma_outputs_len(end.variables, program.outputs, program.outputs.len());
        },
        Err(_) => {},
    }
}

/// A name resolves within the scope, and to a function of that name.
pub proof fn lemma_resolve_in_scope(functions: Seq<FunctionView>, scope: nat, name: Seq<char>)
    ensures
        resolve(functions, scope, name) matches Some(k) ==> k < scope && k < functions.len()
            && functions[k as int].name == name,
    decreases scope,
{
    if scope > 0 {
        lemma_resolve_in_scope(functions, (scope - 1) as nat, name);
    }
}

/// Resolution within a scope looks at no function beyond the scope.
pub proof fn lemma_resolve_ignores_later(
    functions: Seq<FunctionView>,
    longer: Seq<FunctionView>,
    scope: nat,
    name: Seq<char>,
)
    requires
        functions.is_prefix_of(longer),
        scope <= functions.len(),
    ensures
        resolve(longer, scope, name) == resolve(functions, scope, name),
    decreases scope,
{
    if scope > 0 {
        assert(longer[scope - 1] == functions[scope - 1]);
        lemma_resolve_ignores_later(functions, longer, (scope - 1) as nat, name);
    }
}

/// The value of an expression within a scope depends on no function that
/// was defined beyond the scope.
pub proof fn lemma_expression_ignores_later(
    functions: Seq<FunctionView>,
    longer: Seq<FunctionView>,
    scope: nat,
    variables: Map<Seq<char>, i64>,
    expression: ExpressionView,
)
    requires
        functions.is_prefix_of(longer),
        scope <= functions.len(),
    ensures
        eval_expression(longer, scope, variables, expression) == eval_expression(
            functions,
            scope,
            variables,
            expression,
        ),
    decreases scope, expression, 0nat,
{
    match expression {
        ExpressionView::Operand(operand) => {
            lemma_operand_ignores_later(functions, longer, scope, variables, operand);
        },
        ExpressionView::Operation(operator, lhs, rhs) => {
            lemma_expression_ignores_later(functions, longer, scope, variables, *lhs);
            lemma_expression_ignores_later(functions, longer, scope, variables, *rhs);
        },
    }
}

/// The value of an operand within a scope depends on no function that was
/// defined beyond the scope.
pub proof fn lemma_operand_ignores_later(
    functions: Seq<FunctionView>,
    longer: Seq<FunctionView>,
    scope: nat,
    variables: Map<Seq<char>, i64>,
    operand: OperandView,
)
    requires
        functions.is_prefix_of(longer),
        scope <= functions.len(),
    ensures
        eval_operand(longer, scope, variables, operand) == eval_operand(
            functions,
            scope,
            variables,
            operand,
        ),
    decreases scope, operand, clause_count(operand) + 1,
{
    match operand {
        OperandView::I64(_) => {},
        OperandView::Group(e) => {
            lemma_expression_ignores_later(functions, longer, scope, variables, *e);
        },
        OperandView::VarSubstitution(_) => {},
        OperandView::FnApplication(name, args) => {
            lemma_resolve_ignores_later(functions, longer, scope, name);
            lemma_resolve_in_scope(functions, scope, name);
            match resolve(functions, scope, name) {
                None => {},
                Some(k) => {
                    assert(longer[k as int] == functions[k as int]);
                    lemma_arguments_ignore_later(
                        functions,
                        longer,
                        scope,
                        variables,
                        args,
                        args.len(),
                    );
                    if functions[k as int].params.len() == args.len() {
                        match eval_arguments(functions, scope, variables, args, args.len()) {
                            Err(_) => {},
                            Ok(values) => {
                                lemma_expression_ignores_later(
                                    functions,
                                    longer,
                                    k,
                                    bind(functions[k as int].params, values),
                                    functions[k as int].body,
                                );
                            },
                        }
                    }
                },
            }
        },
        OperandView::Match(with, clauses, default) => {
            lemma_expression_ignores_later(functions, longer, scope, variables, *with);
            match eval_expression(functions, scope, variables, *with) {
                Err(_) => {},
                Ok(value) => {
                    lemma_clauses_ignore_later(functions, longer, scope, variables, operand, value, 0);
                },
            }
        },
    }
}

/// The values of arguments within a scope depend on no function that was
/// defined beyond the scope.
pub proof fn lemma_arguments_ignore_later(
    functions: Seq<FunctionView>,
    longer: Seq<FunctionView>,
    scope: nat,
    variables: Map<Seq<char>, i64>,
    args: Seq<ExpressionView>,
    n: nat,
)
    requires
        functions.is_prefix_of(longer),
        scope <= functions.len(),
    ensures
        eval_arguments(longer, scope, variables, args, n) == eval_arguments(
            functions,
            scope,
            variables,
            args,
            n,
        ),
    decreases scope, args, n,
{
    if n != 0 && n <= args.len() {
        lemma_arguments_ignore_later(functions, longer, scope, variables, args, (n - 1) as nat);
        lemma_expression_ignores_later(functions, longer, scope, variables, args[n - 1]);
    }
}

/// The value of a match within a scope depends on no function that was
/// defined beyond the scope.
pub proof fn lemma_clauses_ignore_later(
    functions: Seq<FunctionView>,
    longer: Seq<FunctionView>,
    scope: nat,
    variables: Map<Seq<char>, i64>,
    operand: OperandView,
    value: i64,
    from: nat,
)
    requires
        functions.is_prefix_of(longer),
        scope <= functions.len(),
    ensures
        eval_clauses(longer, scope, variables, operand, value, from) == eval_clauses(
            functions,
            scope,
            variables,
            operand,
            value,
            from,
        ),
    decreases scope, operand, clause_count(operand) - from,
{
    match operand {
        OperandView::Match(_, clauses, default) => {
            if from >= clauses.len() {
                lemma_expression_ignores_later(functions, longer, scope, variables, *default);
            } else {
                lemma_expression_ignores_later(
                    functions,
                    longer,
                    scope,
                    variables,
                    clauses[from as int].0,
                );
                lemma_expression_ignores_later(
                    functions,
                    longer,
                    scope,
                    variables,
                    clauses[from as int].1,
                );
                lemma_clauses_ignore_later(
                    functions,
                    longer,
                    scope,
                    variables,
                    operand,
                    value,
                    from + 1,
                );
            }
        },
        _ => {},
    }
}

/// The arguments of a call whose arguments are the given values.
pub open spec fn literals(values: Seq<i64>) -> Seq<ExpressionView> {
    Seq::new(values.len(), |i: int| ExpressionView::Operand(OperandView::I64(values[i])))
}

/// Literal arguments evaluate to themselves, whatever is bound or defined.
pub proof fn lemma_literals_evaluate(
    functions: Seq<FunctionView>,
    scope: nat,
    variables: Map<Seq<char>, i64>,
    values: Seq<i64>,
    n: nat,
)
    requires
        n <= values.len(),
    ensures
        eval_arguments(functions, scope, variables, literals(values), n) == Ok::<
            Seq<i64>,
            ErrorView,
        >(values.take(n as int)),
    decreases n,
{
    if n > 0 {
        lemma_literals_evaluate(functions, scope, variables, values, (n - 1) as nat);
        let literal = OperandView::I64(values[n - 1]);
        assert(literals(values)[n - 1] == ExpressionView::Operand(literal));
        assert(eval_operand(functions, scope, variables, literal) == Ok::<i64, ErrorView>(
            values[n - 1],
        ));
        assert(eval_expression(functions, scope, variables, literals(values)[n - 1]) == Ok::<
            i64,
            ErrorView,
        >(values[n - 1]));
        assert(values.take(n as int) =~= values.take(n - 1).push(values[n - 1]));
    } else {
        assert(values.take(0) =~= Seq::<i64>::empty());
    }
}

/// Functions close over the table of their definition: when a function has
/// been defined, defining or redefining another one afterwards changes
/// nothing of what a call of the first on given values yields.
pub proof fn lemma_redefinition_keeps_callers(
    functions: Seq<FunctionView>,
    redefinition: FunctionView,
    variables: Map<Seq<char>, i64>,
    other_variables: Map<Seq<char>, i64>,
    name: Seq<char>,
    values: Seq<i64>,
)
    requires
        name != redefinition.name,
    ensures
        eval_operand(
            functions.push(redefinition),
            functions.len() + 1,
            other_variables,
            OperandView::FnApplication(name, literals(values)),
        ) == eval_operand(
            functions,
            functions.len(),
            variables,
            OperandView::FnApplication(name, literals(values)),
        ),
{
    let longer = functions.push(redefinition);
    let scope = functions.len();
    assert(functions.is_prefix_of(longer));
    assert(resolve(longer, scope + 1, name) == resolve(longer, scope, name));
    lemma_resolve_ignores_later(functions, longer, scope, name);
    lemma_resolve_in_scope(functions, scope, name);
    lemma_literals_evaluate(functions, scope, variables, values, values.len());
    lemma_literals_evaluate(longer, scope + 1, other_variables, values, values.len());
    assert(values.take(values.len() as int) =~= values);
    match resolve(functions, scope, name) {
        None => {},
        Some(k) => {
            assert(longer[k as int] == functions[k as int]);
            lemma_expression_ignores_later(
                functions,
                longer,
                k,
                bind(functions[k as int].params, values),
                functions[k as int].body,
            );
        },
    }
}

/// A call with another number of arguments than the function has
/// parameters fails with both numbers, before any argument is evaluated.
pub proof fn lemma_argument_count(
    functions: Seq<FunctionView>,
    scope: nat,
    variables: Map<Seq<char>, i64>,
    name: Seq<char>,
    args: Seq<ExpressionView>,
)
    requires
        resolve(functions, scope, name) is Some,
        functions[resolve(functions, scope, name).unwrap() as int].params.len() != args.len(),
    ensures
        eval_operand(functions, scope, variables, OperandView::FnApplication(name, args)) == Err::<
            i64,
            ErrorView,
        >(
            ErrorView::IncorrectArgumentCount {
                name,
                params_count: functions[resolve(functions, scope, name).unwrap() as int].params.len(),
                provided_count: args.len(),
            },
        ),
{
    lemma_resolve_in_scope(functions, scope, name);
}

/// Division by zero does not fail: it yields the bound on the dividend's
/// side, `i64::MAX` for a dividend that is not negative and `i64::MIN` for
/// a negative one.
pub proof fn lemma_division_by_zero(
    functions: Seq<FunctionView>,
    scope: nat,
    variables: Map<Seq<char>, i64>,
    lhs: ExpressionView,
    rhs: ExpressionView,
    dividend: i64,
)
    requires
        eval_expression(functions, scope, variables, lhs) == Ok::<i64, ErrorView>(dividend),
        eval_expression(functions, scope, variables, rhs) == Ok::<i64, ErrorView>(0),
    ensures
        eval_expression(
            functions,
            scope,
            variables,
            ExpressionView::Operation(Operator::Divide, Box::new(lhs), Box::new(rhs)),
        ) == Ok::<i64, ErrorView>(
            if dividend < 0 {
                i64::MIN
            } else {
                i64::MAX
            },
        ),
{
}

} // verus!
