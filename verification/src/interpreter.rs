//! The tree-walking interpreter.
//!
//! It keeps the variables bound so far and the functions in the order of
//! their definition. A call evaluates its arguments among the caller's
//! variables, then the body among the parameters alone and the functions
//! that were defined before the callee.

use vstd::prelude::*;
use crate::arith::{sat_add, sat_div, sat_mul, sat_sub};
use crate::ast::{
    clauses_view, clone_names, expressions_view, names_view, Expression, ExpressionView, Match, Matcher, Name,
    Operand, OperandView, Operator, Program, Statement, StatementView,
};
use crate::bindings::Bindings;
use crate::semantics::{
    apply, bind_inputs, empty_state, eval_arguments, eval_clauses, eval_expression, eval_operand,
    left_by, lemma_outputs_len, lemma_reached_end, lemma_reached_stays, reached, read_outputs,
    resolve, run_from, run_program, run_statement, run_statements, ErrorView, FunctionView, State,
};

verus! {

/// Why a run failed.
#[derive(Debug, PartialEq, Eq)]
pub enum Error {
    UnknownVariable(Name),
    UnknownFunction(Name),
    IncorrectArgumentCount { name: Name, params_count: usize, provided_count: usize },
    IncorrectInputCount { inputs_count: usize, provided_count: usize },
}

impl View for Error {
    type V = ErrorView;

    open spec fn view(&self) -> ErrorView {
        match *self {
            Error::UnknownVariable(name) => ErrorView::UnknownVariable(name@),
            Error::UnknownFunction(name) => ErrorView::UnknownFunction(name@),
            Error::IncorrectArgumentCount {
                name,
                params_count,
                provided_count,
            } => ErrorView::IncorrectArgumentCount {
                name: name@,
                params_count: params_count as nat,
                provided_count: provided_count as nat,
            },
            Error::IncorrectInputCount {
                inputs_count,
                provided_count,
            } => ErrorView::IncorrectInputCount {
                inputs_count: inputs_count as nat,
                provided_count: provided_count as nat,
            },
        }
    }
}

impl Clone for Error {
    fn clone(&self) -> (copy: Error)
        ensures
            copy@ == self@,
    {
        match self {
            Error::UnknownVariable(name) => Error::UnknownVariable(name.clone()),
            Error::UnknownFunction(name) => Error::UnknownFunction(name.clone()),
            Error::IncorrectArgumentCount {
                name,
                params_count,
                provided_count,
            } => Error::IncorrectArgumentCount {
                name: name.clone(),
                params_count: *params_count,
                provided_count: *provided_count,
            },
            Error::IncorrectInputCount {
                inputs_count,
                provided_count,
            } => Error::IncorrectInputCount {
                inputs_count: *inputs_count,
                provided_count: *provided_count,
            },
        }
    }
}

/// A value or a failure, by its view.
pub open spec fn value_view(result: Result<i64, Error>) -> Result<i64, ErrorView> {
    match result {
        Ok(value) => Ok(value),
        Err(e) => Err(e@),
    }
}

/// Values or a failure, by their view.
pub open spec fn values_view(result: Result<Vec<i64>, Error>) -> Result<Seq<i64>, ErrorView> {
    match result {
        Ok(values) => Ok(values@),
        Err(e) => Err(e@),
    }
}

/// A defined function. The functions that its body can call are those
/// that stand before it in the table: the table as it was when the function
/// was defined.
#[derive(Debug, PartialEq, Eq)]
pub struct Function {
    pub name: Name,
    pub params: Vec<Name>,
    pub body: Expression,
}

impl View for Function {
    type V = FunctionView;

    open spec fn view(&self) -> FunctionView {
        FunctionView { name: self.name@, params: names_view(self.params@), body: self.body@ }
    }
}

impl Function {
    pub fn new(name: Name, params: Vec<Name>, body: Expression) -> (function: Function)
        ensures
            function.name == name,
            function.params == params,
            function.body == body,
    {
        Function { name, params, body }
    }

    /// The names that the arguments of a call are bound to, in order.
    pub fn params(&self) -> (params: &Vec<Name>)
        ensures
            *params == self.params,
    {
        &self.params
    }
}

impl Clone for Function {
    fn clone(&self) -> (copy: Function)
        ensures
            copy@ == self@,
    {
        Function {
            name: self.name.clone(),
            params: clone_names(&self.params),
            body: self.body.clone(),
        }
    }
}

/// The views of a sequence of functions, in order.
pub open spec fn functions_view(functions: Seq<Function>) -> Seq<FunctionView> {
    Seq::new(functions.len(), |i: int| functions[i]@)
}

/// The variables bound so far and the functions defined so far, in the
/// order of their definition.
#[derive(Debug)]
pub struct Interpreter {
    pub variables: Bindings<i64>,
    pub functions: Vec<Function>,
}

impl View for Interpreter {
    type V = State;

    open spec fn view(&self) -> State {
        State { variables: self.variables@, functions: functions_view(self.functions@) }
    }
}

/// Once the first arguments have failed, so have any more of them.
pub proof fn lemma_arguments_fail(
    functions: Seq<FunctionView>,
    scope: nat,
    variables: Map<Seq<char>, i64>,
    args: Seq<ExpressionView>,
    failed: nat,
    n: nat,
)
    requires
        failed <= n <= args.len(),
        eval_arguments(functions, scope, variables, args, failed) is Err,
    ensures
        eval_arguments(functions, scope, variables, args, n) == eval_arguments(
            functions,
            scope,
            variables,
            args,
            failed,
        ),
    decreases n,
{
    if failed < n {
        lemma_arguments_fail(functions, scope, variables, args, failed, (n - 1) as nat);
    }
}

/// Once the first outputs have failed, so have any more of them.
pub proof fn lemma_outputs_fail(
    variables: Map<Seq<char>, i64>,
    names: Seq<Seq<char>>,
    failed: nat,
    n: nat,
)
    requires
        failed <= n <= names.len(),
        read_outputs(variables, names, failed) is Err,
    ensures
        read_outputs(variables, names, n) == read_outputs(variables, names, failed),
    decreases n,
{
    if failed < n {
        lemma_outputs_fail(variables, names, failed, (n - 1) as nat);
    }
}

impl Interpreter {
    /// An interpreter in which nothing is bound.
    pub fn new() -> (interpreter: Interpreter)
        ensures
            interpreter@ == empty_state(),
    {
        let interpreter = Interpreter { variables: Bindings::new(), functions: Vec::new() };
        assert(interpreter@.functions =~= empty_state().functions);
        interpreter
    }

    /// Binds the inputs, executes the statements in order and reads the
    /// outputs. A failure ends the run: the statements before it have taken
    /// effect, the failing one and those after it have not.
    #[verifier::loop_isolation(false)]
    pub fn run(&mut self, program: &Program, inputs: &Vec<i64>) -> (outputs: Result<Vec<i64>, Error>)
        ensures
            values_view(outputs) == run_from(old(self)@, program@, inputs@),
            final(self)@ == left_by(old(self)@, program@, inputs@),
            outputs matches Ok(values) ==> values.len() == program.outputs.len(),
    {
        if program.inputs.len() != inputs.len() {
            return Err(
                Error::IncorrectInputCount {
                    inputs_count: program.inputs.len(),
                    provided_count: inputs.len(),
                },
            );
        }
        let ghost start = self@;
        let mut i: usize = 0;
        while i < inputs.len()
            invariant
                i <= inputs.len(),
                program.inputs.len() == inputs.len(),
                self@ == bind_inputs(start, program@.inputs, inputs@, i as nat),
            decreases inputs.len() - i,
        {
            self.variables.insert(program.inputs[i].clone(), inputs[i]);
            i += 1;
        }
        let ghost bound = self@;
        let mut j: usize = 0;
        while j < program.statements.0.len()
            invariant
                j <= program.statements.0.len(),
                run_statements(bound, program@.statements, j as nat) == Ok::<State, ErrorView>(self@),
            decreases program.statements.0.len() - j,
        {
            match self.statement(&program.statements.0[j]) {
                Ok(()) => {},
                Err(e) => {
                    proof {
                        assert(run_statements(bound, program@.statements, (j + 1) as nat) == Err::<
                            State,
                            ErrorView,
                        >(e@));
                        assert(reached(bound, program@.statements, (j + 1) as nat) == self@);
                        lemma_reached_stays(
                            bound,
                            program@.statements,
                            (j + 1) as nat,
                            program@.statements.len(),
                        );
                    }
                    return Err(e);
                },
            }
            j += 1;
        }
        proof {
            lemma_reached_end(bound, program@.statements, program@.statements.len());
            lemma_outputs_len(self@.variables, program@.outputs, program@.outputs.len());
        }
        let mut outputs: Vec<i64> = Vec::new();
        let mut k: usize = 0;
        while k < program.outputs.len()
            invariant
                k <= program.outputs.len(),
                read_outputs(self@.variables, program@.outputs, k as nat) == Ok::<
                    Seq<i64>,
                    ErrorView,
                >(outputs@),
            decreases program.outputs.len() - k,
        {
            match Self::variable(&program.outputs[k], &self.variables) {
                Ok(value) => outputs.push(value),
                Err(e) => {
                    proof {
                        assert(read_outputs(self@.variables, program@.outputs, (k + 1) as nat)
                            == Err::<Seq<i64>, ErrorView>(e@));
                        lemma_outputs_fail(
                            self@.variables,
                            program@.outputs,
                            (k + 1) as nat,
                            program@.outputs.len(),
                        );
                    }
                    return Err(e);
                },
            }
            k += 1;
        }
        Ok(outputs)
    }

    /// Executes one statement. A failed assignment binds nothing.
    pub fn statement(&mut self, statement: &Statement) -> (done: Result<(), Error>)
        ensures
            match run_statement(old(self)@, statement@) {
                Ok(after) => done is Ok && final(self)@ == after,
                Err(e) => done matches Err(x) && x@ == e && final(self)@ == old(self)@,
            },
    {
        match statement {
            Statement::VarAssignment(name, expr) => {
                let value = self.expression(expr, &self.variables, self.functions.len())?;
                self.variables.insert(name.clone(), value);
            },
            Statement::FnDefinition(name, params, expr) => {
                let function = Function::new(name.clone(), clone_names(params), expr.clone());
                self.functions.push(function);
                assert(functions_view(self.functions@) =~= functions_view(old(self).functions@).push(
                    FunctionView { name: name@, params: names_view(params@), body: expr@ },
                ));
            },
        }
        Ok(())
    }

    /// The value of an expression among `variables` and the first `scope`
    /// functions.
    pub fn expression(&self, expr: &Expression, variables: &Bindings<i64>, scope: usize) -> (value:
        Result<i64, Error>)
        requires
            scope <= self.functions.len(),
        ensures
            value_view(value) == eval_expression(self@.functions, scope as nat, variables@, expr@),
        decreases scope, expr, 1nat,
    {
        match expr {
            Expression::Operand(operand) => self.operand(operand, variables, scope),
            Expression::Operation(operator, expr1, expr2) => self.operation(
                operator,
                expr1,
                expr2,
                variables,
                scope,
                Ghost(*expr),
            ),
        }
    }

    fn operation(
        &self,
        operator: &Operator,
        operand1: &Expression,
        operand2: &Expression,
        variables: &Bindings<i64>,
        scope: usize,
        Ghost(whole): Ghost<Expression>,
    ) -> (value: Result<i64, Error>)
        requires
            scope <= self.functions.len(),
            whole == Expression::Operation(*operator, Box::new(*operand1), Box::new(*operand2)),
        ensures
            value_view(value) == eval_expression(self@.functions, scope as nat, variables@, whole@),
        decreases scope, whole, 0nat,
    {
        let value1 = self.expression(operand1, variables, scope)?;
        let value2 = self.expression(operand2, variables, scope)?;
        Ok(evaluate(*operator, value1, value2))
    }

    fn operand(&self, operand: &Operand, variables: &Bindings<i64>, scope: usize) -> (value: Result<
        i64,
        Error,
    >)
        requires
            scope <= self.functions.len(),
        ensures
            value_view(value) == eval_operand(self@.functions, scope as nat, variables@, operand@),
        decreases scope, operand, 0nat,
    {
        match operand {
            Operand::I64(value) => Ok(*value),
            Operand::Group(expr) => self.expression(expr, variables, scope),
            Operand::VarSubstitution(name) => Self::variable(name, variables),
            Operand::FnApplication(name, args) => self.function_call(name, args, variables, scope),
            Operand::Match(match_) => self.match_(match_, variables, scope),
        }
    }

    /// The value that `name` is bound to in `variables`.
    pub fn variable(name: &Name, variables: &Bindings<i64>) -> (value: Result<i64, Error>)
        ensures
            value_view(value) == if variables@.contains_key(name@) {
                Ok::<i64, ErrorView>(variables@[name@])
            } else {
                Err::<i64, ErrorView>(ErrorView::UnknownVariable(name@))
            },
    {
        match variables.get(name) {
            Some(value) => Ok(value),
            None => Err(Error::UnknownVariable(name.clone())),
        }
    }

    /// The index of the latest definition of `name` among the first `scope`
    /// functions.
    pub fn function(&self, name: &Name, scope: usize) -> (index: Option<usize>)
        requires
            scope <= self.functions.len(),
        ensures
            match resolve(self@.functions, scope as nat, name@) {
                Some(k) => index == Some(k as usize) && k < scope,
                None => index is None,
            },
    {
        let mut i: usize = scope;
        while i > 0
            invariant
                i <= scope <= self.functions.len(),
                resolve(self@.functions, scope as nat, name@) == resolve(
                    self@.functions,
                    i as nat,
                    name@,
                ),
            decreases i,
        {
            i -= 1;
            if self.functions[i].name.equals(name) {
                return Some(i);
            }
        }
        None
    }

    #[verifier::loop_isolation(false)]
    fn function_call(
        &self,
        name: &Name,
        arg_exprs: &Vec<Expression>,
        caller_variables: &Bindings<i64>,
        scope: usize,
    ) -> (value: Result<i64, Error>)
        requires
            scope <= self.functions.len(),
        ensures
            value_view(value) == eval_operand(
                self@.functions,
                scope as nat,
                caller_variables@,
                OperandView::FnApplication(name@, expressions_view(arg_exprs@)),
            ),
        decreases scope, arg_exprs, 0nat,
    {
        let ghost functions = self@.functions;
        let ghost args = expressions_view(arg_exprs@);
        let index = match self.function(name, scope) {
            Some(index) => index,
            None => {
                return Err(Error::UnknownFunction(name.clone()));
            },
        };
        let function = &self.functions[index];
        if function.params().len() != arg_exprs.len() {
            return Err(
                Error::IncorrectArgumentCount {
                    name: name.clone(),
                    params_count: function.params().len(),
                    provided_count: arg_exprs.len(),
                },
            );
        }
        let mut values: Vec<i64> = Vec::new();
        let mut i: usize = 0;
        while i < arg_exprs.len()
            invariant
                i <= arg_exprs.len(),
                scope <= self.functions.len(),
                functions == self@.functions,
                args == expressions_view(arg_exprs@),
                values.len() == i,
                eval_arguments(functions, scope as nat, caller_variables@, args, i as nat) == Ok::<
                    Seq<i64>,
                    ErrorView,
                >(values@),
            decreases arg_exprs.len() - i,
        {
            match self.expression(&arg_exprs[i], caller_variables, scope) {
                Ok(value) => values.push(value),
                Err(e) => {
                    proof {
                        assert(eval_arguments(
                            functions,
                            scope as nat,
                            caller_variables@,
                            args,
                            (i + 1) as nat,
                        ) == Err::<Seq<i64>, ErrorView>(e@));
                        lemma_arguments_fail(
                            functions,
                            scope as nat,
                            caller_variables@,
                            args,
                            (i + 1) as nat,
                            args.len(),
                        );
                    }
                    return Err(e);
                },
            }
            i += 1;
        }
        let variables = Bindings::bind(&function.params, &values);
        self.expression(&function.body, &variables, index)
    }

    #[verifier::loop_isolation(false)]
    fn match_(&self, match_: &Match, variables: &Bindings<i64>, scope: usize) -> (value: Result<
        i64,
        Error,
    >)
        requires
            scope <= self.functions.len(),
        ensures
            value_view(value) == eval_operand(
                self@.functions,
                scope as nat,
                variables@,
                Operand::Match(*match_)@,
            ),
        decreases scope, match_, 0nat,
    {
        let ghost operand = Operand::Match(*match_)@;
        let with = self.expression(&match_.with, variables, scope)?;
        let mut i: usize = 0;
        while i < match_.clauses.len()
            invariant
                i <= match_.clauses.len(),
                scope <= self.functions.len(),
                operand == Operand::Match(*match_)@,
                eval_operand(self@.functions, scope as nat, variables@, operand) == eval_clauses(
                    self@.functions,
                    scope as nat,
                    variables@,
                    operand,
                    with,
                    i as nat,
                ),
            decreases match_.clauses.len() - i,
        {
            proof {
                let clauses = clauses_view(match_.clauses@);
                assert(operand == OperandView::Match(
                    Box::new(match_.with@),
                    clauses,
                    Box::new(match_.default@),
                ));
                assert(clauses[i as int] == (match_.clauses[i as int].0@, match_.clauses[i as int].1@));
            }
            let value = match &match_.clauses[i].0 {
                Matcher::Value(value) => self.expression(value, variables, scope)?,
            };
            if with == value {
                return self.expression(&match_.clauses[i].1, variables, scope);
            }
            i += 1;
        }
        self.expression(&match_.default, variables, scope)
    }
}

/// The result of an operator on two values.
pub fn evaluate(operator: Operator, value1: i64, value2: i64) -> (value: i64)
    ensures
        value == apply(operator, value1, value2),
{
    match operator {
        Operator::Add => sat_add(value1, value2),
        Operator::Subtract => sat_sub(value1, value2),
        Operator::Multiply => sat_mul(value1, value2),
        Operator::Divide => sat_div(value1, value2),
    }
}

/// Runs a program on the given inputs and gives its outputs, one for each
/// name of an output.
pub fn execute(program: &Program, inputs: &Vec<i64>) -> (outputs: Result<Vec<i64>, Error>)
    ensures
        values_view(outputs) == run_program(program@, inputs@),
        outputs matches Ok(values) ==> values.len() == program.outputs.len(),
{
    let mut interpreter = Interpreter::new();
    interpreter.run(program, inputs)
}

} // verus!
