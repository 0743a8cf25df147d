//! A translation unit computes what the interpreter computes.
//!
//! Where a program lowers at all, a run of its unit on given inputs ends
//! as the run of the interpreter on them does: with the same outputs, or
//! with the report of the same two counts where the number of inputs is
//! wrong. It never does what the machine leaves undefined.

use vstd::prelude::*;
use crate::ast::{ExpressionView, OperandView, Operator, ProgramView, StatementView};
use crate::ast::Program;
use crate::compiler::expression::{
    lemma_resolve_signature, lower_arguments, lower_clauses, lower_expression, lower_operand,
    matches_bound, read, resolve_signature, ScopeView, SignatureView,
};
use crate::compiler::program::{
    entry_scope, lower_assignment, lower_inputs, lower_outputs, placed, Layout,
};
use crate::compiler::target::{
    blank_cells, read_cells, read_inputs, run_stores, run_unit, OutcomeView, StoreView,
    TranslationUnit, UnitView,
};
use crate::compiler::{built_in_routines, lower_program, lower_statement, lower_statements, Build};
use crate::semantics::{
    bind_inputs, empty_state, lemma_expression_ignores_later, read_outputs, run_program,
    run_statement, run_statements, State,
};
use crate::compiler::function::{body_scope, lower_function, param_places};
use crate::compiler::math::{
    is_saturating, lemma_eval_binary, lemma_eval_select, lemma_saturating_body, routine_of,
    saturating_call, BUILT_IN,
};
use crate::compiler::target::{
    eval_value, eval_values, truth, Binary, Frame, Relation, RoutineView, ValueView,
};
use crate::semantics::{
    apply, bind, clause_count, eval_arguments, eval_clauses, eval_expression, eval_operand,
    lemma_resolve_in_scope, resolve, ErrorView, FunctionView,
};

verus! {

/// The signature of each function, in order.
pub open spec fn signatures_of(functions: Seq<FunctionView>) -> Seq<SignatureView> {
    Seq::new(
        functions.len(),
        |i: int|
            SignatureView {
                name: functions[i].name,
                arity: functions[i].params.len(),
                routine: BUILT_IN as nat + i as nat,
            },
    )
}

/// The routine of the function of this number.
pub open spec fn user_routine(routines: Seq<RoutineView>, j: int) -> RoutineView {
    routines[BUILT_IN + j]
}

/// Whether the routines are the four saturating ones and chosen, for each
/// function, what it lowers to among the functions before it.
pub open spec fn implements(routines: Seq<RoutineView>, functions: Seq<FunctionView>) -> bool {
    &&& routines.len() == BUILT_IN + functions.len()
    &&& is_saturating(routines[0], Operator::Add)
    &&& is_saturating(routines[1], Operator::Subtract)
    &&& is_saturating(routines[2], Operator::Multiply)
    &&& is_saturating(routines[3], Operator::Divide)
    &&& forall|j: int| 0 <= j < functions.len() ==> (#[trigger] functions[j]).params.len() <= usize::MAX
    &&& forall|j: int|
        0 <= j < functions.len() ==> lower_function(
            signatures_of(functions).take(j),
            functions[j].name,
            functions[j].params,
            functions[j].body,
        ) == Ok::<RoutineView, crate::compiler::ErrorView>(#[trigger] user_routine(routines, j))
}

/// Whether the scope sees the first `k` of the functions, as they are.
pub open spec fn sees(scope: ScopeView, functions: Seq<FunctionView>, k: nat) -> bool {
    &&& scope.visible == k
    &&& k <= functions.len()
    &&& k <= scope.signatures.len()
    &&& forall|i: int| 0 <= i < k ==> #[trigger] scope.signatures[i] == signatures_of(functions)[i]
}

/// Whether every variable that the scope has a place for is bound, and the
/// frame holds its value at that place.
pub open spec fn agrees(scope: ScopeView, variables: Map<Seq<char>, i64>, frame: Frame) -> bool {
    forall|name: Seq<char>| #[trigger]
        scope.places.contains_key(name) ==> variables.contains_key(name) && if scope.cells {
            scope.places[name] < frame.cells.len() && frame.cells[scope.places[name] as int]
                == Some(variables[name])
        } else {
            scope.places[name] < frame.params.len() && frame.params[scope.places[name] as int]
                == variables[name]
        }
}

/// The frame with one more temporary.
pub open spec fn with_local(frame: Frame, x: i64) -> Frame {
    Frame { params: frame.params, cells: frame.cells, locals: frame.locals.push(x) }
}

/// A signature resolves as the function of its name does.
pub proof fn lemma_resolve_agrees(
    scope: ScopeView,
    functions: Seq<FunctionView>,
    k: nat,
    visible: nat,
    name: Seq<char>,
)
    requires
        sees(scope, functions, k),
        visible <= k,
    ensures
        resolve_signature(scope.signatures, visible, name) == resolve(functions, visible, name),
    decreases visible,
{
    if visible > 0 {
        assert(scope.signatures[visible - 1] == signatures_of(functions)[visible - 1]);
        lemma_resolve_agrees(scope, functions, k, (visible - 1) as nat, name);
    }
}

/// Arguments that lower as a whole lower one by one.
pub proof fn lemma_lower_arguments_each(scope: ScopeView, args: Seq<ExpressionView>, n: nat)
    requires
        n <= args.len(),
        lower_arguments(scope, args, n) is Ok,
    ensures
        lower_arguments(scope, args, n)->Ok_0.len() == n,
        forall|i: int|
            0 <= i < n ==> lower_expression(scope, #[trigger] args[i]) == Ok::<
                ValueView,
                crate::compiler::ErrorView,
            >(lower_arguments(scope, args, n)->Ok_0[i]),
        forall|m: nat|
            m <= n ==> #[trigger] lower_arguments(scope, args, m) == Ok::<
                Seq<ValueView>,
                crate::compiler::ErrorView,
            >(lower_arguments(scope, args, n)->Ok_0.take(m as int)),
    decreases n,
{
    let whole = lower_arguments(scope, args, n)->Ok_0;
    if n > 0 {
        lemma_lower_arguments_each(scope, args, (n - 1) as nat);
        let before = lower_arguments(scope, args, (n - 1) as nat)->Ok_0;
        assert(whole.take(n - 1) =~= before);
        assert(whole.take(n as int) =~= whole);
        assert forall|m: nat| m <= n implies #[trigger] lower_arguments(scope, args, m) == Ok::<
            Seq<ValueView>,
            crate::compiler::ErrorView,
        >(whole.take(m as int)) by {
            if m < n {
                assert(before.take(m as int) =~= whole.take(m as int));
            }
        }
    } else {
        assert(whole.take(0) =~= whole);
    }
}

/// Parameters bound to values are found at the places of the parameters.
pub proof fn lemma_param_places(params: Seq<Seq<char>>, values: Seq<i64>, n: nat)
    requires
        n <= params.len(),
        params.len() == values.len(),
        params.len() <= usize::MAX,
    ensures
        forall|name: Seq<char>| #[trigger]
            param_places(params, n).contains_key(name) ==> bind(
                params.take(n as int),
                values.take(n as int),
            ).contains_key(name) && param_places(params, n)[name] < n && values[param_places(
                params,
                n,
            )[name] as int] == bind(params.take(n as int), values.take(n as int))[name],
    decreases n,
{
    if n > 0 {
        lemma_param_places(params, values, (n - 1) as nat);
        let names = params.take(n as int);
        let given = values.take(n as int);
        assert(names.drop_last() =~= params.take(n - 1));
        assert(given.drop_last() =~= values.take(n - 1));
        assert(names.last() == params[n - 1]);
        assert(given.last() == values[n - 1]);
        let before = bind(params.take(n - 1), values.take(n - 1));
        assert(bind(names, given) == before.insert(params[n - 1], values[n - 1]));
        let places = param_places(params, n);
        let places_before = param_places(params, (n - 1) as nat);
        assert(places == places_before.insert(params[n - 1], (n - 1) as usize));
        assert forall|name: Seq<char>| #[trigger] places.contains_key(name) implies bind(
            names,
            given,
        ).contains_key(name) && places[name] < n && values[places[name] as int] == bind(
            names,
            given,
        )[name] by {
            if name != params[n - 1] {
                assert(places_before.contains_key(name));
            }
        }
    }
}

/// What an expression lowers to yields the value of the expression.
pub proof fn lemma_lowered_expression(
    functions: Seq<FunctionView>,
    routines: Seq<RoutineView>,
    k: nat,
    scope: ScopeView,
    variables: Map<Seq<char>, i64>,
    frame: Frame,
    expression: ExpressionView,
)
    requires
        implements(routines, functions),
        sees(scope, functions, k),
        agrees(scope, variables, frame),
        lower_expression(scope, expression) is Ok,
    ensures
        eval_expression(functions, k, variables, expression) is Ok,
        eval_value(routines, BUILT_IN as nat + k, frame, lower_expression(scope, expression)->Ok_0)
            == Some(eval_expression(functions, k, variables, expression)->Ok_0),
    decreases k, expression, 0nat,
{
    match expression {
        ExpressionView::Operand(operand) => {
            lemma_lowered_operand(functions, routines, k, scope, variables, frame, operand);
        },
        ExpressionView::Operation(operator, lhs, rhs) => {
            lemma_lowered_expression(functions, routines, k, scope, variables, frame, *lhs);
            lemma_lowered_expression(functions, routines, k, scope, variables, frame, *rhs);
            let a = lower_expression(scope, *lhs)->Ok_0;
            let b = lower_expression(scope, *rhs)->Ok_0;
            let x = eval_expression(functions, k, variables, *lhs)->Ok_0;
            let y = eval_expression(functions, k, variables, *rhs)->Ok_0;
            let limit = BUILT_IN as nat + k;
            let args = seq![a, b];
            let place = routine_of(operator);
            assert(lower_expression(scope, expression)->Ok_0 == ValueView::Call(place, args));
            assert(eval_values(routines, limit, frame, args, 0) == Some(Seq::<i64>::empty()));
            assert(eval_values(routines, limit, frame, args, 1) == Some(seq![x])) by {
                assert(Seq::<i64>::empty().push(x) =~= seq![x]);
            }
            assert(eval_values(routines, limit, frame, args, 2) == Some(seq![x, y])) by {
                assert(seq![x].push(y) =~= seq![x, y]);
            }
            let inner = Frame { params: seq![x, y], cells: seq![], locals: seq![] };
            assert(is_saturating(routines[place as int], operator));
            lemma_saturating_body(routines, place, inner, operator);
        },
    }
}

/// What an operand lowers to yields the value of the operand.
pub proof fn lemma_lowered_operand(
    functions: Seq<FunctionView>,
    routines: Seq<RoutineView>,
    k: nat,
    scope: ScopeView,
    variables: Map<Seq<char>, i64>,
    frame: Frame,
    operand: OperandView,
)
    requires
        implements(routines, functions),
        sees(scope, functions, k),
        agrees(scope, variables, frame),
        lower_operand(scope, operand) is Ok,
    ensures
        eval_operand(functions, k, variables, operand) is Ok,
        eval_value(routines, BUILT_IN as nat + k, frame, lower_operand(scope, operand)->Ok_0)
            == Some(eval_operand(functions, k, variables, operand)->Ok_0),
    decreases k, operand, clause_count(operand) + 1,
{
    let limit = BUILT_IN as nat + k;
    match operand {
        OperandView::I64(_) => {},
        OperandView::Group(e) => {
            lemma_lowered_expression(functions, routines, k, scope, variables, frame, *e);
        },
        OperandView::VarSubstitution(name) => {
            assert(scope.places.contains_key(name));
        },
        OperandView::FnApplication(name, args) => {
            lemma_resolve_agrees(scope, functions, k, k, name);
            lemma_resolve_in_scope(functions, k, name);
            lemma_resolve_signature(scope.signatures, k, name);
            let j = resolve(functions, k, name).unwrap();
            assert(scope.signatures[j as int] == signatures_of(functions)[j as int]);
            lemma_lower_arguments_each(scope, args, args.len());
            lemma_lowered_arguments(
                functions,
                routines,
                k,
                scope,
                variables,
                frame,
                args,
                args.len(),
            );
            let lowered = lower_arguments(scope, args, args.len())->Ok_0;
            assert(lowered.take(args.len() as int) =~= lowered);
            let values = eval_arguments(functions, k, variables, args, args.len())->Ok_0;
            let routine = user_routine(routines, j as int);
            let function = functions[j as int];
            assert(lower_function(
                signatures_of(functions).take(j as int),
                function.name,
                function.params,
                function.body,
            ) == Ok::<RoutineView, crate::compiler::ErrorView>(routine));
            let inner_scope = body_scope(signatures_of(functions).take(j as int), function.params);
            let inner = Frame { params: values, cells: seq![], locals: seq![] };
            let bound = bind(function.params, values);
            lemma_arguments_len(functions, k, variables, args, args.len());
            assert(agrees(inner_scope, bound, inner)) by {
                lemma_param_places(function.params, values, function.params.len());
                assert(function.params.take(function.params.len() as int) =~= function.params);
                assert(values.take(values.len() as int) =~= values);
            }
            assert(sees(inner_scope, functions, j)) by {
                assert forall|i: int| 0 <= i < j implies #[trigger] inner_scope.signatures[i]
                    == signatures_of(functions)[i] by {}
            }
            lemma_lowered_expression(
                functions,
                routines,
                j,
                inner_scope,
                bound,
                inner,
                function.body,
            );
            assert(lower_operand(scope, operand)->Ok_0 == ValueView::Call(
                BUILT_IN as nat + j,
                lowered,
            ));
        },
        OperandView::Match(with, clauses, default) => {
            lemma_lowered_expression(functions, routines, k, scope, variables, frame, *with);
            let w = eval_expression(functions, k, variables, *with)->Ok_0;
            lemma_lowered_clauses(
                functions,
                routines,
                k,
                scope,
                variables,
                with_local(frame, w),
                operand,
                w,
                0,
            );
        },
    }
}

/// Arguments that evaluate yield as many values as there are arguments.
pub proof fn lemma_arguments_len(
    functions: Seq<FunctionView>,
    k: nat,
    variables: Map<Seq<char>, i64>,
    args: Seq<ExpressionView>,
    n: nat,
)
    requires
        n <= args.len(),
    ensures
        eval_arguments(functions, k, variables, args, n) matches Ok(values) ==> values.len() == n,
    decreases n,
{
    if n > 0 {
        lemma_arguments_len(functions, k, variables, args, (n - 1) as nat);
    }
}

/// What arguments lower to yield the values of the arguments.
pub proof fn lemma_lowered_arguments(
    functions: Seq<FunctionView>,
    routines: Seq<RoutineView>,
    k: nat,
    scope: ScopeView,
    variables: Map<Seq<char>, i64>,
    frame: Frame,
    args: Seq<ExpressionView>,
    n: nat,
)
    requires
        implements(routines, functions),
        sees(scope, functions, k),
        agrees(scope, variables, frame),
        n <= args.len(),
        lower_arguments(scope, args, args.len()) is Ok,
    ensures
        eval_arguments(functions, k, variables, args, n) is Ok,
        eval_values(
            routines,
            BUILT_IN as nat + k,
            frame,
            lower_arguments(scope, args, args.len())->Ok_0,
            n,
        ) == Some(eval_arguments(functions, k, variables, args, n)->Ok_0),
    decreases k, args, n,
{
    if n > 0 {
        lemma_lower_arguments_each(scope, args, args.len());
        lemma_lowered_arguments(
            functions,
            routines,
            k,
            scope,
            variables,
            frame,
            args,
            (n - 1) as nat,
        );
        lemma_lowered_expression(functions, routines, k, scope, variables, frame, args[n - 1]);
    }
}

/// What the clauses of a match lower to yield the value of the match.
pub proof fn lemma_lowered_clauses(
    functions: Seq<FunctionView>,
    routines: Seq<RoutineView>,
    k: nat,
    scope: ScopeView,
    variables: Map<Seq<char>, i64>,
    frame: Frame,
    operand: OperandView,
    scrutinee: i64,
    from: nat,
)
    requires
        implements(routines, functions),
        sees(scope, functions, k),
        agrees(scope, variables, frame),
        frame.locals.len() > 0,
        frame.locals.last() == scrutinee,
        lower_clauses(scope, operand, from) is Ok,
    ensures
        eval_clauses(functions, k, variables, operand, scrutinee, from) is Ok,
        eval_value(routines, BUILT_IN as nat + k, frame, lower_clauses(scope, operand, from)->Ok_0)
            == Some(eval_clauses(functions, k, variables, operand, scrutinee, from)->Ok_0),
    decreases k, operand, clause_count(operand) - from,
{
    let limit = BUILT_IN as nat + k;
    match operand {
        OperandView::Match(_, clauses, default) => {
            if from >= clauses.len() {
                lemma_lowered_expression(functions, routines, k, scope, variables, frame, *default);
            } else {
                let value = clauses[from as int].0;
                let result = clauses[from as int].1;
                lemma_lowered_expression(functions, routines, k, scope, variables, frame, value);
                lemma_lowered_expression(functions, routines, k, scope, variables, frame, result);
                lemma_lowered_clauses(
                    functions,
                    routines,
                    k,
                    scope,
                    variables,
                    frame,
                    operand,
                    scrutinee,
                    from + 1,
                );
                let v = lower_expression(scope, value)->Ok_0;
                let r = lower_expression(scope, result)->Ok_0;
                let rest = lower_clauses(scope, operand, from + 1)->Ok_0;
                lemma_eval_binary(
                    routines,
                    limit,
                    frame,
                    Binary::Compare(Relation::Equal),
                    ValueView::Bound,
                    v,
                );
                lemma_eval_select(routines, limit, frame, matches_bound(v), r, rest);
            }
        },
        _ => {},
    }
}

/// A value that is defined among the first routines is the same among
/// more of them.
pub proof fn lemma_more_routines(
    routines: Seq<RoutineView>,
    limit: nat,
    more: nat,
    frame: Frame,
    value: ValueView,
)
    requires
        limit <= more,
        eval_value(routines, limit, frame, value) is Some,
    ensures
        eval_value(routines, more, frame, value) == eval_value(routines, limit, frame, value),
    decreases value, 0nat,
{
    match value {
        ValueView::Let(bound, body) => {
            lemma_more_routines(routines, limit, more, frame, *bound);
            let x = eval_value(routines, limit, frame, *bound).unwrap();
            lemma_more_routines(routines, limit, more, with_local(frame, x), *body);
        },
        ValueView::Binary(_, a, b) => {
            lemma_more_routines(routines, limit, more, frame, *a);
            lemma_more_routines(routines, limit, more, frame, *b);
        },
        ValueView::Select(test, chosen, otherwise) => {
            lemma_more_routines(routines, limit, more, frame, *test);
            if eval_value(routines, limit, frame, *test).unwrap() != 0 {
                lemma_more_routines(routines, limit, more, frame, *chosen);
            } else {
                lemma_more_routines(routines, limit, more, frame, *otherwise);
            }
        },
        ValueView::Call(_, args) => {
            lemma_more_routines_all(routines, limit, more, frame, args, args.len());
        },
        _ => {},
    }
}

/// Values that are defined among the first routines are the same among
/// more of them.
pub proof fn lemma_more_routines_all(
    routines: Seq<RoutineView>,
    limit: nat,
    more: nat,
    frame: Frame,
    values: Seq<ValueView>,
    n: nat,
)
    requires
        limit <= more,
        n <= values.len(),
        eval_values(routines, limit, frame, values, n) is Some,
    ensures
        eval_values(routines, more, frame, values, n) == eval_values(
            routines,
            limit,
            frame,
            values,
            n,
        ),
    decreases values, n,
{
    if n > 0 {
        lemma_more_routines_all(routines, limit, more, frame, values, (n - 1) as nat);
        lemma_more_routines(routines, limit, more, frame, values[n - 1]);
    }
}

/// The functions that the first `n` statements define, in order.
pub open spec fn functions_of(statements: Seq<StatementView>, n: nat) -> Seq<FunctionView>
    decreases n,
{
    if n == 0 || n > statements.len() {
        seq![]
    } else {
        match statements[n - 1] {
            StatementView::FnDefinition(name, params, body) => functions_of(
                statements,
                (n - 1) as nat,
            ).push(FunctionView { name, params, body }),
            StatementView::VarAssignment(_, _) => functions_of(statements, (n - 1) as nat),
        }
    }
}

/// Whether no function of the statements has more parameters than a
/// machine can count.
pub open spec fn countable(statements: Seq<StatementView>) -> bool {
    forall|i: int|
        0 <= i < statements.len() ==> (#[trigger] statements[i] matches StatementView::FnDefinition(
            _,
            params,
            _,
        ) ==> params.len() <= usize::MAX)
}

/// The functions of fewer statements come first among those of more.
pub proof fn lemma_functions_of_prefix(statements: Seq<StatementView>, n: nat, more: nat)
    requires
        n <= more <= statements.len(),
    ensures
        functions_of(statements, n).is_prefix_of(functions_of(statements, more)),
    decreases more,
{
    if n < more {
        lemma_functions_of_prefix(statements, n, (more - 1) as nat);
    }
}

/// The functions of countable statements have countable parameters.
pub proof fn lemma_functions_of_countable(statements: Seq<StatementView>, n: nat)
    requires
        n <= statements.len(),
        countable(statements),
    ensures
        forall|j: int|
            0 <= j < functions_of(statements, n).len() ==> (#[trigger] functions_of(
                statements,
                n,
            )[j]).params.len() <= usize::MAX,
    decreases n,
{
    if n > 0 {
        lemma_functions_of_countable(statements, (n - 1) as nat);
        assert(statements[n - 1] == statements[n - 1]);
    }
}

/// Whether a build holds, for the functions that the statements so far
/// define, a signature each and what each lowers to.
pub open spec fn built(build: Build, functions: Seq<FunctionView>) -> bool {
    &&& build.signatures == signatures_of(functions)
    &&& build.routines.len() == functions.len()
    &&& forall|j: int|
        0 <= j < functions.len() ==> lower_function(
            signatures_of(functions).take(j),
            functions[j].name,
            functions[j].params,
            functions[j].body,
        ) == Ok::<RoutineView, crate::compiler::ErrorView>(#[trigger] build.routines[j])
}

/// The build with no function and no store.
pub open spec fn first_build(layout: Layout) -> Build {
    Build { routines: seq![], signatures: seq![], layout, stores: seq![] }
}

/// What has been built of the first statements holds their functions.
pub proof fn lemma_built(layout: Layout, statements: Seq<StatementView>, n: nat)
    requires
        n <= statements.len(),
        lower_statements(first_build(layout), statements, n) is Ok,
    ensures
        built(lower_statements(first_build(layout), statements, n)->Ok_0, functions_of(statements, n)),
    decreases n,
{
    let start = first_build(layout);
    if n == 0 {
        assert(start.signatures =~= signatures_of(functions_of(statements, 0)));
    } else {
        lemma_built(layout, statements, (n - 1) as nat);
        let before = lower_statements(start, statements, (n - 1) as nat)->Ok_0;
        let after = lower_statements(start, statements, n)->Ok_0;
        let functions = functions_of(statements, (n - 1) as nat);
        match statements[n - 1] {
            StatementView::VarAssignment(_, _) => {},
            StatementView::FnDefinition(name, params, body) => {
                let grown = functions.push(FunctionView { name, params, body });
                assert(after.signatures =~= signatures_of(grown));
                assert forall|j: int| 0 <= j < grown.len() implies lower_function(
                    signatures_of(grown).take(j),
                    grown[j].name,
                    grown[j].params,
                    grown[j].body,
                ) == Ok::<RoutineView, crate::compiler::ErrorView>(#[trigger] after.routines[j]) by {
                    if j < functions.len() {
                        assert(signatures_of(grown).take(j) =~= signatures_of(functions).take(j));
                        assert(after.routines[j] == before.routines[j]);
                    } else {
                        assert(signatures_of(grown).take(j) =~= signatures_of(functions));
                    }
                }
            },
        }
    }
}

/// What is built of fewer statements comes first in what is built of more.
pub proof fn lemma_build_prefix(start: Build, statements: Seq<StatementView>, n: nat, more: nat)
    requires
        n <= more <= statements.len(),
        lower_statements(start, statements, more) is Ok,
    ensures
        lower_statements(start, statements, n) is Ok,
        lower_statements(start, statements, n)->Ok_0.stores.is_prefix_of(
            lower_statements(start, statements, more)->Ok_0.stores,
        ),
        lower_statements(start, statements, n)->Ok_0.routines.is_prefix_of(
            lower_statements(start, statements, more)->Ok_0.routines,
        ),
        lower_statements(start, statements, n)->Ok_0.layout.cells.len() <= lower_statements(
            start,
            statements,
            more,
        )->Ok_0.layout.cells.len(),
    decreases more,
{
    if n < more {
        lemma_build_prefix(start, statements, n, (more - 1) as nat);
    }
}

/// Whether every variable of the layout has a cell of its own among the
/// cells, which are no more than `capacity`.
pub open spec fn laid_out(layout: Layout, capacity: nat) -> bool {
    &&& layout.cells.len() <= capacity <= usize::MAX
    &&& forall|name: Seq<char>| #[trigger]
        layout.places.contains_key(name) ==> layout.places[name] < layout.cells.len()
    &&& forall|a: Seq<char>, b: Seq<char>|
        #![trigger layout.places.contains_key(a), layout.places.contains_key(b)]
        layout.places.contains_key(a) && layout.places.contains_key(b) && a != b
            ==> layout.places[a] != layout.places[b]
}

/// Whether the cells hold the value of every variable of the layout.
pub open spec fn holds(layout: Layout, variables: Map<Seq<char>, i64>, cells: Seq<Option<i64>>) -> bool {
    forall|name: Seq<char>| #[trigger]
        layout.places.contains_key(name) ==> variables.contains_key(name)
            && layout.places[name] < cells.len() && cells[layout.places[name] as int] == Some(
            variables[name],
        )
}

/// A variable that gets its cell and its value is held like the others.
pub proof fn lemma_placed_holds(
    layout: Layout,
    capacity: nat,
    variables: Map<Seq<char>, i64>,
    cells: Seq<Option<i64>>,
    name: Seq<char>,
    x: i64,
)
    requires
        laid_out(layout, capacity),
        placed(layout, name).0.cells.len() <= capacity,
        cells.len() == capacity,
        holds(layout, variables, cells),
    ensures
        laid_out(placed(layout, name).0, capacity),
        placed(layout, name).1 < capacity,
        holds(
            placed(layout, name).0,
            variables.insert(name, x),
            cells.update(placed(layout, name).1 as int, Some(x)),
        ),
{
    let (after, cell) = placed(layout, name);
    let stored = cells.update(cell as int, Some(x));
    let bound = variables.insert(name, x);
    assert forall|other: Seq<char>| #[trigger] after.places.contains_key(other) implies bound.contains_key(
        other,
    ) && after.places[other] < stored.len() && stored[after.places[other] as int] == Some(
        bound[other],
    ) by {
        if other != name {
            assert(layout.places.contains_key(other));
            if layout.places.contains_key(name) {
                assert(layout.places[other] != layout.places[name]);
            }
        }
    }
    assert forall|a: Seq<char>, b: Seq<char>|
        #![trigger after.places.contains_key(a), after.places.contains_key(b)]
        after.places.contains_key(a) && after.places.contains_key(b) && a != b implies after.places[a]
        != after.places[b] by {
        if !layout.places.contains_key(name) {
            if a != name {
                assert(layout.places.contains_key(a));
            }
            if b != name {
                assert(layout.places.contains_key(b));
            }
        }
    }
    assert forall|other: Seq<char>| #[trigger] after.places.contains_key(other) implies after.places[other]
        < after.cells.len() by {
        if other != name {
            assert(layout.places.contains_key(other));
        }
    }
}

/// The inputs that were read are held at their cells.
pub proof fn lemma_inputs_held(
    names: Seq<Seq<char>>,
    inputs: Seq<i64>,
    capacity: nat,
    whole: Seq<nat>,
    n: nat,
)
    requires
        n <= names.len(),
        names.len() == inputs.len(),
        lower_inputs(names, names.len()).0.cells.len() <= capacity <= usize::MAX,
        whole == lower_inputs(names, names.len()).1,
    ensures
        laid_out(lower_inputs(names, n).0, capacity),
        lower_inputs(names, n).1 == whole.take(n as int),
        read_inputs(blank_cells(capacity), whole, inputs, n) is Some,
        read_inputs(blank_cells(capacity), whole, inputs, n).unwrap().len() == capacity,
        holds(
            lower_inputs(names, n).0,
            bind_inputs(empty_state(), names, inputs, n).variables,
            read_inputs(blank_cells(capacity), whole, inputs, n).unwrap(),
        ),
        bind_inputs(empty_state(), names, inputs, n).functions == Seq::<FunctionView>::empty(),
    decreases n,
{
    lemma_inputs_grow(names, n, names.len());
    lemma_inputs_len(names, names.len());
    if n == 0 {
        assert(whole.take(0) =~= lower_inputs(names, 0).1);
    } else {
        lemma_inputs_held(names, inputs, capacity, whole, (n - 1) as nat);
        lemma_inputs_grow(names, (n - 1) as nat, names.len());
        let before = lower_inputs(names, (n - 1) as nat).0;
        let cells = read_inputs(blank_cells(capacity), whole, inputs, (n - 1) as nat).unwrap();
        let variables = bind_inputs(empty_state(), names, inputs, (n - 1) as nat).variables;
        assert(whole.take(n as int) =~= whole.take(n - 1).push(whole[n - 1]));
        assert(lower_inputs(names, n).1 == lower_inputs(names, (n - 1) as nat).1.push(
            placed(before, names[n - 1]).1 as nat,
        ));
        assert(whole.take(n as int)[n - 1] == whole[n - 1]);
        assert(whole[n - 1] == placed(before, names[n - 1]).1 as nat);
        lemma_placed_holds(before, capacity, variables, cells, names[n - 1], inputs[n - 1]);
    }
}

/// The layout of fewer inputs has no more cells than that of more, and
/// the cells of fewer inputs come first among those of more.
pub proof fn lemma_inputs_grow(names: Seq<Seq<char>>, n: nat, more: nat)
    requires
        n <= more <= names.len(),
    ensures
        lower_inputs(names, n).0.cells.len() <= lower_inputs(names, more).0.cells.len(),
        lower_inputs(names, n).1.is_prefix_of(lower_inputs(names, more).1),
    decreases more,
{
    if n < more {
        lemma_inputs_grow(names, n, (more - 1) as nat);
    }
}

/// Each input has a cell.
pub proof fn lemma_inputs_len(names: Seq<Seq<char>>, n: nat)
    requires
        n <= names.len(),
    ensures
        lower_inputs(names, n).1.len() == n,
    decreases n,
{
    if n > 0 {
        lemma_inputs_len(names, (n - 1) as nat);
    }
}

/// The statements that were lowered run in the interpreter as their stores
/// run in the entry routine: after each statement, the cells hold the
/// values of the variables.
pub proof fn lemma_statements_simulated(
    functions: Seq<FunctionView>,
    routines: Seq<RoutineView>,
    statements: Seq<StatementView>,
    layout: Layout,
    state: State,
    cells: Seq<Option<i64>>,
    capacity: nat,
    n: nat,
)
    requires
        n <= statements.len(),
        lower_statements(first_build(layout), statements, statements.len()) is Ok,
        functions == functions_of(statements, statements.len()),
        implements(routines, functions),
        laid_out(layout, capacity),
        lower_statements(first_build(layout), statements, statements.len())->Ok_0.layout.cells.len()
            <= capacity,
        cells.len() == capacity,
        holds(layout, state.variables, cells),
        state.functions == Seq::<FunctionView>::empty(),
    ensures
        lower_statements(first_build(layout), statements, n) is Ok,
        run_statements(state, statements, n) is Ok,
        run_statements(state, statements, n)->Ok_0.functions == functions_of(statements, n),
        run_stores(
            routines,
            cells,
            lower_statements(first_build(layout), statements, statements.len())->Ok_0.stores,
            lower_statements(first_build(layout), statements, n)->Ok_0.stores.len(),
        ) is Some,
        run_stores(
            routines,
            cells,
            lower_statements(first_build(layout), statements, statements.len())->Ok_0.stores,
            lower_statements(first_build(layout), statements, n)->Ok_0.stores.len(),
        ).unwrap().len() == capacity,
        laid_out(lower_statements(first_build(layout), statements, n)->Ok_0.layout, capacity),
        holds(
            lower_statements(first_build(layout), statements, n)->Ok_0.layout,
            run_statements(state, statements, n)->Ok_0.variables,
            run_stores(
                routines,
                cells,
                lower_statements(first_build(layout), statements, statements.len())->Ok_0.stores,
                lower_statements(first_build(layout), statements, n)->Ok_0.stores.len(),
            ).unwrap(),
        ),
    decreases n,
{
    let start = first_build(layout);
    let whole = lower_statements(start, statements, statements.len())->Ok_0;
    lemma_build_prefix(start, statements, n, statements.len());
    if n == 0 {
        assert(state.functions =~= functions_of(statements, 0));
    } else {
        let m = (n - 1) as nat;
        lemma_statements_simulated(
            functions,
            routines,
            statements,
            layout,
            state,
            cells,
            capacity,
            m,
        );
        lemma_build_prefix(start, statements, m, statements.len());
        lemma_built(layout, statements, m);
        lemma_functions_of_prefix(statements, m, statements.len());
        let before = lower_statements(start, statements, m)->Ok_0;
        let after = lower_statements(start, statements, n)->Ok_0;
        let ran = run_statements(state, statements, m)->Ok_0;
        let held = run_stores(routines, cells, whole.stores, before.stores.len()).unwrap();
        let defined = functions_of(statements, m);
        let k = defined.len();
        match statements[n - 1] {
            StatementView::FnDefinition(name, params, body) => {},
            StatementView::VarAssignment(name, expression) => {
                let scope = entry_scope(before.signatures, before.layout);
                let frame = Frame { params: seq![], cells: held, locals: seq![] };
                assert(sees(scope, functions, k)) by {
                    assert forall|i: int| 0 <= i < k implies #[trigger] scope.signatures[i]
                        == signatures_of(functions)[i] by {
                        assert(defined[i] == functions[i]);
                    }
                }
                assert(agrees(scope, ran.variables, frame)) by {
                    assert forall|other: Seq<char>| #[trigger]
                        scope.places.contains_key(other) implies ran.variables.contains_key(other)
                        && scope.places[other] < frame.cells.len()
                        && frame.cells[scope.places[other] as int] == Some(ran.variables[other]) by {
                        assert(before.layout.places.contains_key(other));
                    }
                }
                lemma_lowered_expression(
                    functions,
                    routines,
                    k,
                    scope,
                    ran.variables,
                    frame,
                    expression,
                );
                lemma_expression_ignores_later(defined, functions, k, ran.variables, expression);
                let value = lower_expression(scope, expression)->Ok_0;
                let x = eval_expression(functions, k, ran.variables, expression)->Ok_0;
                lemma_more_routines(routines, BUILT_IN as nat + k, routines.len(), frame, value);
                let (placed_layout, cell) = placed(before.layout, name);
                assert(after.stores == before.stores.push(StoreView { cell: cell as nat, value }));
                assert(whole.stores[before.stores.len() as int] == after.stores[before.stores.len() as int]);
                lemma_placed_holds(before.layout, capacity, ran.variables, held, name, x);
            },
        }
    }
}

/// Outputs that have cells have them one by one.
pub proof fn lemma_lower_outputs_each(places: Map<Seq<char>, usize>, names: Seq<Seq<char>>, n: nat)
    requires
        n <= names.len(),
        lower_outputs(places, names, names.len()) is Ok,
    ensures
        lower_outputs(places, names, n) is Ok,
        lower_outputs(places, names, n)->Ok_0 == lower_outputs(places, names, names.len())->Ok_0.take(
            n as int,
        ),
        lower_outputs(places, names, n)->Ok_0.len() == n,
    decreases names.len() - n,
{
    let whole = lower_outputs(places, names, names.len())->Ok_0;
    lemma_lower_outputs_len(places, names, names.len());
    if n < names.len() {
        lemma_lower_outputs_each(places, names, n + 1);
        let next = lower_outputs(places, names, n + 1)->Ok_0;
        assert(next.take(n as int) =~= whole.take(n as int));
        assert(next.drop_last() =~= lower_outputs(places, names, n)->Ok_0);
    } else {
        lemma_lower_outputs_len(places, names, n);
        assert(whole.take(n as int) =~= whole);
    }
}

/// Each output that has a cell has one.
pub proof fn lemma_lower_outputs_len(places: Map<Seq<char>, usize>, names: Seq<Seq<char>>, n: nat)
    requires
        n <= names.len(),
    ensures
        lower_outputs(places, names, n) matches Ok(cells) ==> cells.len() == n,
    decreases n,
{
    if n > 0 {
        lemma_lower_outputs_len(places, names, (n - 1) as nat);
    }
}

/// The outputs are read from their cells as the interpreter reads them
/// from its variables.
pub proof fn lemma_outputs_simulated(
    layout: Layout,
    variables: Map<Seq<char>, i64>,
    cells: Seq<Option<i64>>,
    names: Seq<Seq<char>>,
    n: nat,
)
    requires
        n <= names.len(),
        holds(layout, variables, cells),
        lower_outputs(layout.places, names, names.len()) is Ok,
    ensures
        read_outputs(variables, names, n) is Ok,
        read_cells(cells, lower_outputs(layout.places, names, names.len())->Ok_0, n) == Some(
            read_outputs(variables, names, n)->Ok_0,
        ),
    decreases n,
{
    lemma_lower_outputs_each(layout.places, names, names.len());
    if n > 0 {
        lemma_outputs_simulated(layout, variables, cells, names, (n - 1) as nat);
        lemma_lower_outputs_each(layout.places, names, n);
        lemma_lower_outputs_each(layout.places, names, (n - 1) as nat);
        let whole = lower_outputs(layout.places, names, names.len())->Ok_0;
        assert(layout.places.contains_key(names[n - 1]));
        assert(whole.take(n as int)[n - 1] == whole[n - 1]);
        assert(lower_outputs(layout.places, names, n)->Ok_0 == lower_outputs(
            layout.places,
            names,
            (n - 1) as nat,
        )->Ok_0.push(layout.places[names[n - 1]] as nat));
    }
}

/// How a run of the interpreter ends, told as a run of a unit ends.
pub open spec fn outcome_of(result: Result<Seq<i64>, ErrorView>) -> OutcomeView {
    match result {
        Ok(outputs) => OutcomeView::Outputs(outputs),
        Err(ErrorView::IncorrectInputCount { inputs_count, provided_count }) => OutcomeView::Usage {
            expected: inputs_count,
            provided: provided_count,
        },
        Err(_) => OutcomeView::Undefined,
    }
}

/// The translation unit of a program computes what the interpreter
/// computes: on any inputs, a run of the unit ends with the outputs that
/// the interpreter gives, or, where the number of inputs is wrong, with
/// the report of the two counts that the interpreter's error names. The
/// interpreter fails in no other way on a program that lowers, and the
/// unit never does what the machine leaves undefined.
pub proof fn lemma_unit_runs_as_interpreted(program: Program, unit: TranslationUnit, inputs: Seq<i64>)
    requires
        lower_program(program@) == Ok::<UnitView, crate::compiler::ErrorView>(unit@),
    ensures
        run_unit(unit@, inputs) == outcome_of(run_program(program@, inputs)),
        run_unit(unit@, inputs) != OutcomeView::Undefined,
{
    let p = program@;
    let lowered = lower_program(p)->Ok_0;
    let names = p.inputs;
    let statements = p.statements;
    lemma_inputs_len(names, names.len());
    assert(unit@.entry.inputs == lower_inputs(names, names.len()).1);
    if names.len() == inputs.len() {
        let capacity = unit@.entry.cells.len();
        assert(capacity <= usize::MAX) by {
            assert(capacity == unit.entry.cells.len());
        }
        let (layout, input_cells) = lower_inputs(names, names.len());
        let start = first_build(layout);
        let build = lower_statements(start, statements, statements.len())->Ok_0;
        let functions = functions_of(statements, statements.len());
        let routines = unit@.routines;
        assert(countable(statements)) by {
            assert forall|i: int| 0 <= i < statements.len() implies (
            #[trigger] statements[i] matches StatementView::FnDefinition(_, params, _)
                ==> params.len() <= usize::MAX) by {
                let statement = program.statements.0[i];
                assert(statements[i] == statement@);
                match statement {
                    crate::ast::Statement::FnDefinition(_, params, _) => {
                        assert(crate::ast::names_view(params@).len() == params.len());
                    },
                    _ => {},
                }
            }
        }
        lemma_functions_of_countable(statements, statements.len());
        lemma_built(layout, statements, statements.len());
        assert(routines == built_in_routines() + build.routines);
        assert(implements(routines, functions)) by {
            assert forall|j: int| 0 <= j < functions.len() implies lower_function(
                signatures_of(functions).take(j),
                functions[j].name,
                functions[j].params,
                functions[j].body,
            ) == Ok::<RoutineView, crate::compiler::ErrorView>(
                #[trigger] user_routine(routines, j),
            ) by {
                assert(user_routine(routines, j) == build.routines[j]);
            }
        }
        lemma_build_prefix(start, statements, 0, statements.len());
        lemma_inputs_held(names, inputs, capacity, input_cells, names.len());
        assert(input_cells.take(names.len() as int) =~= input_cells) by {
            lemma_inputs_len(names, names.len());
        }
        let state = bind_inputs(empty_state(), names, inputs, names.len());
        let read = read_inputs(blank_cells(capacity), input_cells, inputs, names.len()).unwrap();
        lemma_statements_simulated(
            functions,
            routines,
            statements,
            layout,
            state,
            read,
            capacity,
            statements.len(),
        );
        let ran = run_statements(state, statements, statements.len())->Ok_0;
        let written = run_stores(routines, read, build.stores, build.stores.len()).unwrap();
        lemma_outputs_simulated(build.layout, ran.variables, written, p.outputs, p.outputs.len());
        let output_cells = lower_outputs(build.layout.places, p.outputs, p.outputs.len())->Ok_0;
        lemma_lower_outputs_len(build.layout.places, p.outputs, p.outputs.len());
        assert(unit@.entry.cells == build.layout.cells);
        assert(unit@.entry.stores == build.stores);
        assert(unit@.entry.outputs == output_cells);
        assert(crate::semantics::run_to_end(empty_state(), p, inputs) == Ok::<State, ErrorView>(ran));
        assert(run_program(p, inputs) == read_outputs(ran.variables, p.outputs, p.outputs.len()));
        assert(run_unit(unit@, inputs) == OutcomeView::Outputs(
            read_outputs(ran.variables, p.outputs, p.outputs.len())->Ok_0,
        ));
    }
}

} // verus!
