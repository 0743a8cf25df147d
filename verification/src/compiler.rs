//! The code-generation driver: from a program to a translation unit for a
//! native backend.
//!
//! Names are resolved while the unit is built. A function becomes a routine
//! when it is defined, and its body is lowered among the functions defined
//! before it, so that a call goes to the routine that the caller saw at its
//! own definition. The assignments become the stores of the entry routine,
//! each lowered among the functions defined before it and the variables
//! bound before it. What the interpreter would find out while it runs (a
//! variable that is not bound, a function that is not defined, a call with
//! the wrong number of arguments) is refused here, before anything runs.

pub mod backend;
pub mod correctness;
pub mod expression;
pub mod function;
pub mod math;
pub mod param;
pub mod program;
pub mod target;
pub mod var;

use vstd::prelude::*;
use crate::ast::{names_view, Name, Operator, Program, ProgramView, Statement, StatementView};
use crate::compiler::expression::{signatures_view, Signature, SignatureView};
use crate::compiler::function::{lower_function, synthesise_function};
use crate::compiler::math::{
    define_saturating_add, define_saturating_div, define_saturating_mul, define_saturating_sub,
    is_saturating, saturating_routine, BUILT_IN,
};
use crate::compiler::program::{
    begin_main, define_main, lower_assignment, lower_inputs, lower_outputs,
    synthesise_assignment, Layout,
};
use crate::compiler::target::{
    cells_view, routines_view, stores_view, EntryView, Routine, RoutineView, StoreView,
    TranslationUnit, UnitView,
};

verus! {

/// Why a program has no translation unit.
#[derive(Debug, PartialEq, Eq)]
pub enum Error {
    /// An output that is no input and that no statement assigns.
    UnassignedOutput(Name),
    /// A variable that is read where nothing has bound it.
    UnknownVariable(Name),
    /// A call of a function that is not defined where the call stands.
    UnknownFunction(Name),
    /// A call with another number of arguments than the function has
    /// parameters.
    IncorrectArgumentCount { name: Name, params_count: usize, provided_count: usize },
}

/// The view of an [`Error`].
pub enum ErrorView {
    UnassignedOutput(Seq<char>),
    UnknownVariable(Seq<char>),
    UnknownFunction(Seq<char>),
    IncorrectArgumentCount { name: Seq<char>, params_count: nat, provided_count: nat },
}

impl View for Error {
    type V = ErrorView;

    open spec fn view(&self) -> ErrorView {
        match *self {
            Error::UnassignedOutput(name) => ErrorView::UnassignedOutput(name@),
            Error::UnknownVariable(name) => ErrorView::UnknownVariable(name@),
            Error::UnknownFunction(name) => ErrorView::UnknownFunction(name@),
            Error::IncorrectArgumentCount {
                name,
                params_count,
                provided_count,
            } => ErrorView::IncorrectArgumentCount {
                name: name@,
                params_count: params_count as nat,
                provided_count: provided_count as nat,
            },
        }
    }
}

/// What the statements have been lowered to so far: the routines of the
/// functions, a signature for each, the storage cells and the stores.
pub struct Build {
    pub routines: Seq<RoutineView>,
    pub signatures: Seq<SignatureView>,
    pub layout: Layout,
    pub stores: Seq<StoreView>,
}

/// What a statement adds: a definition a routine and its signature, an
/// assignment a store.
pub open spec fn lower_statement(build: Build, statement: StatementView) -> Result<Build, ErrorView> {
    match statement {
        StatementView::VarAssignment(name, expression) => match lower_assignment(
            build.signatures,
            build.layout,
            name,
            expression,
        ) {
            Err(e) => Err(e),
            Ok((layout, store)) => Ok(
                Build {
                    routines: build.routines,
                    signatures: build.signatures,
                    layout,
                    stores: build.stores.push(store),
                },
            ),
        },
        StatementView::FnDefinition(name, params, body) => match lower_function(
            build.signatures,
            name,
            params,
            body,
        ) {
            Err(e) => Err(e),
            Ok(routine) => Ok(
                Build {
                    routines: build.routines.push(routine),
                    signatures: build.signatures.push(
                        SignatureView {
                            name,
                            arity: params.len(),
                            routine: BUILT_IN as nat + build.routines.len(),
                        },
                    ),
                    layout: build.layout,
                    stores: build.stores,
                },
            ),
        },
    }
}

/// What the first `n` statements are lowered to, or why the first of them
/// that does not lower does not.
pub open spec fn lower_statements(start: Build, statements: Seq<StatementView>, n: nat) -> Result<
    Build,
    ErrorView,
>
    decreases n,
{
    if n == 0 || n > statements.len() {
        Ok(start)
    } else {
        match lower_statements(start, statements, (n - 1) as nat) {
            Err(e) => Err(e),
            Ok(before) => lower_statement(before, statements[n - 1]),
        }
    }
}

/// The four saturating routines, each at its place.
pub open spec fn built_in_routines() -> Seq<RoutineView> {
    seq![
        saturating_routine(Operator::Add),
        saturating_routine(Operator::Subtract),
        saturating_routine(Operator::Multiply),
        saturating_routine(Operator::Divide),
    ]
}

/// The translation unit of a program, or why it has none. The unit holds
/// the four saturating routines, then the routines of the functions in the
/// order of their definition, and the entry routine. The inputs get their
/// cells, the statements are lowered in order, then the outputs are looked
/// up; the first refusal is the result.
pub open spec fn lower_program(program: ProgramView) -> Result<UnitView, ErrorView> {
    let (layout, inputs) = lower_inputs(program.inputs, program.inputs.len());
    match lower_statements(
        Build { routines: seq![], signatures: seq![], layout, stores: seq![] },
        program.statements,
        program.statements.len(),
    ) {
        Err(e) => Err(e),
        Ok(build) => match lower_outputs(
            build.layout.places,
            program.outputs,
            program.outputs.len(),
        ) {
            Err(e) => Err(e),
            Ok(outputs) => Ok(
                UnitView {
                    routines: built_in_routines() + build.routines,
                    entry: EntryView {
                        cells: build.layout.cells,
                        inputs,
                        stores: build.stores,
                        outputs,
                    },
                },
            ),
        },
    }
}

/// Once the first statements have not lowered, neither have any more.
pub proof fn lemma_lower_statements_fail(
    start: Build,
    statements: Seq<StatementView>,
    failed: nat,
    n: nat,
)
    requires
        failed <= n <= statements.len(),
        lower_statements(start, statements, failed) is Err,
    ensures
        lower_statements(start, statements, n) == lower_statements(start, statements, failed),
    decreases n,
{
    if failed < n {
        lemma_lower_statements_fail(start, statements, failed, (n - 1) as nat);
    }
}

/// Lowers a program to a translation unit.
#[verifier::loop_isolation(false)]
pub fn compile(program: &Program) -> (unit: Result<TranslationUnit, Error>)
    ensures
        match lower_program(program@) {
            Ok(lowered) => unit matches Ok(u) && u@ == lowered,
            Err(e) => unit matches Err(x) && x@ == e,
        },
{
    let ghost statements = program@.statements;
    let mut routines: Vec<Routine> = Vec::new();
    routines.push(define_saturating_add());
    routines.push(define_saturating_sub());
    routines.push(define_saturating_mul());
    routines.push(define_saturating_div());
    let mut signatures: Vec<Signature> = Vec::new();
    let mut main = begin_main(&program.inputs);
    let ghost start = Build {
        routines: seq![],
        signatures: seq![],
        layout: main.layout(),
        stores: seq![],
    };
    let ghost inputs = cells_view(main.inputs@);
    assert(signatures_view(signatures@) =~= Seq::<SignatureView>::empty());
    assert(stores_view(main.stores@) =~= Seq::<StoreView>::empty());
    assert(routines_view(routines@).skip(BUILT_IN as int) =~= Seq::<RoutineView>::empty());
    let mut i: usize = 0;
    while i < program.statements.0.len()
        invariant
            i <= program.statements.0.len(),
            routines.len() >= BUILT_IN,
            is_saturating(routines[0]@, Operator::Add),
            is_saturating(routines[1]@, Operator::Subtract),
            is_saturating(routines[2]@, Operator::Multiply),
            is_saturating(routines[3]@, Operator::Divide),
            cells_view(main.inputs@) == inputs,
            lower_statements(start, statements, i as nat) == Ok::<Build, ErrorView>(
                Build {
                    routines: routines_view(routines@).skip(BUILT_IN as int),
                    signatures: signatures_view(signatures@),
                    layout: main.layout(),
                    stores: stores_view(main.stores@),
                },
            ),
        decreases program.statements.0.len() - i,
    {
        let ghost before_routines = routines_view(routines@);
        let ghost before_signatures = signatures_view(signatures@);
        match &program.statements.0[i] {
            Statement::FnDefinition(name, params, expr) => {
                let routine = match synthesise_function(name, params, expr, &signatures) {
                    Ok(routine) => routine,
                    Err(e) => {
                        proof {
                            assert(lower_statements(start, statements, (i + 1) as nat) == Err::<
                                Build,
                                ErrorView,
                            >(e@));
                            lemma_lower_statements_fail(
                                start,
                                statements,
                                (i + 1) as nat,
                                statements.len(),
                            );
                        }
                        return Err(e);
                    },
                };
                let signature = Signature {
                    name: name.clone(),
                    arity: params.len(),
                    routine: routines.len(),
                };
                let ghost routine_view = routine@;
                let ghost signature_view = signature@;
                signatures.push(signature);
                routines.push(routine);
                proof {
                    assert(signatures_view(signatures@) =~= before_signatures.push(signature_view));
                    assert(routines_view(routines@).skip(BUILT_IN as int) =~= before_routines.skip(
                        BUILT_IN as int,
                    ).push(routine_view));
                }
            },
            Statement::VarAssignment(name, expression) => {
                match synthesise_assignment(&mut main, name, expression, &signatures) {
                    Ok(()) => {},
                    Err(e) => {
                        proof {
                            assert(lower_statements(start, statements, (i + 1) as nat) == Err::<
                                Build,
                                ErrorView,
                            >(e@));
                            lemma_lower_statements_fail(
                                start,
                                statements,
                                (i + 1) as nat,
                                statements.len(),
                            );
                        }
                        return Err(e);
                    },
                }
            },
        }
        i += 1;
    }
    let entry = define_main(main, &program.outputs)?;
    let unit = TranslationUnit { routines, entry };
    proof {
        let collected = routines_view(routines@).skip(BUILT_IN as int);
        assert(unit@.routines =~= built_in_routines() + collected);
    }
    Ok(unit)
}

} // verus!
