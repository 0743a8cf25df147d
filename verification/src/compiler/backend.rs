//! A backend that carries a translation unit out directly, without a
//! machine: each operation yields what the unit's meaning says it yields.

use vstd::prelude::*;
use crate::arith::lemma_truncated_quotient_bounds;
use crate::compiler::target::{
    binary, blank_cells, cells_view, eval_value, eval_values, read_cells, read_inputs,
    routines_view, run_stores, run_unit, stores_view, values_view, Arithmetic, Binary, Frame,
    OutcomeView, Relation, Routine, RoutineView, StoreView, TranslationUnit, Value, ValueView,
};

verus! {

/// How a run of a translation unit ends.
#[derive(Debug, PartialEq, Eq)]
pub enum Outcome {
    /// It wrote out these integers.
    Outputs(Vec<i64>),
    /// It was given another number of arguments than it has inputs, and
    /// reported both numbers.
    Usage { expected: usize, provided: usize },
    /// It did what the machine leaves undefined.
    Undefined,
}

impl View for Outcome {
    type V = OutcomeView;

    open spec fn view(&self) -> OutcomeView {
        match *self {
            Outcome::Outputs(values) => OutcomeView::Outputs(values@),
            Outcome::Usage { expected, provided } => OutcomeView::Usage {
                expected: expected as nat,
                provided: provided as nat,
            },
            Outcome::Undefined => OutcomeView::Undefined,
        }
    }
}

fn truth(holds: bool) -> (value: i64)
    ensures
        value == crate::compiler::target::truth(holds),
{
    if holds {
        1
    } else {
        0
    }
}

/// What an operation on two integers yields.
pub fn apply_binary(op: Binary, x: i64, y: i64) -> (value: Option<i64>)
    ensures
        value == binary(op, x, y),
{
    match op {
        Binary::Wrapping(Arithmetic::Add) => Some(x.wrapping_add(y)),
        Binary::Wrapping(Arithmetic::Subtract) => Some(x.wrapping_sub(y)),
        Binary::Wrapping(Arithmetic::Multiply) => Some(x.wrapping_mul(y)),
        Binary::Overflows(Arithmetic::Add) => Some(truth(x.checked_add(y).is_none())),
        Binary::Overflows(Arithmetic::Subtract) => Some(truth(x.checked_sub(y).is_none())),
        Binary::Overflows(Arithmetic::Multiply) => Some(truth(x.checked_mul(y).is_none())),
        Binary::Quotient => {
            proof {
                if y != 0 {
                    lemma_truncated_quotient_bounds(x as int, y as int);
                }
            }
            x.checked_div(y)
        },
        Binary::Compare(Relation::Equal) => Some(truth(x == y)),
        Binary::Compare(Relation::Less) => Some(truth(x < y)),
        Binary::Compare(Relation::AtLeast) => Some(truth(x >= y)),
        Binary::Xor => Some(truth((x != 0) != (y != 0))),
        Binary::And => Some(truth(x != 0 && y != 0)),
        Binary::Or => Some(truth(x != 0 || y != 0)),
    }
}

/// What an operation yields among the first `limit` routines.
pub fn evaluate(
    routines: &Vec<Routine>,
    limit: usize,
    params: &Vec<i64>,
    cells: &Vec<Option<i64>>,
    locals: &mut Vec<i64>,
    value: &Value,
) -> (result: Option<i64>)
    requires
        limit <= routines.len(),
    ensures
        final(locals)@ == old(locals)@,
        result == eval_value(
            routines_view(routines@),
            limit as nat,
            Frame { params: params@, cells: cells@, locals: old(locals)@ },
            value@,
        ),
    decreases limit, value, 0nat,
{
    match value {
        Value::Constant(n) => Some(*n),
        Value::Parameter(i) => if *i < params.len() {
            Some(params[*i])
        } else {
            None
        },
        Value::Load(i) => if *i < cells.len() {
            cells[*i]
        } else {
            None
        },
        Value::Bound => if locals.len() > 0 {
            Some(locals[locals.len() - 1])
        } else {
            None
        },
        Value::Let(bound, body) => {
            let x = evaluate(routines, limit, params, cells, locals, bound)?;
            locals.push(x);
            let result = evaluate(routines, limit, params, cells, locals, body);
            locals.pop();
            assert(locals@ =~= old(locals)@);
            result
        },
        Value::Binary(op, a, b) => {
            let x = evaluate(routines, limit, params, cells, locals, a)?;
            let y = evaluate(routines, limit, params, cells, locals, b)?;
            apply_binary(*op, x, y)
        },
        Value::Select(test, chosen, otherwise) => {
            let x = evaluate(routines, limit, params, cells, locals, test)?;
            if x != 0 {
                evaluate(routines, limit, params, cells, locals, chosen)
            } else {
                evaluate(routines, limit, params, cells, locals, otherwise)
            }
        },
        Value::Call(routine, args) => {
            proof {
                assert(value@ == ValueView::Call(*routine as nat, values_view(args@)));
                if *routine < routines.len() {
                    assert(routines_view(routines@)[*routine as int] == routines[*routine as int]@);
                }
            }
            if *routine >= limit || routines[*routine].params.len() != args.len() {
                return None;
            }
            let values = evaluate_all(routines, limit, params, cells, locals, args)?;
            let none: Vec<Option<i64>> = Vec::new();
            let mut fresh: Vec<i64> = Vec::new();
            assert(none@ =~= Seq::<Option<i64>>::empty());
            assert(fresh@ =~= Seq::<i64>::empty());
            evaluate(routines, *routine, &values, &none, &mut fresh, &routines[*routine].body)
        },
    }
}

/// What the operations yield, from left to right.
#[verifier::loop_isolation(false)]
fn evaluate_all(
    routines: &Vec<Routine>,
    limit: usize,
    params: &Vec<i64>,
    cells: &Vec<Option<i64>>,
    locals: &mut Vec<i64>,
    values: &Vec<Value>,
) -> (results: Option<Vec<i64>>)
    requires
        limit <= routines.len(),
    ensures
        final(locals)@ == old(locals)@,
        match eval_values(
            routines_view(routines@),
            limit as nat,
            Frame { params: params@, cells: cells@, locals: old(locals)@ },
            values_view(values@),
            values.len() as nat,
        ) {
            Some(xs) => results matches Some(r) && r@ == xs,
            None => results is None,
        },
    decreases limit, values, 0nat,
{
    let ghost frame = Frame { params: params@, cells: cells@, locals: old(locals)@ };
    let ghost views = values_view(values@);
    let mut results: Vec<i64> = Vec::new();
    let mut i: usize = 0;
    while i < values.len()
        invariant
            i <= values.len(),
            locals@ == old(locals)@,
            eval_values(routines_view(routines@), limit as nat, frame, views, i as nat) == Some(
                results@,
            ),
        decreases values.len() - i,
    {
        match evaluate(routines, limit, params, cells, locals, &values[i]) {
            Some(x) => results.push(x),
            None => {
                proof {
                    assert(eval_values(
                        routines_view(routines@),
                        limit as nat,
                        frame,
                        views,
                        (i + 1) as nat,
                    ) is None);
                    lemma_eval_values_fail(
                        routines_view(routines@),
                        limit as nat,
                        frame,
                        views,
                        (i + 1) as nat,
                        views.len(),
                    );
                }
                return None;
            },
        }
        i += 1;
    }
    Some(results)
}

/// Once the first operations have been undefined, so have any more.
pub proof fn lemma_eval_values_fail(
    routines: Seq<RoutineView>,
    limit: nat,
    frame: Frame,
    values: Seq<ValueView>,
    failed: nat,
    n: nat,
)
    requires
        failed <= n <= values.len(),
        eval_values(routines, limit, frame, values, failed) is None,
    ensures
        eval_values(routines, limit, frame, values, n) is None,
    decreases n,
{
    if failed < n {
        lemma_eval_values_fail(routines, limit, frame, values, failed, (n - 1) as nat);
    }
}

/// Once the first stores have been undefined, so have any more.
pub proof fn lemma_run_stores_fail(
    routines: Seq<RoutineView>,
    cells: Seq<Option<i64>>,
    stores: Seq<StoreView>,
    failed: nat,
    n: nat,
)
    requires
        failed <= n <= stores.len(),
        run_stores(routines, cells, stores, failed) is None,
    ensures
        run_stores(routines, cells, stores, n) is None,
    decreases n,
{
    if failed < n {
        lemma_run_stores_fail(routines, cells, stores, failed, (n - 1) as nat);
    }
}

/// Once the first inputs have had no cell, neither have any more.
pub proof fn lemma_read_inputs_fail(
    cells: Seq<Option<i64>>,
    places: Seq<nat>,
    inputs: Seq<i64>,
    failed: nat,
    n: nat,
)
    requires
        failed <= n <= places.len(),
        n <= inputs.len(),
        read_inputs(cells, places, inputs, failed) is None,
    ensures
        read_inputs(cells, places, inputs, n) is None,
    decreases n,
{
    if failed < n {
        lemma_read_inputs_fail(cells, places, inputs, failed, (n - 1) as nat);
    }
}

/// Once the first cells have held nothing, neither have any more.
pub proof fn lemma_read_cells_fail(cells: Seq<Option<i64>>, places: Seq<nat>, failed: nat, n: nat)
    requires
        failed <= n <= places.len(),
        read_cells(cells, places, failed) is None,
    ensures
        read_cells(cells, places, n) is None,
    decreases n,
{
    if failed < n {
        lemma_read_cells_fail(cells, places, failed, (n - 1) as nat);
    }
}

/// Runs the entry routine of a unit on the given arguments.
#[verifier::loop_isolation(false)]
pub fn run(unit: &TranslationUnit, inputs: &Vec<i64>) -> (outcome: Outcome)
    ensures
        outcome@ == run_unit(unit@, inputs@),
{
    let entry = &unit.entry;
    if inputs.len() != entry.inputs.len() {
        return Outcome::Usage { expected: entry.inputs.len(), provided: inputs.len() };
    }
    let ghost routines = routines_view(unit.routines@);
    let ghost places = cells_view(entry.inputs@);
    let ghost stores = stores_view(entry.stores@);
    let ghost outputs = cells_view(entry.outputs@);
    let mut cells: Vec<Option<i64>> = Vec::new();
    let mut c: usize = 0;
    while c < entry.cells.len()
        invariant
            c <= entry.cells.len(),
            cells@ == blank_cells(c as nat),
        decreases entry.cells.len() - c,
    {
        cells.push(None);
        assert(cells@ =~= blank_cells((c + 1) as nat));
        c += 1;
    }
    let ghost blank = cells@;
    let mut i: usize = 0;
    while i < inputs.len()
        invariant
            i <= inputs.len(),
            read_inputs(blank, places, inputs@, i as nat) == Some(cells@),
        decreases inputs.len() - i,
    {
        let place = entry.inputs[i];
        if place >= cells.len() {
            proof {
                assert(read_inputs(blank, places, inputs@, (i + 1) as nat) is None);
                lemma_read_inputs_fail(blank, places, inputs@, (i + 1) as nat, inputs@.len());
            }
            return Outcome::Undefined;
        }
        cells.set(place, Some(inputs[i]));
        i += 1;
    }
    let ghost read = cells@;
    let none: Vec<i64> = Vec::new();
    let mut locals: Vec<i64> = Vec::new();
    assert(none@ =~= Seq::<i64>::empty());
    assert(locals@ =~= Seq::<i64>::empty());
    let mut j: usize = 0;
    while j < entry.stores.len()
        invariant
            j <= entry.stores.len(),
            locals@ == Seq::<i64>::empty(),
            none@ == Seq::<i64>::empty(),
            run_stores(routines, read, stores, j as nat) == Some(cells@),
        decreases entry.stores.len() - j,
    {
        let store = &entry.stores[j];
        let x = evaluate(
            &unit.routines,
            unit.routines.len(),
            &none,
            &cells,
            &mut locals,
            &store.value,
        );
        let x = match x {
            Some(x) if store.cell < cells.len() => x,
            _ => {
                proof {
                    assert(run_stores(routines, read, stores, (j + 1) as nat) is None);
                    lemma_run_stores_fail(routines, read, stores, (j + 1) as nat, stores.len());
                }
                return Outcome::Undefined;
            },
        };
        cells.set(store.cell, Some(x));
        j += 1;
    }
    let mut results: Vec<i64> = Vec::new();
    let mut k: usize = 0;
    while k < entry.outputs.len()
        invariant
            k <= entry.outputs.len(),
            read_cells(cells@, outputs, k as nat) == Some(results@),
        decreases entry.outputs.len() - k,
    {
        let place = entry.outputs[k];
        let held = if place < cells.len() {
            cells[place]
        } else {
            None
        };
        match held {
            Some(x) => results.push(x),
            None => {
                proof {
                    assert(read_cells(cells@, outputs, (k + 1) as nat) is None);
                    lemma_read_cells_fail(cells@, outputs, (k + 1) as nat, outputs.len());
                }
                return Outcome::Undefined;
            },
        }
        k += 1;
    }
    Outcome::Outputs(results)
}

} // verus!
