//! The operations that a native backend has to offer, as data, and what
//! they compute.
//!
//! A translation unit is a list of routines and one entry routine. A
//! routine takes integers by position and gives back the integer that its
//! body computes. A body is a tree of operations: constants, reads of
//! parameters, storage cells and temporaries, the overflow-detecting
//! arithmetic of the machine, comparisons, a choice between two branches,
//! and calls of routines that stand earlier in the unit. Truth is the
//! integer one and falsehood zero.
//!
//! What the machine leaves undefined has no value here: a division by zero
//! or of `i64::MIN` by `-1`, a read of what was never written, and a call
//! that fits no routine.

use vstd::prelude::*;
use crate::arith::truncated_quotient;
use crate::ast::{clone_names, names_view, Name};

verus! {

/// An arithmetic primitive that reports overflow beside its wrapped result.
#[derive(Debug, Clone, Copy, PartialEq, Eq, Structural)]
pub enum Arithmetic {
    Add,
    Subtract,
    Multiply,
}

/// A signed comparison.
#[derive(Debug, Clone, Copy, PartialEq, Eq, Structural)]
pub enum Relation {
    Equal,
    Less,
    AtLeast,
}

/// An operation on two integers.
#[derive(Debug, Clone, Copy, PartialEq, Eq, Structural)]
pub enum Binary {
    /// The result of the primitive, wrapped to 64 bits.
    Wrapping(Arithmetic),
    /// One where the primitive overflows on the operands, else zero.
    Overflows(Arithmetic),
    /// The quotient rounded toward zero. The machine leaves it undefined
    /// for a zero divisor and for `i64::MIN` by `-1`.
    Quotient,
    /// One where the relation holds, else zero.
    Compare(Relation),
    /// One where exactly one operand is not zero, else zero.
    Xor,
    /// One where neither operand is zero, else zero.
    And,
    /// One where either operand is not zero, else zero.
    Or,
}

/// An operation that yields an integer.
#[derive(Debug, PartialEq, Eq)]
pub enum Value {
    /// The integer itself.
    Constant(i64),
    /// The parameter of the routine at this position.
    Parameter(usize),
    /// What the storage cell of this number holds.
    Load(usize),
    /// The temporary of the nearest enclosing `Let`.
    Bound,
    /// The second operation, with the value of the first as its temporary.
    Let(Box<Value>, Box<Value>),
    /// An operation on the values of two operations, the left one first.
    Binary(Binary, Box<Value>, Box<Value>),
    /// The second operation where the first is not zero, else the third.
    /// Only the chosen one is carried out.
    Select(Box<Value>, Box<Value>, Box<Value>),
    /// A call of the routine of this number on the values of the arguments,
    /// which are computed from left to right.
    Call(usize, Vec<Value>),
}

/// The view of a [`Value`].
pub enum ValueView {
    Constant(i64),
    Parameter(nat),
    Load(nat),
    Bound,
    Let(Box<ValueView>, Box<ValueView>),
    Binary(Binary, Box<ValueView>, Box<ValueView>),
    Select(Box<ValueView>, Box<ValueView>, Box<ValueView>),
    Call(nat, Seq<ValueView>),
}

pub open spec fn value_view(value: Value) -> ValueView
    decreases value,
{
    match value {
        Value::Constant(n) => ValueView::Constant(n),
        Value::Parameter(i) => ValueView::Parameter(i as nat),
        Value::Load(i) => ValueView::Load(i as nat),
        Value::Bound => ValueView::Bound,
        Value::Let(a, b) => ValueView::Let(Box::new(value_view(*a)), Box::new(value_view(*b))),
        Value::Binary(op, a, b) => ValueView::Binary(
            op,
            Box::new(value_view(*a)),
            Box::new(value_view(*b)),
        ),
        Value::Select(c, a, b) => ValueView::Select(
            Box::new(value_view(*c)),
            Box::new(value_view(*a)),
            Box::new(value_view(*b)),
        ),
        Value::Call(routine, args) => ValueView::Call(routine as nat, values_view(args@)),
    }
}

/// The views of a sequence of operations, in order.
pub open spec fn values_view(values: Seq<Value>) -> Seq<ValueView>
    decreases values,
{
    Seq::new(
        values.len(),
        |i: int|
            if 0 <= i < values.len() {
                value_view(values[i])
            } else {
                arbitrary()
            },
    )
}

impl View for Value {
    type V = ValueView;

    open spec fn view(&self) -> ValueView {
        value_view(*self)
    }
}

/// A routine: integers in by position, one integer out.
#[derive(Debug, PartialEq, Eq)]
pub struct Routine {
    pub name: Name,
    pub params: Vec<Name>,
    pub body: Value,
}

/// The view of a [`Routine`].
pub struct RoutineView {
    pub name: Seq<char>,
    pub params: Seq<Seq<char>>,
    pub body: ValueView,
}

impl View for Routine {
    type V = RoutineView;

    open spec fn view(&self) -> RoutineView {
        RoutineView { name: self.name@, params: names_view(self.params@), body: self.body@ }
    }
}

/// The views of a sequence of routines, in order.
pub open spec fn routines_view(routines: Seq<Routine>) -> Seq<RoutineView> {
    Seq::new(routines.len(), |i: int| routines[i]@)
}

/// A store of the value of an operation into a storage cell.
#[derive(Debug, PartialEq, Eq)]
pub struct Store {
    pub cell: usize,
    pub value: Value,
}

/// The view of a [`Store`].
pub struct StoreView {
    pub cell: nat,
    pub value: ValueView,
}

impl View for Store {
    type V = StoreView;

    open spec fn view(&self) -> StoreView {
        StoreView { cell: self.cell as nat, value: self.value@ }
    }
}

/// The views of a sequence of stores, in order.
pub open spec fn stores_view(stores: Seq<Store>) -> Seq<StoreView> {
    Seq::new(stores.len(), |i: int| stores[i]@)
}

/// The entry routine. It checks that it was given one argument for each
/// input and otherwise reports both counts and stops; reads the inputs, in
/// order, into their cells; carries out the stores in order; and writes out
/// what the output cells hold, in order.
#[derive(Debug, PartialEq, Eq)]
pub struct Entry {
    /// The name of each storage cell.
    pub cells: Vec<Name>,
    /// The cell of each input.
    pub inputs: Vec<usize>,
    pub stores: Vec<Store>,
    /// The cell of each output.
    pub outputs: Vec<usize>,
}

/// The view of an [`Entry`].
pub struct EntryView {
    pub cells: Seq<Seq<char>>,
    pub inputs: Seq<nat>,
    pub stores: Seq<StoreView>,
    pub outputs: Seq<nat>,
}

/// The numbers of a sequence of cells, in order.
pub open spec fn cells_view(cells: Seq<usize>) -> Seq<nat> {
    Seq::new(cells.len(), |i: int| cells[i] as nat)
}

impl View for Entry {
    type V = EntryView;

    open spec fn view(&self) -> EntryView {
        EntryView {
            cells: names_view(self.cells@),
            inputs: cells_view(self.inputs@),
            stores: stores_view(self.stores@),
            outputs: cells_view(self.outputs@),
        }
    }
}

/// What the driver hands to the backend.
#[derive(Debug, PartialEq, Eq)]
pub struct TranslationUnit {
    pub routines: Vec<Routine>,
    pub entry: Entry,
}

/// The view of a [`TranslationUnit`].
pub struct UnitView {
    pub routines: Seq<RoutineView>,
    pub entry: EntryView,
}

impl View for TranslationUnit {
    type V = UnitView;

    open spec fn view(&self) -> UnitView {
        UnitView { routines: routines_view(self.routines@), entry: self.entry@ }
    }
}

/// What an operation can read: the parameters of its routine, the storage
/// cells, each written or not, and the temporaries.
pub struct Frame {
    pub params: Seq<i64>,
    pub cells: Seq<Option<i64>>,
    pub locals: Seq<i64>,
}

/// The integer that stands for a truth value.
pub open spec fn truth(holds: bool) -> i64 {
    if holds {
        1
    } else {
        0
    }
}

/// The exact result of an arithmetic primitive.
pub open spec fn exact(op: Arithmetic, a: i64, b: i64) -> int {
    match op {
        Arithmetic::Add => a + b,
        Arithmetic::Subtract => a - b,
        Arithmetic::Multiply => a * b,
    }
}

/// Whether the exact result of a primitive leaves the range of `i64`.
pub open spec fn overflows(op: Arithmetic, a: i64, b: i64) -> bool {
    exact(op, a, b) < i64::MIN || exact(op, a, b) > i64::MAX
}

/// The result of a primitive wrapped to 64 bits.
pub open spec fn wrapped(op: Arithmetic, a: i64, b: i64) -> i64 {
    match op {
        Arithmetic::Add => vstd::wrapping::i64_specs::wrapping_add(a, b),
        Arithmetic::Subtract => vstd::wrapping::i64_specs::wrapping_sub(a, b),
        Arithmetic::Multiply => vstd::wrapping::i64_specs::wrapping_mul(a, b),
    }
}

/// Whether a relation holds.
pub open spec fn related(relation: Relation, a: i64, b: i64) -> bool {
    match relation {
        Relation::Equal => a == b,
        Relation::Less => a < b,
        Relation::AtLeast => a >= b,
    }
}

/// What an operation on two integers yields, where the machine defines it.
pub open spec fn binary(op: Binary, x: i64, y: i64) -> Option<i64> {
    match op {
        Binary::Wrapping(primitive) => Some(wrapped(primitive, x, y)),
        Binary::Overflows(primitive) => Some(truth(overflows(primitive, x, y))),
        Binary::Quotient => if y == 0 || (x == i64::MIN && y == -1) {
            None
        } else {
            Some(truncated_quotient(x as int, y as int) as i64)
        },
        Binary::Compare(relation) => Some(truth(related(relation, x, y))),
        Binary::Xor => Some(truth((x != 0) != (y != 0))),
        Binary::And => Some(truth(x != 0 && y != 0)),
        Binary::Or => Some(truth(x != 0 || y != 0)),
    }
}

/// What an operation yields among the first `limit` routines, where the
/// machine defines it.
pub open spec fn eval_value(
    routines: Seq<RoutineView>,
    limit: nat,
    frame: Frame,
    value: ValueView,
) -> Option<i64>
    decreases limit, value, 0nat,
{
    match value {
        ValueView::Constant(n) => Some(n),
        ValueView::Parameter(i) => if i < frame.params.len() {
            Some(frame.params[i as int])
        } else {
            None
        },
        ValueView::Load(i) => if i < frame.cells.len() {
            frame.cells[i as int]
        } else {
            None
        },
        ValueView::Bound => if frame.locals.len() > 0 {
            Some(frame.locals.last())
        } else {
            None
        },
        ValueView::Let(bound, body) => match eval_value(routines, limit, frame, *bound) {
            None => None,
            Some(x) => eval_value(
                routines,
                limit,
                Frame { params: frame.params, cells: frame.cells, locals: frame.locals.push(x) },
                *body,
            ),
        },
        ValueView::Binary(op, a, b) => match eval_value(routines, limit, frame, *a) {
            None => None,
            Some(x) => match eval_value(routines, limit, frame, *b) {
                None => None,
                Some(y) => binary(op, x, y),
            },
        },
        ValueView::Select(test, chosen, otherwise) => match eval_value(
            routines,
            limit,
            frame,
            *test,
        ) {
            None => None,
            Some(x) => if x != 0 {
                eval_value(routines, limit, frame, *chosen)
            } else {
                eval_value(routines, limit, frame, *otherwise)
            },
        },
        ValueView::Call(routine, args) => if routine >= limit || routine >= routines.len()
            || routines[routine as int].params.len() != args.len() {
            None
        } else {
            match eval_values(routines, limit, frame, args, args.len()) {
                None => None,
                Some(values) => eval_value(
                    routines,
                    routine,
                    Frame { params: values, cells: seq![], locals: seq![] },
                    routines[routine as int].body,
                ),
            }
        },
    }
}

/// What the first `n` of the operations yield, from left to right.
pub open spec fn eval_values(
    routines: Seq<RoutineView>,
    limit: nat,
    frame: Frame,
    values: Seq<ValueView>,
    n: nat,
) -> Option<Seq<i64>>
    decreases limit, values, n,
{
    if n == 0 || n > values.len() {
        Some(seq![])
    } else {
        match eval_values(routines, limit, frame, values, (n - 1) as nat) {
            None => None,
            Some(before) => match eval_value(routines, limit, frame, values[n - 1]) {
                None => None,
                Some(x) => Some(before.push(x)),
            },
        }
    }
}

/// How a run of a translation unit ends.
pub enum OutcomeView {
    /// It wrote out these integers.
    Outputs(Seq<i64>),
    /// It was given another number of arguments than it has inputs, and
    /// reported both numbers.
    Usage { expected: nat, provided: nat },
    /// It did what the machine leaves undefined.
    Undefined,
}

/// The cells after the first `n` inputs have been read into theirs.
pub open spec fn read_inputs(
    cells: Seq<Option<i64>>,
    places: Seq<nat>,
    inputs: Seq<i64>,
    n: nat,
) -> Option<Seq<Option<i64>>>
    decreases n,
{
    if n == 0 || n > places.len() || n > inputs.len() {
        Some(cells)
    } else {
        match read_inputs(cells, places, inputs, (n - 1) as nat) {
            None => None,
            Some(before) => if places[n - 1] < before.len() {
                Some(before.update(places[n - 1] as int, Some(inputs[n - 1])))
            } else {
                None
            },
        }
    }
}

/// The cells after the first `n` stores have been carried out.
pub open spec fn run_stores(
    routines: Seq<RoutineView>,
    cells: Seq<Option<i64>>,
    stores: Seq<StoreView>,
    n: nat,
) -> Option<Seq<Option<i64>>>
    decreases n,
{
    if n == 0 || n > stores.len() {
        Some(cells)
    } else {
        match run_stores(routines, cells, stores, (n - 1) as nat) {
            None => None,
            Some(before) => match eval_value(
                routines,
                routines.len(),
                Frame { params: seq![], cells: before, locals: seq![] },
                stores[n - 1].value,
            ) {
                None => None,
                Some(x) => if stores[n - 1].cell < before.len() {
                    Some(before.update(stores[n - 1].cell as int, Some(x)))
                } else {
                    None
                },
            },
        }
    }
}

/// What the first `n` of the given cells hold.
pub open spec fn read_cells(cells: Seq<Option<i64>>, places: Seq<nat>, n: nat) -> Option<Seq<i64>>
    decreases n,
{
    if n == 0 || n > places.len() {
        Some(seq![])
    } else {
        match read_cells(cells, places, (n - 1) as nat) {
            None => None,
            Some(before) => if places[n - 1] < cells.len() {
                match cells[places[n - 1] as int] {
                    None => None,
                    Some(x) => Some(before.push(x)),
                }
            } else {
                None
            },
        }
    }
}

/// Cells of which none has been written.
pub open spec fn blank_cells(n: nat) -> Seq<Option<i64>> {
    Seq::new(n, |i: int| None::<i64>)
}

/// How a run of the unit on the given arguments ends.
pub open spec fn run_unit(unit: UnitView, inputs: Seq<i64>) -> OutcomeView {
    if inputs.len() != unit.entry.inputs.len() {
        OutcomeView::Usage { expected: unit.entry.inputs.len(), provided: inputs.len() }
    } else {
        match read_inputs(
            blank_cells(unit.entry.cells.len()),
            unit.entry.inputs,
            inputs,
            inputs.len(),
        ) {
            None => OutcomeView::Undefined,
            Some(read) => match run_stores(
                unit.routines,
                read,
                unit.entry.stores,
                unit.entry.stores.len(),
            ) {
                None => OutcomeView::Undefined,
                Some(written) => match read_cells(
                    written,
                    unit.entry.outputs,
                    unit.entry.outputs.len(),
                ) {
                    None => OutcomeView::Undefined,
                    Some(outputs) => OutcomeView::Outputs(outputs),
                },
            },
        }
    }
}

} // verus!
