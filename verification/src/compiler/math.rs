//! The four saturating routines, built from the primitives of the machine.
//!
//! Addition, subtraction and multiplication ask the overflow-detecting
//! primitive first. Where it reports no overflow its result stands; where
//! it does, the signs of the operands tell on which side the exact result
//! left the range, and that bound is the result. Division never reaches the
//! machine's quotient with operands for which it is undefined: a zero
//! divisor and `i64::MIN / -1` are caught before, and saturate by the signs
//! of the operands as well.

use vstd::prelude::*;
use crate::arith::{lemma_product_sign, lemma_truncated_quotient_bounds, truncated_quotient};
use crate::ast::{names_view, Name, Operator};
use crate::compiler::target::{
    binary, eval_value, overflows, related, truth, wrapped, Arithmetic, Binary, Frame, Relation,
    Routine, RoutineView, Value, ValueView,
};
use crate::semantics::apply;

verus! {

/// The integer itself.
pub(crate) fn constant(n: i64) -> (value: Value)
    ensures
        value@ == ValueView::Constant(n),
{
    Value::Constant(n)
}

/// The parameter at this position.
pub(crate) fn parameter(position: usize) -> (value: Value)
    ensures
        value@ == ValueView::Parameter(position as nat),
{
    Value::Parameter(position)
}

/// An operation on the values of two operations.
pub(crate) fn operation(op: Binary, a: Value, b: Value) -> (value: Value)
    ensures
        value@ == ValueView::Binary(op, Box::new(a@), Box::new(b@)),
{
    Value::Binary(op, Box::new(a), Box::new(b))
}

/// A choice between two operations by the value of a third.
pub(crate) fn select(test: Value, chosen: Value, otherwise: Value) -> (value: Value)
    ensures
        value@ == ValueView::Select(Box::new(test@), Box::new(chosen@), Box::new(otherwise@)),
{
    Value::Select(Box::new(test), Box::new(chosen), Box::new(otherwise))
}

/// Whether the value of an operation is negative.
pub(crate) fn negative(a: Value) -> (value: Value)
    ensures
        value@ == negative_view(a@),
{
    operation(Binary::Compare(Relation::Less), a, constant(0))
}

pub open spec fn negative_view(a: ValueView) -> ValueView {
    ValueView::Binary(
        Binary::Compare(Relation::Less),
        Box::new(a),
        Box::new(ValueView::Constant(0)),
    )
}

/// A choice between the two bounds of `i64`: the least where the test is
/// not zero, else the greatest.
pub(crate) fn saturate(to_min: Value) -> (value: Value)
    ensures
        value@ == saturate_view(to_min@),
{
    select(to_min, constant(i64::MIN), constant(i64::MAX))
}

pub open spec fn saturate_view(to_min: ValueView) -> ValueView {
    ValueView::Select(
        Box::new(to_min),
        Box::new(ValueView::Constant(i64::MIN)),
        Box::new(ValueView::Constant(i64::MAX)),
    )
}

/// The body of a saturating routine whose primitive reports overflow: the
/// wrapped result where there is none, else the bound that `to_min` picks.
pub open spec fn guarded_view(primitive: Arithmetic, to_min: ValueView) -> ValueView {
    ValueView::Select(
        Box::new(
            ValueView::Binary(
                Binary::Overflows(primitive),
                Box::new(ValueView::Parameter(0)),
                Box::new(ValueView::Parameter(1)),
            ),
        ),
        Box::new(saturate_view(to_min)),
        Box::new(
            ValueView::Binary(
                Binary::Wrapping(primitive),
                Box::new(ValueView::Parameter(0)),
                Box::new(ValueView::Parameter(1)),
            ),
        ),
    )
}

fn guarded(primitive: Arithmetic, to_min: Value) -> (value: Value)
    ensures
        value@ == guarded_view(primitive, to_min@),
{
    select(
        operation(Binary::Overflows(primitive), parameter(0), parameter(1)),
        saturate(to_min),
        operation(Binary::Wrapping(primitive), parameter(0), parameter(1)),
    )
}

/// Whether the signs of the two parameters differ.
pub open spec fn signs_differ_view() -> ValueView {
    ValueView::Binary(
        Binary::Xor,
        Box::new(negative_view(ValueView::Parameter(0))),
        Box::new(negative_view(ValueView::Parameter(1))),
    )
}

fn signs_differ() -> (value: Value)
    ensures
        value@ == signs_differ_view(),
{
    operation(Binary::Xor, negative(parameter(0)), negative(parameter(1)))
}

/// Whether the machine leaves the quotient of the two parameters
/// undefined: the divisor is zero, or the operands are `i64::MIN` and `-1`.
pub open spec fn quotient_undefined_view() -> ValueView {
    ValueView::Binary(
        Binary::Or,
        Box::new(
            ValueView::Binary(
                Binary::Compare(Relation::Equal),
                Box::new(ValueView::Parameter(1)),
                Box::new(ValueView::Constant(0)),
            ),
        ),
        Box::new(
            ValueView::Binary(
                Binary::And,
                Box::new(
                    ValueView::Binary(
                        Binary::Compare(Relation::Equal),
                        Box::new(ValueView::Parameter(0)),
                        Box::new(ValueView::Constant(i64::MIN)),
                    ),
                ),
                Box::new(
                    ValueView::Binary(
                        Binary::Compare(Relation::Equal),
                        Box::new(ValueView::Parameter(1)),
                        Box::new(ValueView::Constant(-1i64)),
                    ),
                ),
            ),
        ),
    )
}

fn quotient_undefined() -> (value: Value)
    ensures
        value@ == quotient_undefined_view(),
{
    operation(
        Binary::Or,
        operation(Binary::Compare(Relation::Equal), parameter(1), constant(0)),
        operation(
            Binary::And,
            operation(Binary::Compare(Relation::Equal), parameter(0), constant(i64::MIN)),
            operation(Binary::Compare(Relation::Equal), parameter(1), constant(-1)),
        ),
    )
}

/// The body of the saturating routine of an operator.
pub open spec fn saturating_body(operator: Operator) -> ValueView {
    match operator {
        Operator::Add => guarded_view(
            Arithmetic::Add,
            negative_view(ValueView::Parameter(1)),
        ),
        Operator::Subtract => guarded_view(
            Arithmetic::Subtract,
            ValueView::Binary(
                Binary::Compare(Relation::AtLeast),
                Box::new(ValueView::Parameter(1)),
                Box::new(ValueView::Constant(0)),
            ),
        ),
        Operator::Multiply => guarded_view(Arithmetic::Multiply, signs_differ_view()),
        Operator::Divide => ValueView::Select(
            Box::new(quotient_undefined_view()),
            Box::new(saturate_view(signs_differ_view())),
            Box::new(
                ValueView::Binary(
                    Binary::Quotient,
                    Box::new(ValueView::Parameter(0)),
                    Box::new(ValueView::Parameter(1)),
                ),
            ),
        ),
    }
}

/// The place of the saturating routine of an operator in a unit.
pub open spec fn routine_of(operator: Operator) -> nat {
    match operator {
        Operator::Add => 0,
        Operator::Subtract => 1,
        Operator::Multiply => 2,
        Operator::Divide => 3,
    }
}

/// The number of routines that stand before those of the program.
pub const BUILT_IN: usize = 4;

/// The name of the saturating routine of an operator.
pub open spec fn saturating_name(operator: Operator) -> Seq<char> {
    match operator {
        Operator::Add => "saturating_add"@,
        Operator::Subtract => "saturating_sub"@,
        Operator::Multiply => "saturating_mul"@,
        Operator::Divide => "saturating_div"@,
    }
}

/// The names of the parameters of the saturating routine of an operator.
pub open spec fn saturating_params(operator: Operator) -> Seq<Seq<char>> {
    match operator {
        Operator::Divide => seq!["numerator"@, "denominator"@],
        _ => seq!["lhs"@, "rhs"@],
    }
}

/// The saturating routine of an operator.
pub open spec fn saturating_routine(operator: Operator) -> RoutineView {
    RoutineView {
        name: saturating_name(operator),
        params: saturating_params(operator),
        body: saturating_body(operator),
    }
}

/// Whether a routine is the saturating routine of an operator.
pub open spec fn is_saturating(routine: RoutineView, operator: Operator) -> bool {
    routine == saturating_routine(operator)
}

fn operands() -> (params: Vec<Name>)
    ensures
        names_view(params@) == seq!["lhs"@, "rhs"@],
{
    let params = vec![Name::new("lhs"), Name::new("rhs")];
    assert(names_view(params@) =~= seq!["lhs"@, "rhs"@]);
    params
}

/// The routine that adds with saturation.
pub fn define_saturating_add() -> (routine: Routine)
    ensures
        routine@ == saturating_routine(Operator::Add),
{
    Routine {
        name: Name::new("saturating_add"),
        params: operands(),
        body: guarded(Arithmetic::Add, negative(parameter(1))),
    }
}

/// The routine that subtracts with saturation.
pub fn define_saturating_sub() -> (routine: Routine)
    ensures
        routine@ == saturating_routine(Operator::Subtract),
{
    Routine {
        name: Name::new("saturating_sub"),
        params: operands(),
        body: guarded(
            Arithmetic::Subtract,
            operation(Binary::Compare(Relation::AtLeast), parameter(1), constant(0)),
        ),
    }
}

/// The routine that multiplies with saturation.
pub fn define_saturating_mul() -> (routine: Routine)
    ensures
        routine@ == saturating_routine(Operator::Multiply),
{
    Routine {
        name: Name::new("saturating_mul"),
        params: operands(),
        body: guarded(Arithmetic::Multiply, signs_differ()),
    }
}

/// The routine that divides with saturation.
pub fn define_saturating_div() -> (routine: Routine)
    ensures
        routine@ == saturating_routine(Operator::Divide),
{
    let params = vec![Name::new("numerator"), Name::new("denominator")];
    assert(names_view(params@) =~= seq!["numerator"@, "denominator"@]);
    Routine {
        name: Name::new("saturating_div"),
        params,
        body: select(
            quotient_undefined(),
            saturate(signs_differ()),
            operation(Binary::Quotient, parameter(0), parameter(1)),
        ),
    }
}

/// A call of the saturating routine of an operator on two operations.
pub open spec fn saturating_call(operator: Operator, lhs: ValueView, rhs: ValueView) -> ValueView {
    ValueView::Call(routine_of(operator), seq![lhs, rhs])
}

fn call_saturating(operator: Operator, lhs: Value, rhs: Value) -> (value: Value)
    ensures
        value@ == saturating_call(operator, lhs@, rhs@),
{
    let routine: usize = match operator {
        Operator::Add => 0,
        Operator::Subtract => 1,
        Operator::Multiply => 2,
        Operator::Divide => 3,
    };
    let args = vec![lhs, rhs];
    let value = Value::Call(routine, args);
    assert(crate::compiler::target::values_view(args@) =~= seq![lhs@, rhs@]);
    value
}

/// A call of the routine that adds with saturation.
pub fn saturating_add(lhs: Value, rhs: Value) -> (value: Value)
    ensures
        value@ == saturating_call(Operator::Add, lhs@, rhs@),
{
    call_saturating(Operator::Add, lhs, rhs)
}

/// A call of the routine that subtracts with saturation.
pub fn saturating_sub(lhs: Value, rhs: Value) -> (value: Value)
    ensures
        value@ == saturating_call(Operator::Subtract, lhs@, rhs@),
{
    call_saturating(Operator::Subtract, lhs, rhs)
}

/// A call of the routine that multiplies with saturation.
pub fn saturating_mul(lhs: Value, rhs: Value) -> (value: Value)
    ensures
        value@ == saturating_call(Operator::Multiply, lhs@, rhs@),
{
    call_saturating(Operator::Multiply, lhs, rhs)
}

/// A call of the routine that divides with saturation.
pub fn saturating_div(numerator: Value, denominator: Value) -> (value: Value)
    ensures
        value@ == saturating_call(Operator::Divide, numerator@, denominator@),
{
    call_saturating(Operator::Divide, numerator, denominator)
}

/// What an operation on two operations yields, from what they yield.
pub proof fn lemma_eval_binary(
    routines: Seq<RoutineView>,
    limit: nat,
    frame: Frame,
    op: Binary,
    a: ValueView,
    b: ValueView,
)
    ensures
        eval_value(routines, limit, frame, ValueView::Binary(op, Box::new(a), Box::new(b)))
            == match (eval_value(routines, limit, frame, a), eval_value(routines, limit, frame, b)) {
            (Some(x), Some(y)) => binary(op, x, y),
            _ => None,
        },
{
}

/// What a choice yields, from what its test yields.
pub proof fn lemma_eval_select(
    routines: Seq<RoutineView>,
    limit: nat,
    frame: Frame,
    test: ValueView,
    chosen: ValueView,
    otherwise: ValueView,
)
    ensures
        eval_value(
            routines,
            limit,
            frame,
            ValueView::Select(Box::new(test), Box::new(chosen), Box::new(otherwise)),
        ) == match eval_value(routines, limit, frame, test) {
            None => None,
            Some(x) => if x != 0 {
                eval_value(routines, limit, frame, chosen)
            } else {
                eval_value(routines, limit, frame, otherwise)
            },
        },
{
}

/// The sign test yields whether the value is negative.
pub proof fn lemma_eval_negative(
    routines: Seq<RoutineView>,
    limit: nat,
    frame: Frame,
    a: ValueView,
    x: i64,
)
    requires
        eval_value(routines, limit, frame, a) == Some(x),
    ensures
        eval_value(routines, limit, frame, negative_view(a)) == Some(truth(x < 0)),
{
    lemma_eval_binary(
        routines,
        limit,
        frame,
        Binary::Compare(Relation::Less),
        a,
        ValueView::Constant(0),
    );
}

/// The choice between the bounds yields the bound that the test picks.
pub proof fn lemma_eval_saturate(
    routines: Seq<RoutineView>,
    limit: nat,
    frame: Frame,
    to_min: ValueView,
    x: i64,
)
    requires
        eval_value(routines, limit, frame, to_min) == Some(x),
    ensures
        eval_value(routines, limit, frame, saturate_view(to_min)) == Some(
            if x != 0 {
                i64::MIN
            } else {
                i64::MAX
            },
        ),
{
    lemma_eval_select(
        routines,
        limit,
        frame,
        to_min,
        ValueView::Constant(i64::MIN),
        ValueView::Constant(i64::MAX),
    );
}

/// The test of the signs yields whether they differ.
pub proof fn lemma_eval_signs_differ(routines: Seq<RoutineView>, limit: nat, frame: Frame)
    requires
        frame.params.len() == 2,
    ensures
        eval_value(routines, limit, frame, signs_differ_view()) == Some(
            truth((frame.params[0] < 0) != (frame.params[1] < 0)),
        ),
{
    let left = ValueView::Parameter(0);
    let right = ValueView::Parameter(1);
    lemma_eval_negative(routines, limit, frame, left, frame.params[0]);
    lemma_eval_negative(routines, limit, frame, right, frame.params[1]);
    lemma_eval_binary(
        routines,
        limit,
        frame,
        Binary::Xor,
        negative_view(left),
        negative_view(right),
    );
}

/// A guarded body yields the exact result where it is in range, and else
/// the bound that the test picks.
pub proof fn lemma_eval_guarded(
    routines: Seq<RoutineView>,
    limit: nat,
    frame: Frame,
    primitive: Arithmetic,
    to_min: ValueView,
    x: i64,
)
    requires
        frame.params.len() == 2,
        eval_value(routines, limit, frame, to_min) == Some(x),
    ensures
        eval_value(routines, limit, frame, guarded_view(primitive, to_min)) == Some(
            if overflows(primitive, frame.params[0], frame.params[1]) {
                if x != 0 {
                    i64::MIN
                } else {
                    i64::MAX
                }
            } else {
                crate::compiler::target::exact(primitive, frame.params[0], frame.params[1]) as i64
            },
        ),
{
    let left = ValueView::Parameter(0);
    let right = ValueView::Parameter(1);
    lemma_eval_binary(routines, limit, frame, Binary::Overflows(primitive), left, right);
    lemma_eval_binary(routines, limit, frame, Binary::Wrapping(primitive), left, right);
    lemma_eval_saturate(routines, limit, frame, to_min, x);
    lemma_eval_select(
        routines,
        limit,
        frame,
        ValueView::Binary(Binary::Overflows(primitive), Box::new(left), Box::new(right)),
        saturate_view(to_min),
        ValueView::Binary(Binary::Wrapping(primitive), Box::new(left), Box::new(right)),
    );
}

/// On any two integers, the body of a saturating routine yields what the
/// operator means: it is defined everywhere, and saturates.
pub proof fn lemma_saturating_body(
    routines: Seq<RoutineView>,
    limit: nat,
    frame: Frame,
    operator: Operator,
)
    requires
        frame.params.len() == 2,
    ensures
        eval_value(routines, limit, frame, saturating_body(operator)) == Some(
            apply(operator, frame.params[0], frame.params[1]),
        ),
{
    let a = frame.params[0];
    let b = frame.params[1];
    let left = ValueView::Parameter(0);
    let right = ValueView::Parameter(1);
    lemma_eval_signs_differ(routines, limit, frame);
    match operator {
        Operator::Add => {
            lemma_eval_negative(routines, limit, frame, right, b);
            lemma_eval_guarded(
                routines,
                limit,
                frame,
                Arithmetic::Add,
                negative_view(right),
                truth(b < 0),
            );
        },
        Operator::Subtract => {
            let test = ValueView::Binary(
                Binary::Compare(Relation::AtLeast),
                Box::new(right),
                Box::new(ValueView::Constant(0)),
            );
            lemma_eval_binary(
                routines,
                limit,
                frame,
                Binary::Compare(Relation::AtLeast),
                right,
                ValueView::Constant(0),
            );
            lemma_eval_guarded(routines, limit, frame, Arithmetic::Subtract, test, truth(b >= 0));
        },
        Operator::Multiply => {
            lemma_product_sign(a as int, b as int);
            lemma_eval_guarded(
                routines,
                limit,
                frame,
                Arithmetic::Multiply,
                signs_differ_view(),
                truth((a < 0) != (b < 0)),
            );
        },
        Operator::Divide => {
            let zero = ValueView::Binary(
                Binary::Compare(Relation::Equal),
                Box::new(right),
                Box::new(ValueView::Constant(0)),
            );
            let least = ValueView::Binary(
                Binary::Compare(Relation::Equal),
                Box::new(left),
                Box::new(ValueView::Constant(i64::MIN)),
            );
            let minus_one = ValueView::Binary(
                Binary::Compare(Relation::Equal),
                Box::new(right),
                Box::new(ValueView::Constant(-1i64)),
            );
            let wraps = ValueView::Binary(Binary::And, Box::new(least), Box::new(minus_one));
            let quotient = ValueView::Binary(Binary::Quotient, Box::new(left), Box::new(right));
            lemma_eval_binary(
                routines,
                limit,
                frame,
                Binary::Compare(Relation::Equal),
                right,
                ValueView::Constant(0),
            );
            lemma_eval_binary(
                routines,
                limit,
                frame,
                Binary::Compare(Relation::Equal),
                left,
                ValueView::Constant(i64::MIN),
            );
            lemma_eval_binary(
                routines,
                limit,
                frame,
                Binary::Compare(Relation::Equal),
                right,
                ValueView::Constant(-1i64),
            );
            lemma_eval_binary(routines, limit, frame, Binary::And, least, minus_one);
            lemma_eval_binary(routines, limit, frame, Binary::Or, zero, wraps);
            lemma_eval_binary(routines, limit, frame, Binary::Quotient, left, right);
            if b != 0 {
                lemma_truncated_quotient_bounds(a as int, b as int);
            }
            lemma_eval_saturate(
                routines,
                limit,
                frame,
                signs_differ_view(),
                truth((a < 0) != (b < 0)),
            );
            lemma_eval_select(
                routines,
                limit,
                frame,
                quotient_undefined_view(),
                saturate_view(signs_differ_view()),
                quotient,
            );
            if b != 0 && !(a == i64::MIN && b == -1) {
                assert(i64::MIN <= truncated_quotient(a as int, b as int) <= i64::MAX);
            }
        },
    }
}

} // verus!
