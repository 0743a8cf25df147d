//! Lowering of expressions.
//!
//! An operation becomes a call of the saturating routine of its operator, a
//! variable a read of the parameter or of the storage cell that holds it, an
//! application a call of the routine of the function that the name denotes
//! where the expression stands. A match computes its scrutinee once, as the
//! temporary of a `Let`, and then compares it with the value of each clause
//! in order: a chain of choices that ends in the default.

use vstd::prelude::*;
use crate::ast::{
    clauses_view, expressions_view, Expression, ExpressionView, Match, Matcher, Name, Operand,
    OperandView, Operator,
};
use crate::bindings::Bindings;
use crate::compiler::math::{
    constant, operation, saturating_add, saturating_call, saturating_div, saturating_mul,
    saturating_sub, select,
};
use crate::compiler::target::{values_view, Binary, Relation, Value, ValueView};
use crate::compiler::var::Var;
use crate::compiler::{Error, ErrorView};
use crate::semantics::clause_count;

verus! {

/// What a call has to know of a function: its name, the number of its
/// parameters and the number of its routine in the unit.
#[derive(Debug, PartialEq, Eq)]
pub struct Signature {
    pub name: Name,
    pub arity: usize,
    pub routine: usize,
}

/// The view of a [`Signature`].
pub struct SignatureView {
    pub name: Seq<char>,
    pub arity: nat,
    pub routine: nat,
}

impl View for Signature {
    type V = SignatureView;

    open spec fn view(&self) -> SignatureView {
        SignatureView { name: self.name@, arity: self.arity as nat, routine: self.routine as nat }
    }
}

/// The views of a sequence of signatures, in order.
pub open spec fn signatures_view(signatures: Seq<Signature>) -> Seq<SignatureView> {
    Seq::new(signatures.len(), |i: int| signatures[i]@)
}

/// Where an expression stands: the functions defined so far, of which it
/// sees the first `visible`; the place of each variable that it can read;
/// and whether the places are storage cells or parameters.
pub struct ExpressionSynthesiser<'a> {
    pub signatures: &'a Vec<Signature>,
    pub visible: usize,
    pub places: &'a Bindings<usize>,
    pub cells: bool,
}

/// The view of an [`ExpressionSynthesiser`].
pub struct ScopeView {
    pub signatures: Seq<SignatureView>,
    pub visible: nat,
    pub places: Map<Seq<char>, usize>,
    pub cells: bool,
}

impl<'a> View for ExpressionSynthesiser<'a> {
    type V = ScopeView;

    open spec fn view(&self) -> ScopeView {
        ScopeView {
            signatures: signatures_view(self.signatures@),
            visible: self.visible as nat,
            places: self.places@,
            cells: self.cells,
        }
    }
}

/// The index of the latest signature of `name` among the first `visible`.
pub open spec fn resolve_signature(
    signatures: Seq<SignatureView>,
    visible: nat,
    name: Seq<char>,
) -> Option<nat>
    decreases visible,
{
    if visible == 0 {
        None
    } else if visible <= signatures.len() && signatures[visible - 1].name == name {
        Some((visible - 1) as nat)
    } else {
        resolve_signature(signatures, (visible - 1) as nat, name)
    }
}

/// A signature resolves within what is visible, and to one of that name.
pub proof fn lemma_resolve_signature(signatures: Seq<SignatureView>, visible: nat, name: Seq<char>)
    ensures
        resolve_signature(signatures, visible, name) matches Some(k) ==> k < visible && k
            < signatures.len() && signatures[k as int].name == name,
    decreases visible,
{
    if visible > 0 {
        lemma_resolve_signature(signatures, (visible - 1) as nat, name);
    }
}

/// Where a variable is kept, where the scope has a place for it.
pub open spec fn variable(scope: ScopeView, name: Seq<char>) -> Option<Var> {
    if !scope.places.contains_key(name) {
        None
    } else if scope.cells {
        Some(Var::Stack(scope.places[name]))
    } else {
        Some(Var::Register(scope.places[name]))
    }
}

/// The read of a variable, where the scope has a place for it.
pub open spec fn read(scope: ScopeView, name: Seq<char>) -> Option<ValueView> {
    if !scope.places.contains_key(name) {
        None
    } else if scope.cells {
        Some(ValueView::Load(scope.places[name] as nat))
    } else {
        Some(ValueView::Parameter(scope.places[name] as nat))
    }
}

/// What an expression lowers to.
pub open spec fn lower_expression(scope: ScopeView, expression: ExpressionView) -> Result<
    ValueView,
    ErrorView,
>
    decreases expression, 0nat,
{
    match expression {
        ExpressionView::Operand(operand) => lower_operand(scope, operand),
        ExpressionView::Operation(operator, lhs, rhs) => match lower_expression(scope, *lhs) {
            Err(e) => Err(e),
            Ok(a) => match lower_expression(scope, *rhs) {
                Err(e) => Err(e),
                Ok(b) => Ok(saturating_call(operator, a, b)),
            },
        },
    }
}

/// What an operand lowers to.
pub open spec fn lower_operand(scope: ScopeView, operand: OperandView) -> Result<
    ValueView,
    ErrorView,
>
    decreases operand, clause_count(operand) + 1,
{
    match operand {
        OperandView::I64(n) => Ok(ValueView::Constant(n)),
        OperandView::Group(e) => lower_expression(scope, *e),
        OperandView::VarSubstitution(name) => match read(scope, name) {
            Some(value) => Ok(value),
            None => Err(ErrorView::UnknownVariable(name)),
        },
        OperandView::FnApplication(name, args) => match resolve_signature(
            scope.signatures,
            scope.visible,
            name,
        ) {
            None => Err(ErrorView::UnknownFunction(name)),
            Some(k) => if k >= scope.signatures.len() {
                Err(ErrorView::UnknownFunction(name))
            } else if scope.signatures[k as int].arity != args.len() {
                Err(
                    ErrorView::IncorrectArgumentCount {
                        name,
                        params_count: scope.signatures[k as int].arity,
                        provided_count: args.len(),
                    },
                )
            } else {
                match lower_arguments(scope, args, args.len()) {
                    Err(e) => Err(e),
                    Ok(values) => Ok(ValueView::Call(scope.signatures[k as int].routine, values)),
                }
            },
        },
        OperandView::Match(with, _, _) => match lower_expression(scope, *with) {
            Err(e) => Err(e),
            Ok(scrutinee) => match lower_clauses(scope, operand, 0) {
                Err(e) => Err(e),
                Ok(chain) => Ok(ValueView::Let(Box::new(scrutinee), Box::new(chain))),
            },
        },
    }
}

/// What the first `n` arguments lower to, or why the first of them that
/// does not lower does not.
pub open spec fn lower_arguments(scope: ScopeView, args: Seq<ExpressionView>, n: nat) -> Result<
    Seq<ValueView>,
    ErrorView,
>
    decreases args, n,
{
    if n == 0 || n > args.len() {
        Ok(seq![])
    } else {
        match lower_arguments(scope, args, (n - 1) as nat) {
            Err(e) => Err(e),
            Ok(values) => match lower_expression(scope, args[n - 1]) {
                Err(e) => Err(e),
                Ok(value) => Ok(values.push(value)),
            },
        }
    }
}

/// The comparison of the temporary with a value.
pub open spec fn matches_bound(value: ValueView) -> ValueView {
    ValueView::Binary(
        Binary::Compare(Relation::Equal),
        Box::new(ValueView::Bound),
        Box::new(value),
    )
}

/// What the clauses of a match from `from` on lower to, with its default:
/// the choices that stand inside the `Let` of the scrutinee.
pub open spec fn lower_clauses(scope: ScopeView, operand: OperandView, from: nat) -> Result<
    ValueView,
    ErrorView,
>
    decreases operand, clause_count(operand) - from,
{
    match operand {
        OperandView::Match(_, clauses, default) => if from >= clauses.len() {
            lower_expression(scope, *default)
        } else {
            match lower_expression(scope, clauses[from as int].0) {
                Err(e) => Err(e),
                Ok(value) => match lower_expression(scope, clauses[from as int].1) {
                    Err(e) => Err(e),
                    Ok(result) => match lower_clauses(scope, operand, from + 1) {
                        Err(e) => Err(e),
                        Ok(rest) => Ok(
                            ValueView::Select(
                                Box::new(matches_bound(value)),
                                Box::new(result),
                                Box::new(rest),
                            ),
                        ),
                    },
                },
            }
        },
        _ => Ok(ValueView::Bound),
    }
}

/// An operation or a refusal, by its view.
pub open spec fn lowered_view(result: Result<Value, Error>) -> Result<ValueView, ErrorView> {
    match result {
        Ok(value) => Ok(value@),
        Err(e) => Err(e@),
    }
}

/// Once the first arguments have not lowered, neither have any more.
pub proof fn lemma_lower_arguments_fail(
    scope: ScopeView,
    args: Seq<ExpressionView>,
    failed: nat,
    n: nat,
)
    requires
        failed <= n <= args.len(),
        lower_arguments(scope, args, failed) is Err,
    ensures
        lower_arguments(scope, args, n) == lower_arguments(scope, args, failed),
    decreases n,
{
    if failed < n {
        lemma_lower_arguments_fail(scope, args, failed, (n - 1) as nat);
    }
}

/// The index of the latest signature of `name` that the scope sees.
pub fn find_signature(scope: &ExpressionSynthesiser, name: &Name) -> (index: Option<usize>)
    requires
        scope.visible <= scope.signatures.len(),
    ensures
        match resolve_signature(scope@.signatures, scope@.visible, name@) {
            Some(k) => index == Some(k as usize) && k < scope.visible,
            None => index is None,
        },
{
    let mut i: usize = scope.visible;
    while i > 0
        invariant
            i <= scope.visible <= scope.signatures.len(),
            resolve_signature(scope@.signatures, scope@.visible, name@) == resolve_signature(
                scope@.signatures,
                i as nat,
                name@,
            ),
        decreases i,
    {
        i -= 1;
        if scope.signatures[i].name.equals(name) {
            return Some(i);
        }
    }
    None
}

/// Lowers an expression that reads the given variables, from storage
/// cells or from parameters, and sees the first `visible` of the functions.
pub fn synthesise_expression(
    expression: &Expression,
    vars: &Bindings<usize>,
    cells: bool,
    signatures: &Vec<Signature>,
    visible: usize,
) -> (value: Result<Value, Error>)
    requires
        visible <= signatures.len(),
    ensures
        lowered_view(value) == lower_expression(
            ScopeView {
                signatures: signatures_view(signatures@),
                visible: visible as nat,
                places: vars@,
                cells,
            },
            expression@,
        ),
{
    ExpressionSynthesiser { signatures, visible, places: vars, cells }.synthesise(expression)
}

impl<'a> ExpressionSynthesiser<'a> {
    /// Where a variable is kept.
    pub fn variable(&self, name: &Name) -> (var: Option<Var>)
        ensures
            var == variable(self@, name@),
    {
        match self.places.get(name) {
            Some(place) => Some(
                if self.cells {
                    Var::Stack(place)
                } else {
                    Var::Register(place)
                },
            ),
            None => None,
        }
    }

    /// Lowers an expression.
    pub fn synthesise(&self, expression: &Expression) -> (value: Result<Value, Error>)
        requires
            self.visible <= self.signatures.len(),
        ensures
            lowered_view(value) == lower_expression(self@, expression@),
        decreases expression, 1nat,
    {
        match expression {
            Expression::Operand(operand) => self.synthesise_operand(operand),
            Expression::Operation(operator, lhs, rhs) => self.synthesise_operation(
                *operator,
                lhs,
                rhs,
                Ghost(*expression),
            ),
        }
    }

    fn synthesise_operation(
        &self,
        operator: Operator,
        lhs: &Expression,
        rhs: &Expression,
        Ghost(whole): Ghost<Expression>,
    ) -> (value: Result<Value, Error>)
        requires
            self.visible <= self.signatures.len(),
            whole == Expression::Operation(operator, Box::new(*lhs), Box::new(*rhs)),
        ensures
            lowered_view(value) == lower_expression(self@, whole@),
        decreases whole, 0nat,
    {
        let lhs = self.synthesise(lhs)?;
        let rhs = self.synthesise(rhs)?;
        Ok(
            match operator {
                Operator::Subtract => saturating_sub(lhs, rhs),
                Operator::Add => saturating_add(lhs, rhs),
                Operator::Divide => saturating_div(lhs, rhs),
                Operator::Multiply => saturating_mul(lhs, rhs),
            },
        )
    }

    fn synthesise_operand(&self, operand: &Operand) -> (value: Result<Value, Error>)
        requires
            self.visible <= self.signatures.len(),
        ensures
            lowered_view(value) == lower_operand(self@, operand@),
        decreases operand, 0nat,
    {
        match operand {
            Operand::I64(n) => Ok(constant(*n)),
            Operand::Group(expression) => self.synthesise(expression),
            Operand::VarSubstitution(name) => match self.variable(name) {
                Some(var) => Ok(var.synthesise_substitution()),
                None => Err(Error::UnknownVariable(name.clone())),
            },
            Operand::FnApplication(name, arg_exprs) => synthesise_fn_application(
                name,
                arg_exprs,
                self,
            ),
            Operand::Match(match_) => {
                let with = self.synthesise(&match_.with)?;
                synthesise_match(with, match_, self)
            },
        }
    }
}

/// Lowers the application of a function to a call of its routine.
#[verifier::loop_isolation(false)]
pub fn synthesise_fn_application(name: &Name, arg_exprs: &Vec<Expression>, scope: &ExpressionSynthesiser) -> (value:
    Result<Value, Error>)
    requires
        scope.visible <= scope.signatures.len(),
    ensures
        lowered_view(value) == lower_operand(
            scope@,
            OperandView::FnApplication(name@, expressions_view(arg_exprs@)),
        ),
    decreases arg_exprs, 0nat,
{
    let ghost args = expressions_view(arg_exprs@);
    let index = match find_signature(scope, name) {
        Some(index) => index,
        None => {
            return Err(Error::UnknownFunction(name.clone()));
        },
    };
    let signature = &scope.signatures[index];
    if signature.arity != arg_exprs.len() {
        return Err(
            Error::IncorrectArgumentCount {
                name: name.clone(),
                params_count: signature.arity,
                provided_count: arg_exprs.len(),
            },
        );
    }
    let mut values: Vec<Value> = Vec::new();
    assert(values_view(values@) =~= Seq::<ValueView>::empty());
    let mut i: usize = 0;
    while i < arg_exprs.len()
        invariant
            i <= arg_exprs.len(),
            scope.visible <= scope.signatures.len(),
            args == expressions_view(arg_exprs@),
            lower_arguments(scope@, args, i as nat) == Ok::<Seq<ValueView>, ErrorView>(
                values_view(values@),
            ),
        decreases arg_exprs.len() - i,
    {
        match scope.synthesise(&arg_exprs[i]) {
            Ok(value) => {
                let ghost before = values_view(values@);
                values.push(value);
                assert(values_view(values@) =~= before.push(value@));
            },
            Err(e) => {
                proof {
                    assert(lower_arguments(scope@, args, (i + 1) as nat) == Err::<
                        Seq<ValueView>,
                        ErrorView,
                    >(e@));
                    lemma_lower_arguments_fail(scope@, args, (i + 1) as nat, args.len());
                }
                return Err(e);
            },
        }
        i += 1;
    }
    Ok(Value::Call(signature.routine, values))
}

/// Lowers a match whose scrutinee has been lowered to `with`.
pub fn synthesise_match(with: Value, match_: &Match, scope: &ExpressionSynthesiser) -> (value: Result<Value, Error>)
    requires
        scope.visible <= scope.signatures.len(),
    ensures
        lowered_view(value) == match lower_clauses(scope@, Operand::Match(*match_)@, 0) {
            Err(e) => Err(e),
            Ok(chain) => Ok(ValueView::Let(Box::new(with@), Box::new(chain))),
        },
    decreases match_, match_.clauses.len() + 1,
{
    let chain = synthesise_clauses(match_, 0, scope)?;
    Ok(Value::Let(Box::new(with), Box::new(chain)))
}

fn synthesise_clauses(match_: &Match, from: usize, scope: &ExpressionSynthesiser) -> (value: Result<Value, Error>)
    requires
        scope.visible <= scope.signatures.len(),
        from <= match_.clauses.len(),
    ensures
        lowered_view(value) == lower_clauses(scope@, Operand::Match(*match_)@, from as nat),
    decreases match_, match_.clauses.len() - from,
{
    proof {
        assert(Operand::Match(*match_)@ == OperandView::Match(
            Box::new(match_.with@),
            clauses_view(match_.clauses@),
            Box::new(match_.default@),
        ));
    }
    if from >= match_.clauses.len() {
        return scope.synthesise(&match_.default);
    }
    proof {
        assert(clauses_view(match_.clauses@)[from as int] == (
            match_.clauses[from as int].0@,
            match_.clauses[from as int].1@,
        ));
    }
    let value = match &match_.clauses[from].0 {
        Matcher::Value(value) => scope.synthesise(value)?,
    };
    let result = scope.synthesise(&match_.clauses[from].1)?;
    let rest = synthesise_clauses(match_, from + 1, scope)?;
    Ok(select(operation(Binary::Compare(Relation::Equal), Value::Bound, value), result, rest))
}

} // verus!
