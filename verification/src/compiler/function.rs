//! Lowering of function definitions.

use vstd::prelude::*;
use crate::ast::{clone_names, names_view, Expression, ExpressionView, Name};
use crate::bindings::Bindings;
use crate::compiler::expression::{
    lower_expression, synthesise_expression, ScopeView, Signature, SignatureView,
};
use crate::compiler::target::{Routine, RoutineView};
use crate::compiler::{Error, ErrorView};

verus! {

/// The position of each of the first `n` parameters, a later parameter of
/// the same name over an earlier one.
pub open spec fn param_places(params: Seq<Seq<char>>, n: nat) -> Map<Seq<char>, usize>
    decreases n,
{
    if n == 0 || n > params.len() {
        Map::empty()
    } else {
        param_places(params, (n - 1) as nat).insert(params[n - 1], (n - 1) as usize)
    }
}

/// The scope of the body of a function that is defined after the given
/// functions: it sees all of them, and reads its parameters.
pub open spec fn body_scope(signatures: Seq<SignatureView>, params: Seq<Seq<char>>) -> ScopeView {
    ScopeView {
        signatures,
        visible: signatures.len(),
        places: param_places(params, params.len()),
        cells: false,
    }
}

/// What a function definition lowers to.
pub open spec fn lower_function(
    signatures: Seq<SignatureView>,
    name: Seq<char>,
    params: Seq<Seq<char>>,
    body: ExpressionView,
) -> Result<RoutineView, ErrorView> {
    match lower_expression(body_scope(signatures, params), body) {
        Err(e) => Err(e),
        Ok(value) => Ok(RoutineView { name, params, body: value }),
    }
}

/// The position of each parameter.
pub(crate) fn place_params(params: &Vec<Name>) -> (places: Bindings<usize>)
    ensures
        places@ == param_places(names_view(params@), params.len() as nat),
{
    let mut places: Bindings<usize> = Bindings::new();
    let mut i: usize = 0;
    while i < params.len()
        invariant
            i <= params.len(),
            places@ == param_places(names_view(params@), i as nat),
        decreases params.len() - i,
    {
        places.insert(params[i].clone(), i);
        i += 1;
    }
    places
}

/// Lowers the definition of a function to a routine. The body sees the
/// functions that the signatures list, and no later one.
pub fn synthesise_function(
    name: &Name,
    params: &Vec<Name>,
    body: &Expression,
    signatures: &Vec<Signature>,
) -> (routine: Result<Routine, Error>)
    ensures
        match lower_function(
            crate::compiler::expression::signatures_view(signatures@),
            name@,
            names_view(params@),
            body@,
        ) {
            Ok(lowered) => routine matches Ok(r) && r@ == lowered,
            Err(e) => routine matches Err(x) && x@ == e,
        },
{
    let places = place_params(params);
    let lowered = synthesise_expression(body, &places, false, signatures, signatures.len())?;
    Ok(Routine { name: name.clone(), params: clone_names(params), body: lowered })
}

} // verus!
