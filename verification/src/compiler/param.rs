//! The parameters of a program as its caller sees them: each name that is
//! an input, an output or both, once.

use vstd::prelude::*;
use crate::ast::{names_view, Name};
use crate::compiler::{Error, ErrorView};

verus! {

/// A name that the program takes in, gives out, or both.
#[derive(Debug, PartialEq, Eq)]
pub enum Param {
    Input(Name),
    Output(Name),
    InputAndOutput(Name),
}

/// The view of a [`Param`].
pub enum ParamView {
    Input(Seq<char>),
    Output(Seq<char>),
    InputAndOutput(Seq<char>),
}

impl ParamView {
    pub open spec fn name(self) -> Seq<char> {
        match self {
            ParamView::Input(name) => name,
            ParamView::Output(name) => name,
            ParamView::InputAndOutput(name) => name,
        }
    }
}

impl View for Param {
    type V = ParamView;

    open spec fn view(&self) -> ParamView {
        match *self {
            Param::Input(name) => ParamView::Input(name@),
            Param::Output(name) => ParamView::Output(name@),
            Param::InputAndOutput(name) => ParamView::InputAndOutput(name@),
        }
    }
}

impl Clone for Param {
    fn clone(&self) -> (copy: Param)
        ensures
            copy@ == self@,
    {
        match self {
            Param::Input(name) => Param::Input(name.clone()),
            Param::Output(name) => Param::Output(name.clone()),
            Param::InputAndOutput(name) => Param::InputAndOutput(name.clone()),
        }
    }
}

impl Param {
    pub fn name(&self) -> (name: &Name)
        ensures
            name@ == self@.name(),
    {
        match self {
            Param::Input(name) | Param::Output(name) | Param::InputAndOutput(name) => name,
        }
    }

    /// Whether the caller gives the value.
    pub fn is_input(&self) -> (is: bool)
        ensures
            is == !(self@ is Output),
    {
        match self {
            Param::Input(_) | Param::InputAndOutput(_) => true,
            Param::Output(_) => false,
        }
    }

    /// Whether the caller gets the value.
    pub fn is_output(&self) -> (is: bool)
        ensures
            is == !(self@ is Input),
    {
        match self {
            Param::Output(_) | Param::InputAndOutput(_) => true,
            Param::Input(_) => false,
        }
    }

    /// Whether the value is there before the first statement runs.
    pub fn pre_initialised(&self) -> (is: bool)
        ensures
            is == !(self@ is Output),
    {
        self.is_input()
    }

    /// Whether the value is written out after the last statement.
    pub fn outputted(&self) -> (is: bool)
        ensures
            is == !(self@ is Input),
    {
        self.is_output()
    }
}

/// The views of a sequence of parameters, in order.
pub open spec fn params_view(params: Seq<Param>) -> Seq<ParamView> {
    Seq::new(params.len(), |i: int| params[i]@)
}

/// The first place among the first `n` parameters that has this name.
pub open spec fn position(params: Seq<ParamView>, name: Seq<char>, n: nat) -> Option<int>
    decreases n,
{
    if n == 0 || n > params.len() {
        None
    } else {
        match position(params, name, (n - 1) as nat) {
            Some(i) => Some(i),
            None => if params[n - 1].name() == name {
                Some(n - 1)
            } else {
                None
            },
        }
    }
}

/// The parameters with `name` among the inputs: as they were where it is
/// there already, else with it behind them.
pub open spec fn with_input(params: Seq<ParamView>, name: Seq<char>) -> Seq<ParamView> {
    if position(params, name, params.len()) is Some {
        params
    } else {
        params.push(ParamView::Input(name))
    }
}

/// The parameters with `name` among the outputs. An input of that name
/// becomes an input and output; a name that is no parameter yet comes
/// behind the others where a statement assigns it, and is refused where
/// none does.
pub open spec fn with_output(params: Seq<ParamView>, assigned: Seq<Seq<char>>, name: Seq<char>) -> Result<
    Seq<ParamView>,
    ErrorView,
> {
    match position(params, name, params.len()) {
        Some(i) => Ok(
            if params[i] is Input {
                params.update(i, ParamView::InputAndOutput(name))
            } else {
                params
            },
        ),
        None => if assigned.contains(name) {
            Ok(params.push(ParamView::Output(name)))
        } else {
            Err(ErrorView::UnassignedOutput(name))
        },
    }
}

/// The parameters of the first `n` inputs.
pub open spec fn input_params(inputs: Seq<Seq<char>>, n: nat) -> Seq<ParamView>
    decreases n,
{
    if n == 0 || n > inputs.len() {
        seq![]
    } else {
        with_input(input_params(inputs, (n - 1) as nat), inputs[n - 1])
    }
}

/// The parameters of all the inputs and the first `n` outputs, or the
/// first of these outputs that is refused.
pub open spec fn classified(
    inputs: Seq<Seq<char>>,
    outputs: Seq<Seq<char>>,
    assigned: Seq<Seq<char>>,
    n: nat,
) -> Result<Seq<ParamView>, ErrorView>
    decreases n,
{
    if n == 0 || n > outputs.len() {
        Ok(input_params(inputs, inputs.len()))
    } else {
        match classified(inputs, outputs, assigned, (n - 1) as nat) {
            Err(e) => Err(e),
            Ok(params) => with_output(params, assigned, outputs[n - 1]),
        }
    }
}

/// Once the first outputs have been refused, so have any more.
pub proof fn lemma_classified_fail(
    inputs: Seq<Seq<char>>,
    outputs: Seq<Seq<char>>,
    assigned: Seq<Seq<char>>,
    failed: nat,
    n: nat,
)
    requires
        failed <= n <= outputs.len(),
        classified(inputs, outputs, assigned, failed) is Err,
    ensures
        classified(inputs, outputs, assigned, n) == classified(inputs, outputs, assigned, failed),
    decreases n,
{
    if failed < n {
        lemma_classified_fail(inputs, outputs, assigned, failed, (n - 1) as nat);
    }
}

/// The first place that has this name.
pub(crate) fn find(params: &Vec<Param>, name: &Name) -> (found: Option<usize>)
    ensures
        match position(params_view(params@), name@, params.len() as nat) {
            Some(i) => found matches Some(at) && at == i && 0 <= i < params.len(),
            None => found is None,
        },
{
    let ghost views = params_view(params@);
    let mut i: usize = 0;
    while i < params.len()
        invariant
            i <= params.len(),
            views == params_view(params@),
            position(views, name@, i as nat) is None,
        decreases params.len() - i,
    {
        if params[i].name().equals(name) {
            proof {
                assert(position(views, name@, (i + 1) as nat) == Some(i as int));
                lemma_position_stays(views, name@, (i + 1) as nat, views.len());
            }
            return Some(i);
        }
        i += 1;
    }
    None
}

/// A place that was found among the first parameters is the first among
/// more of them.
pub proof fn lemma_position_stays(params: Seq<ParamView>, name: Seq<char>, found: nat, n: nat)
    requires
        found <= n <= params.len(),
        position(params, name, found) is Some,
    ensures
        position(params, name, n) == position(params, name, found),
    decreases n,
{
    if found < n {
        lemma_position_stays(params, name, found, (n - 1) as nat);
    }
}

/// Whether the name is among the names.
pub(crate) fn contains(names: &Vec<Name>, name: &Name) -> (found: bool)
    ensures
        found == names_view(names@).contains(name@),
{
    let mut i: usize = 0;
    while i < names.len()
        invariant
            i <= names.len(),
            forall|j: int| 0 <= j < i ==> names_view(names@)[j] != name@,
        decreases names.len() - i,
    {
        if names[i].equals(name) {
            assert(names_view(names@)[i as int] == name@);
            return true;
        }
        i += 1;
    }
    false
}

/// Lists each name that is an input or an output once: the inputs in the
/// order of their first mention, then the outputs that are no inputs, in
/// the order of theirs. An output that is neither an input nor assigned by
/// a statement is refused.
#[verifier::loop_isolation(false)]
pub fn classify_parameters(inputs: &Vec<Name>, outputs: &Vec<Name>, assigned: &Vec<Name>) -> (result:
    Result<Vec<Param>, Error>)
    ensures
        match classified(
            names_view(inputs@),
            names_view(outputs@),
            names_view(assigned@),
            outputs.len() as nat,
        ) {
            Ok(params) => result matches Ok(list) && params_view(list@) == params,
            Err(e) => result matches Err(x) && x@ == e,
        },
        result is Ok <==> forall|j: int|
            0 <= j < outputs.len() ==> names_view(inputs@).contains(
                #[trigger] names_view(outputs@)[j],
            ) || names_view(assigned@).contains(names_view(outputs@)[j]),
        result matches Ok(list) ==> classifies(
            params_view(list@),
            names_view(inputs@),
            names_view(outputs@),
        ),
{
    let ghost given = names_view(inputs@);
    let ghost wanted = names_view(outputs@);
    let ghost stored = names_view(assigned@);
    proof {
        lemma_classified(given, wanted, stored, wanted.len());
        assert(wanted.take(wanted.len() as int) =~= wanted);
    }
    let mut params: Vec<Param> = Vec::new();
    assert(params_view(params@) =~= Seq::<ParamView>::empty());
    let mut i: usize = 0;
    while i < inputs.len()
        invariant
            i <= inputs.len(),
            params_view(params@) == input_params(given, i as nat),
        decreases inputs.len() - i,
    {
        if find(&params, &inputs[i]).is_none() {
            let ghost before = params_view(params@);
            params.push(Param::Input(inputs[i].clone()));
            assert(params_view(params@) =~= before.push(ParamView::Input(inputs[i as int]@)));
        }
        i += 1;
    }
    let mut j: usize = 0;
    while j < outputs.len()
        invariant
            j <= outputs.len(),
            classified(given, wanted, stored, j as nat) == Ok::<Seq<ParamView>, ErrorView>(
                params_view(params@),
            ),
        decreases outputs.len() - j,
    {
        let output = &outputs[j];
        let ghost before = params_view(params@);
        match find(&params, output) {
            Some(at) => {
                if params[at].is_input() && !params[at].is_output() {
                    params.set(at, Param::InputAndOutput(output.clone()));
                    assert(params_view(params@) =~= before.update(
                        at as int,
                        ParamView::InputAndOutput(output@),
                    ));
                }
            },
            None => {
                if contains(assigned, output) {
                    params.push(Param::Output(output.clone()));
                    assert(params_view(params@) =~= before.push(ParamView::Output(output@)));
                } else {
                    proof {
                        assert(classified(given, wanted, stored, (j + 1) as nat) == Err::<
                            Seq<ParamView>,
                            ErrorView,
                        >(ErrorView::UnassignedOutput(output@)));
                        lemma_classified_fail(given, wanted, stored, (j + 1) as nat, wanted.len());
                    }
                    return Err(Error::UnassignedOutput(output.clone()));
                }
            },
        }
        j += 1;
    }
    Ok(params)
}

/// Whether a parameter has this name.
pub open spec fn named(params: Seq<ParamView>, name: Seq<char>) -> bool {
    exists|i: int| 0 <= i < params.len() && (#[trigger] params[i]).name() == name
}

/// Whether no two parameters have one name.
pub open spec fn distinct(params: Seq<ParamView>) -> bool {
    forall|i: int, j: int|
        0 <= i < j < params.len() ==> (#[trigger] params[i]).name() != (#[trigger] params[j]).name()
}

/// Whether each parameter is marked by where its name stands: as an input
/// where it is among the inputs only, as an output where it is among the
/// outputs only, and as both where it is among both.
pub open spec fn marked(params: Seq<ParamView>, inputs: Seq<Seq<char>>, outputs: Seq<Seq<char>>) -> bool {
    forall|i: int|
        0 <= i < params.len() ==> match #[trigger] params[i] {
            ParamView::Input(name) => inputs.contains(name) && !outputs.contains(name),
            ParamView::Output(name) => !inputs.contains(name) && outputs.contains(name),
            ParamView::InputAndOutput(name) => inputs.contains(name) && outputs.contains(name),
        }
}

/// A place is found exactly where a parameter has the name, and is one of
/// a parameter that has it.
pub proof fn lemma_position(params: Seq<ParamView>, name: Seq<char>, n: nat)
    requires
        n <= params.len(),
    ensures
        position(params, name, n) is Some <==> named(params.take(n as int), name),
        position(params, name, n) matches Some(i) ==> 0 <= i < n && params[i].name() == name,
    decreases n,
{
    let first = params.take(n as int);
    if n > 0 {
        lemma_position(params, name, (n - 1) as nat);
        let fewer = params.take(n - 1);
        if named(fewer, name) {
            let i = choose|i: int| 0 <= i < fewer.len() && (#[trigger] fewer[i]).name() == name;
            assert(first[i] == fewer[i]);
        }
        if params[n - 1].name() == name {
            assert(first[n - 1] == params[n - 1]);
        }
        if named(first, name) {
            let i = choose|i: int| 0 <= i < first.len() && (#[trigger] first[i]).name() == name;
            if i < n - 1 {
                assert(fewer[i] == first[i]);
            }
        }
    }
}

/// The parameters of the first inputs are inputs, no two of one name, and
/// their names are the names of these inputs.
pub proof fn lemma_input_params(inputs: Seq<Seq<char>>, n: nat)
    requires
        n <= inputs.len(),
    ensures
        distinct(input_params(inputs, n)),
        forall|i: int|
            0 <= i < input_params(inputs, n).len() ==> #[trigger] input_params(inputs, n)[i] is Input,
        forall|name: Seq<char>|
            named(input_params(inputs, n), name) <==> inputs.take(n as int).contains(name),
    decreases n,
{
    let params = input_params(inputs, n);
    if n > 0 {
        lemma_input_params(inputs, (n - 1) as nat);
        let before = input_params(inputs, (n - 1) as nat);
        let added = inputs[n - 1];
        lemma_position(before, added, before.len());
        assert(before.take(before.len() as int) =~= before);
        assert forall|name: Seq<char>| named(params, name) <==> inputs.take(n as int).contains(
            name,
        ) by {
            let first = inputs.take(n as int);
            let fewer = inputs.take(n - 1);
            assert(first[n - 1] == added);
            if named(params, name) {
                let i = choose|i: int| 0 <= i < params.len() && (#[trigger] params[i]).name() == name;
                if i < before.len() {
                    assert(before[i] == params[i]);
                    assert(named(before, name));
                    let j = choose|j: int| 0 <= j < fewer.len() && fewer[j] == name;
                    assert(first[j] == name);
                }
            }
            if first.contains(name) {
                let j = choose|j: int| 0 <= j < first.len() && first[j] == name;
                if j < n - 1 {
                    assert(fewer[j] == name);
                    assert(named(before, name));
                    let i = choose|i: int|
                        0 <= i < before.len() && (#[trigger] before[i]).name() == name;
                    assert(params[i] == before[i]);
                } else if named(before, added) {
                    let i = choose|i: int|
                        0 <= i < before.len() && (#[trigger] before[i]).name() == added;
                    assert(params[i] == before[i]);
                } else {
                    assert(params[before.len() as int].name() == added);
                }
            }
        }
        if !named(before, added) {
            assert forall|i: int, j: int| 0 <= i < j < params.len() implies (#[trigger] params[i]).name()
                != (#[trigger] params[j]).name() by {
                assert(params[i] == before[i]);
                if j < before.len() {
                    assert(params[j] == before[j]);
                }
            }
        }
    } else {
        assert(inputs.take(0) =~= Seq::<Seq<char>>::empty());
    }
}

/// Whether the parameters are those of the inputs and of the outputs so
/// far: each name once, and marked by where it stands.
pub open spec fn classifies(
    params: Seq<ParamView>,
    inputs: Seq<Seq<char>>,
    outputs: Seq<Seq<char>>,
) -> bool {
    &&& distinct(params)
    &&& marked(params, inputs, outputs)
    &&& forall|name: Seq<char>|
        named(params, name) <==> inputs.contains(name) || outputs.contains(name)
}

/// A name is among names and one more where it is among the names or is
/// the one more.
pub proof fn lemma_contains_push(names: Seq<Seq<char>>, added: Seq<char>, name: Seq<char>)
    ensures
        names.push(added).contains(name) <==> names.contains(name) || name == added,
{
    let more = names.push(added);
    if more.contains(name) {
        let j = choose|j: int| 0 <= j < more.len() && more[j] == name;
        if j < names.len() {
            assert(names[j] == name);
        }
    }
    if names.contains(name) {
        let j = choose|j: int| 0 <= j < names.len() && names[j] == name;
        assert(more[j] == name);
    }
    assert(more[names.len() as int] == added);
}

/// An output that has a parameter already leaves the names as they are,
/// and marks the parameter as an output too.
pub proof fn lemma_output_marked(
    before: Seq<ParamView>,
    inputs: Seq<Seq<char>>,
    outputs: Seq<Seq<char>>,
    added: Seq<char>,
    at: int,
)
    requires
        classifies(before, inputs, outputs),
        0 <= at < before.len(),
        before[at].name() == added,
    ensures
        classifies(
            if before[at] is Input {
                before.update(at, ParamView::InputAndOutput(added))
            } else {
                before
            },
            inputs,
            outputs.push(added),
        ),
{
    let params = if before[at] is Input {
        before.update(at, ParamView::InputAndOutput(added))
    } else {
        before
    };
    let wanted = outputs.push(added);
    assert(named(before, added));
    assert forall|name: Seq<char>| named(params, name) <==> inputs.contains(name)
        || wanted.contains(name) by {
        lemma_contains_push(outputs, added, name);
        if named(params, name) {
            let i = choose|i: int| 0 <= i < params.len() && (#[trigger] params[i]).name() == name;
            assert(before[i].name() == name);
            assert(named(before, name));
        }
        if named(before, name) {
            let i = choose|i: int| 0 <= i < before.len() && (#[trigger] before[i]).name() == name;
            assert(params[i].name() == name);
        }
    }
    assert forall|i: int, j: int| 0 <= i < j < params.len() implies (#[trigger] params[i]).name() != (
    #[trigger] params[j]).name() by {
        assert(before[i].name() != before[j].name());
    }
    assert forall|i: int| 0 <= i < params.len() implies match #[trigger] params[i] {
        ParamView::Input(name) => inputs.contains(name) && !wanted.contains(name),
        ParamView::Output(name) => !inputs.contains(name) && wanted.contains(name),
        ParamView::InputAndOutput(name) => inputs.contains(name) && wanted.contains(name),
    } by {
        lemma_contains_push(outputs, added, params[i].name());
        let old_param = before[i];
        if i != at {
            assert(params[i] == old_param);
            if i < at {
                assert(before[i].name() != before[at].name());
            } else {
                assert(before[at].name() != before[i].name());
            }
        } else {
            let kept = before[at];
        }
    }
}

/// An output that has no parameter yet comes behind the others.
pub proof fn lemma_output_added(
    before: Seq<ParamView>,
    inputs: Seq<Seq<char>>,
    outputs: Seq<Seq<char>>,
    added: Seq<char>,
)
    requires
        classifies(before, inputs, outputs),
        !named(before, added),
    ensures
        classifies(before.push(ParamView::Output(added)), inputs, outputs.push(added)),
{
    let params = before.push(ParamView::Output(added));
    let wanted = outputs.push(added);
    assert forall|name: Seq<char>| named(params, name) <==> inputs.contains(name)
        || wanted.contains(name) by {
        lemma_contains_push(outputs, added, name);
        if named(params, name) {
            let i = choose|i: int| 0 <= i < params.len() && (#[trigger] params[i]).name() == name;
            if i < before.len() {
                assert(before[i] == params[i]);
                assert(named(before, name));
            }
        }
        if named(before, name) {
            let i = choose|i: int| 0 <= i < before.len() && (#[trigger] before[i]).name() == name;
            assert(params[i] == before[i]);
        }
        if name == added {
            assert(params[before.len() as int].name() == added);
        }
    }
    assert forall|i: int, j: int| 0 <= i < j < params.len() implies (#[trigger] params[i]).name() != (
    #[trigger] params[j]).name() by {
        assert(params[i] == before[i]);
        if j < before.len() {
            assert(params[j] == before[j]);
        }
    }
    assert forall|i: int| 0 <= i < params.len() implies match #[trigger] params[i] {
        ParamView::Input(name) => inputs.contains(name) && !wanted.contains(name),
        ParamView::Output(name) => !inputs.contains(name) && wanted.contains(name),
        ParamView::InputAndOutput(name) => inputs.contains(name) && wanted.contains(name),
    } by {
        lemma_contains_push(outputs, added, params[i].name());
        if i < before.len() {
            assert(params[i] == before[i]);
            assert(before[i].name() != added);
        }
    }
}

/// What classifying gives: each name that is an input or an output once,
/// marked by where it stands; and every output is an input or assigned.
/// It refuses exactly where an output is neither, and names the first.
pub proof fn lemma_classified(
    inputs: Seq<Seq<char>>,
    outputs: Seq<Seq<char>>,
    assigned: Seq<Seq<char>>,
    n: nat,
)
    requires
        n <= outputs.len(),
    ensures
        match classified(inputs, outputs, assigned, n) {
            Ok(params) => classifies(params, inputs, outputs.take(n as int)) && forall|j: int|
                0 <= j < n ==> inputs.contains(#[trigger] outputs[j]) || assigned.contains(
                    outputs[j],
                ),
            Err(e) => exists|j: int|
                0 <= j < n && e == ErrorView::UnassignedOutput(#[trigger] outputs[j])
                    && !inputs.contains(outputs[j]) && !assigned.contains(outputs[j]) && forall|
                    k: int,
                |
                    0 <= k < j ==> inputs.contains(#[trigger] outputs[k]) || assigned.contains(
                        outputs[k],
                    ),
        },
    decreases n,
{
    let wanted = outputs.take(n as int);
    if n == 0 {
        let params = input_params(inputs, inputs.len());
        lemma_input_params(inputs, inputs.len());
        assert(inputs.take(inputs.len() as int) =~= inputs);
        assert(wanted =~= Seq::<Seq<char>>::empty());
        assert forall|i: int| 0 <= i < params.len() implies match #[trigger] params[i] {
            ParamView::Input(name) => inputs.contains(name) && !wanted.contains(name),
            ParamView::Output(name) => !inputs.contains(name) && wanted.contains(name),
            ParamView::InputAndOutput(name) => inputs.contains(name) && wanted.contains(name),
        } by {
            assert(params[i] is Input);
            assert(named(params, params[i].name()));
        }
        assert(classifies(params, inputs, wanted));
    } else {
        lemma_classified(inputs, outputs, assigned, (n - 1) as nat);
        let fewer = outputs.take(n - 1);
        let added = outputs[n - 1];
        assert(wanted =~= fewer.push(added));
        match classified(inputs, outputs, assigned, (n - 1) as nat) {
            Err(e) => {
                let j = choose|j: int|
                    0 <= j < n - 1 && e == ErrorView::UnassignedOutput(#[trigger] outputs[j])
                        && !inputs.contains(outputs[j]) && !assigned.contains(outputs[j]) && forall|
                        k: int,
                    |
                        0 <= k < j ==> inputs.contains(#[trigger] outputs[k]) || assigned.contains(
                            outputs[k],
                        );
                assert(0 <= j < n);
            },
            Ok(before) => {
                lemma_position(before, added, before.len());
                assert(before.take(before.len() as int) =~= before);
                match position(before, added, before.len()) {
                    Some(at) => {
                        lemma_output_marked(before, inputs, fewer, added, at);
                        assert(named(before, added));
                        if !inputs.contains(added) {
                            let k = choose|k: int| 0 <= k < fewer.len() && fewer[k] == added;
                            assert(outputs[k] == added);
                        }
                        assert(classified(inputs, outputs, assigned, n) is Ok);
                        assert(classifies(
                            classified(inputs, outputs, assigned, n)->Ok_0,
                            inputs,
                            wanted,
                        ));
                    },
                    None => {
                        if assigned.contains(added) {
                            lemma_output_added(before, inputs, fewer, added);
                            assert(classifies(
                                classified(inputs, outputs, assigned, n)->Ok_0,
                                inputs,
                                wanted,
                            ));
                        } else {
                            assert(!inputs.contains(added));
                            let e = classified(inputs, outputs, assigned, n)->Err_0;
                            let j = n - 1;
                            assert(0 <= j < n && e == ErrorView::UnassignedOutput(outputs[j])
                                && !inputs.contains(outputs[j]) && !assigned.contains(outputs[j])
                                && forall|k: int|
                                0 <= k < j ==> inputs.contains(#[trigger] outputs[k])
                                    || assigned.contains(outputs[k]));
                        }
                    },
                }
            },
        }
    }
}

} // verus!
