//! The entry routine.
//!
//! Every variable of the program has one storage cell: an input gets its
//! cell when it is read, another variable when it is first assigned. An
//! assignment is lowered among the cells that exist when it is reached, so
//! that it reads what was stored before it and nothing else.

use vstd::prelude::*;
use crate::ast::{names_view, Expression, ExpressionView, Name};
use crate::bindings::Bindings;
use crate::compiler::expression::{
    lower_expression, signatures_view, synthesise_expression, ScopeView, Signature, SignatureView,
};
use crate::compiler::target::{cells_view, stores_view, Entry, EntryView, Store, StoreView};
use crate::compiler::{Error, ErrorView};

verus! {

/// The storage cells that exist, each with the name of its variable, and
/// the cell of each variable.
pub struct Layout {
    pub cells: Seq<Seq<char>>,
    pub places: Map<Seq<char>, usize>,
}

/// The layout in which `name` has a cell, and that cell: the one it had,
/// or a new one behind the others.
pub open spec fn placed(layout: Layout, name: Seq<char>) -> (Layout, usize) {
    if layout.places.contains_key(name) {
        (layout, layout.places[name])
    } else {
        (
            Layout {
                cells: layout.cells.push(name),
                places: layout.places.insert(name, layout.cells.len() as usize),
            },
            layout.cells.len() as usize,
        )
    }
}

/// The layout after the first `n` inputs have got their cells, and the
/// cell of each of them.
pub open spec fn lower_inputs(names: Seq<Seq<char>>, n: nat) -> (Layout, Seq<nat>)
    decreases n,
{
    if n == 0 || n > names.len() {
        (Layout { cells: seq![], places: Map::empty() }, seq![])
    } else {
        let (before, cells) = lower_inputs(names, (n - 1) as nat);
        let (layout, cell) = placed(before, names[n - 1]);
        (layout, cells.push(cell as nat))
    }
}

/// The scope of an assignment: it reads the cells of the layout and sees
/// all the functions defined so far.
pub open spec fn entry_scope(signatures: Seq<SignatureView>, layout: Layout) -> ScopeView {
    ScopeView { signatures, visible: signatures.len(), places: layout.places, cells: true }
}

/// The layout after an assignment to `name`, and the store that the
/// assignment lowers to.
pub open spec fn lower_assignment(
    signatures: Seq<SignatureView>,
    layout: Layout,
    name: Seq<char>,
    expression: ExpressionView,
) -> Result<(Layout, StoreView), ErrorView> {
    match lower_expression(entry_scope(signatures, layout), expression) {
        Err(e) => Err(e),
        Ok(value) => {
            let (after, cell) = placed(layout, name);
            Ok((after, StoreView { cell: cell as nat, value }))
        },
    }
}

/// The cells of the first `n` outputs, or the first of them that has none.
pub open spec fn lower_outputs(places: Map<Seq<char>, usize>, names: Seq<Seq<char>>, n: nat) -> Result<
    Seq<nat>,
    ErrorView,
>
    decreases n,
{
    if n == 0 || n > names.len() {
        Ok(seq![])
    } else {
        match lower_outputs(places, names, (n - 1) as nat) {
            Err(e) => Err(e),
            Ok(cells) => if places.contains_key(names[n - 1]) {
                Ok(cells.push(places[names[n - 1]] as nat))
            } else {
                Err(ErrorView::UnassignedOutput(names[n - 1]))
            },
        }
    }
}

/// Once the first outputs have had no cell, neither have any more.
pub proof fn lemma_lower_outputs_fail(
    places: Map<Seq<char>, usize>,
    names: Seq<Seq<char>>,
    failed: nat,
    n: nat,
)
    requires
        failed <= n <= names.len(),
        lower_outputs(places, names, failed) is Err,
    ensures
        lower_outputs(places, names, n) == lower_outputs(places, names, failed),
    decreases n,
{
    if failed < n {
        lemma_lower_outputs_fail(places, names, failed, (n - 1) as nat);
    }
}

/// The entry routine while it is built: the cells, the cell of each
/// variable, the cell of each input, and the stores so far.
pub struct Main {
    pub cells: Vec<Name>,
    pub places: Bindings<usize>,
    pub inputs: Vec<usize>,
    pub stores: Vec<Store>,
}

impl Main {
    /// The cells and the cell of each variable.
    pub open spec fn layout(&self) -> Layout {
        Layout { cells: names_view(self.cells@), places: self.places@ }
    }
}

/// The cell of `name`: the one it has, or a new one behind the others.
pub(crate) fn allocate(cells: &mut Vec<Name>, places: &mut Bindings<usize>, name: &Name) -> (cell: usize)
    ensures
        (Layout { cells: names_view(final(cells)@), places: final(places)@ }, cell) == placed(
            Layout { cells: names_view(old(cells)@), places: old(places)@ },
            name@,
        ),
{
    match places.get(name) {
        Some(cell) => cell,
        None => {
            let cell = cells.len();
            cells.push(name.clone());
            places.insert(name.clone(), cell);
            assert(names_view(cells@) =~= names_view(old(cells)@).push(name@));
            cell
        },
    }
}

/// Begins the entry routine: each input gets its cell.
pub fn begin_main(input_names: &Vec<Name>) -> (main: Main)
    ensures
        lower_inputs(names_view(input_names@), input_names.len() as nat) == (
            main.layout(),
            cells_view(main.inputs@),
        ),
        main.stores@.len() == 0,
{
    let ghost names = names_view(input_names@);
    let mut cells: Vec<Name> = Vec::new();
    let mut places: Bindings<usize> = Bindings::new();
    let mut inputs: Vec<usize> = Vec::new();
    assert(names_view(cells@) =~= Seq::<Seq<char>>::empty());
    assert(cells_view(inputs@) =~= Seq::<nat>::empty());
    let mut i: usize = 0;
    while i < input_names.len()
        invariant
            i <= input_names.len(),
            names == names_view(input_names@),
            lower_inputs(names, i as nat) == (
                Layout { cells: names_view(cells@), places: places@ },
                cells_view(inputs@),
            ),
        decreases input_names.len() - i,
    {
        let cell = allocate(&mut cells, &mut places, &input_names[i]);
        let ghost before = cells_view(inputs@);
        inputs.push(cell);
        assert(cells_view(inputs@) =~= before.push(cell as nat));
        i += 1;
    }
    Main { cells, places, inputs, stores: Vec::new() }
}

/// Lowers an assignment to a store of the entry routine. Where the
/// expression does not lower, the entry routine stays as it was.
pub fn synthesise_assignment(
    main: &mut Main,
    name: &Name,
    expression: &Expression,
    signatures: &Vec<Signature>,
) -> (done: Result<(), Error>)
    ensures
        final(main).inputs == old(main).inputs,
        match lower_assignment(
            signatures_view(signatures@),
            old(main).layout(),
            name@,
            expression@,
        ) {
            Ok((layout, store)) => done is Ok && final(main).layout() == layout && stores_view(
                final(main).stores@,
            ) == stores_view(old(main).stores@).push(store),
            Err(e) => done matches Err(x) && x@ == e && *final(main) == *old(main),
        },
{
    let value = synthesise_expression(
        expression,
        &main.places,
        true,
        signatures,
        signatures.len(),
    )?;
    let cell = allocate(&mut main.cells, &mut main.places, name);
    let ghost before = stores_view(main.stores@);
    let ghost view = StoreView { cell: cell as nat, value: value@ };
    main.stores.push(Store { cell, value });
    assert(stores_view(main.stores@) =~= before.push(view));
    Ok(())
}

/// Ends the entry routine: each output is read from its cell.
#[verifier::loop_isolation(false)]
pub fn define_main(main: Main, output_names: &Vec<Name>) -> (entry: Result<Entry, Error>)
    ensures
        match lower_outputs(
            main.layout().places,
            names_view(output_names@),
            output_names.len() as nat,
        ) {
            Ok(cells) => entry matches Ok(x) && x@ == (EntryView {
                cells: main.layout().cells,
                inputs: cells_view(main.inputs@),
                stores: stores_view(main.stores@),
                outputs: cells,
            }),
            Err(e) => entry matches Err(x) && x@ == e,
        },
{
    let ghost names = names_view(output_names@);
    let mut outputs: Vec<usize> = Vec::new();
    assert(cells_view(outputs@) =~= Seq::<nat>::empty());
    let mut k: usize = 0;
    while k < output_names.len()
        invariant
            k <= output_names.len(),
            lower_outputs(main.places@, names, k as nat) == Ok::<Seq<nat>, ErrorView>(
                cells_view(outputs@),
            ),
        decreases output_names.len() - k,
    {
        match main.places.get(&output_names[k]) {
            Some(cell) => {
                let ghost before = cells_view(outputs@);
                outputs.push(cell);
                assert(cells_view(outputs@) =~= before.push(cell as nat));
            },
            None => {
                proof {
                    assert(lower_outputs(main.places@, names, (k + 1) as nat) == Err::<
                        Seq<nat>,
                        ErrorView,
                    >(ErrorView::UnassignedOutput(output_names[k as int]@)));
                    lemma_lower_outputs_fail(main.places@, names, (k + 1) as nat, names.len());
                }
                return Err(Error::UnassignedOutput(output_names[k].clone()));
            },
        }
        k += 1;
    }
    Ok(Entry { cells: main.cells, inputs: main.inputs, stores: main.stores, outputs })
}

} // verus!
