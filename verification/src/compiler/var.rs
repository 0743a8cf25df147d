//! Where a variable is kept while the program runs.

use vstd::prelude::*;
use crate::compiler::target::{Value, ValueView};

verus! {

/// The place of a variable: a parameter of the routine, which is read as
/// it is, or a storage cell of the entry routine, which is loaded.
#[derive(Debug, Clone, Copy, PartialEq, Eq, Structural)]
pub enum Var {
    Register(usize),
    Stack(usize),
}

impl Var {
    /// The operation that reads the variable.
    pub open spec fn read(self) -> ValueView {
        match self {
            Var::Register(position) => ValueView::Parameter(position as nat),
            Var::Stack(cell) => ValueView::Load(cell as nat),
        }
    }

    /// The operation that reads the variable.
    pub fn synthesise_substitution(&self) -> (value: Value)
        ensures
            value@ == self.read(),
    {
        match *self {
            Var::Register(position) => Value::Parameter(position),
            Var::Stack(cell) => Value::Load(cell),
        }
    }
}

} // verus!
