//! The parser: from source bytes to a program.
//!
//! The input is read as far as it is a program. What is left over, or the
//! place at which it stops being one, is reported with the bytes that were
//! not taken in. A program whose input names are not pairwise distinct is
//! refused once it has been read.

pub mod expression;
pub mod legible;
pub mod lexical;
pub mod lexical_laws;
pub mod program_laws;
pub mod readback;
pub mod statement;

use vstd::prelude::*;
use crate::ast::{names_view, Name, Program, ProgramView, Statement, Statements, StatementView};
use crate::parser::statement::{program, program_at, statement, statement_at};

verus! {

/// Why the input was refused.
#[derive(Debug, PartialEq, Eq)]
pub enum Error {
    /// A program was read, and these bytes follow it.
    RemainingInput(Vec<u8>, Program),
    /// The input stops being a program where these bytes begin.
    Malformed(Vec<u8>),
    /// This name stands twice among the inputs.
    DuplicateInput(Name),
}

/// The view of an [`Error`].
pub enum ErrorView {
    RemainingInput(Seq<u8>, ProgramView),
    Malformed(Seq<u8>),
    DuplicateInput(Seq<char>),
}

impl View for Error {
    type V = ErrorView;

    open spec fn view(&self) -> ErrorView {
        match *self {
            Error::RemainingInput(rest, program) => ErrorView::RemainingInput(rest@, program@),
            Error::Malformed(rest) => ErrorView::Malformed(rest@),
            Error::DuplicateInput(name) => ErrorView::DuplicateInput(name@),
        }
    }
}

/// Whether the name at `j` stands at an earlier place too.
pub open spec fn repeats(names: Seq<Seq<char>>, j: int) -> bool {
    exists|i: int| 0 <= i < j && names[i] == names[j]
}

/// The first place among the first `n` names whose name stands at an
/// earlier place too.
pub open spec fn first_repeat(names: Seq<Seq<char>>, n: nat) -> Option<int>
    decreases n,
{
    if n == 0 {
        None
    } else {
        match first_repeat(names, (n - 1) as nat) {
            Some(j) => Some(j),
            None => if repeats(names, n - 1) {
                Some(n - 1)
            } else {
                None
            },
        }
    }
}

/// What parsing a whole input gives.
pub open spec fn parsed(s: Seq<u8>) -> Result<ProgramView, ErrorView> {
    match program_at(s, 0) {
        Err(at) => Err(ErrorView::Malformed(s.subrange(at, s.len() as int))),
        Ok((program, end)) => if end < s.len() {
            Err(ErrorView::RemainingInput(s.subrange(end, s.len() as int), program))
        } else {
            match first_repeat(program.inputs, program.inputs.len()) {
                Some(j) => Err(ErrorView::DuplicateInput(program.inputs[j])),
                None => Ok(program),
            }
        },
    }
}

/// What parsing an input that holds one statement gives.
pub open spec fn parsed_one(s: Seq<u8>) -> Result<StatementView, ErrorView> {
    match statement_at(s, 0) {
        None => Err(ErrorView::Malformed(s)),
        Some((statement, end)) => if end < s.len() {
            Err(
                ErrorView::RemainingInput(
                    s.subrange(end, s.len() as int),
                    ProgramView { inputs: seq![], statements: seq![statement], outputs: seq![] },
                ),
            )
        } else {
            Ok(statement)
        },
    }
}

/// A program or a refusal, by its view.
pub open spec fn program_view(result: Result<Program, Error>) -> Result<ProgramView, ErrorView> {
    match result {
        Ok(program) => Ok(program@),
        Err(e) => Err(e@),
    }
}

/// A statement or a refusal, by its view.
pub open spec fn statement_view(result: Result<Statement, Error>) -> Result<
    StatementView,
    ErrorView,
> {
    match result {
        Ok(statement) => Ok(statement@),
        Err(e) => Err(e@),
    }
}

/// The bytes of the input from `from` on.
pub(crate) fn remainder(input: &[u8], from: usize) -> (rest: Vec<u8>)
    requires
        from <= input.len(),
    ensures
        rest@ == input@.subrange(from as int, input.len() as int),
{
    let mut rest: Vec<u8> = Vec::new();
    let mut i: usize = from;
    while i < input.len()
        invariant
            from <= i <= input.len(),
            rest@ == input@.subrange(from as int, i as int),
        decreases input.len() - i,
    {
        rest.push(input[i]);
        assert(input@.subrange(from as int, i + 1) =~= input@.subrange(from as int, i as int).push(
            input[i as int],
        ));
        i += 1;
    }
    rest
}

/// The first place whose name stands at an earlier place too.
pub(crate) fn duplicate(names: &Vec<Name>) -> (found: Option<usize>)
    ensures
        match first_repeat(names_view(names@), names.len() as nat) {
            Some(j) => found matches Some(k) && k == j && 0 <= j < names.len(),
            None => found is None,
        },
{
    let ghost views = names_view(names@);
    let mut j: usize = 0;
    while j < names.len()
        invariant
            j <= names.len(),
            views == names_view(names@),
            first_repeat(views, j as nat) is None,
        decreases names.len() - j,
    {
        let mut i: usize = 0;
        while i < j
            invariant
                i <= j < names.len(),
                views == names_view(names@),
                first_repeat(views, j as nat) is None,
                forall|k: int| 0 <= k < i ==> views[k] != views[j as int],
            decreases j - i,
        {
            if names[i].equals(&names[j]) {
                assert(views[i as int] == views[j as int]);
                assert(repeats(views, j as int));
                assert(first_repeat(views, (j + 1) as nat) == Some(j as int));
                proof {
                    lemma_first_repeat_stays(views, (j + 1) as nat, names.len() as nat);
                }
                return Some(j);
            }
            i += 1;
        }
        assert(!repeats(views, j as int));
        j += 1;
    }
    None
}

/// A repeat that was found among the first names is the first among more.
pub proof fn lemma_first_repeat_stays(names: Seq<Seq<char>>, found: nat, n: nat)
    requires
        found <= n,
        first_repeat(names, found) is Some,
    ensures
        first_repeat(names, n) == first_repeat(names, found),
    decreases n,
{
    if found < n {
        lemma_first_repeat_stays(names, found, (n - 1) as nat);
    }
}

/// Parses a whole program.
pub fn parse(s: &[u8]) -> (result: Result<Program, Error>)
    ensures
        program_view(result) == parsed(s@),
{
    match program(s, 0) {
        Err(at) => Err(Error::Malformed(remainder(s, at))),
        Ok((program, end)) => {
            if end < s.len() {
                Err(Error::RemainingInput(remainder(s, end), program))
            } else {
                match duplicate(&program.inputs) {
                    Some(j) => Err(Error::DuplicateInput(program.inputs[j].clone())),
                    None => Ok(program),
                }
            }
        },
    }
}

/// Parses an input that holds one statement and nothing else.
pub fn parse_one(s: &[u8]) -> (result: Result<Statement, Error>)
    ensures
        statement_view(result) == parsed_one(s@),
{
    match statement(s, 0) {
        None => {
            let rest = remainder(s, 0);
            assert(rest@ =~= s@);
            Err(Error::Malformed(rest))
        },
        Some((statement, end)) => {
            if end < s.len() {
                let only = Statements(vec![statement]);
                let program = Program::new(Vec::new(), only, Vec::new());
                proof {
                    assert(program@.inputs =~= Seq::<Seq<char>>::empty());
                    assert(program@.outputs =~= Seq::<Seq<char>>::empty());
                    assert(program@.statements =~= seq![statement@]);
                }
                Err(Error::RemainingInput(remainder(s, end), program))
            } else {
                Ok(statement)
            }
        },
    }
}

} // verus!
