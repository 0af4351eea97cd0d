//! Frames and exceptions: the pieces of the scheduler interface that the
//! built-in functions place on a process before running and raise on error.

use vstd::prelude::*;

use crate::term::Term;

verus! {

/// A module, function and arity naming one callable.
pub struct ModuleFunctionArity {
    /// The module atom's name.
    pub module: String,
    /// The function atom's name.
    pub function: String,
    /// The number of arguments.
    pub arity: u8,
}

/// The native code a frame runs, named rather than held as a function
/// pointer.
#[derive(Clone, Copy, PartialEq, Eq, Structural, Debug)]
pub enum CodeId {
    ErlangMonitorTwo,
    MapsIsKeyTwo,
}

/// Where a frame is placed on the process's frame stack.
#[derive(Clone, Copy, PartialEq, Eq, Structural, Debug)]
pub enum Placement {
    /// On top of the current frames.
    Push,
    /// In place of the top frame.
    Replace,
}

/// One frame of a process: the callable it stands for and the code to run.
pub struct Frame {
    /// The callable this frame belongs to.
    pub module_function_arity: ModuleFunctionArity,
    /// The code the frame runs.
    pub code: CodeId,
}

impl Frame {
    /// A frame for the given callable.
    pub fn new(module_function_arity: ModuleFunctionArity, code: CodeId) -> (f: Frame)
        ensures
            f.module_function_arity == module_function_arity,
            f.code == code,
    {
        Frame { module_function_arity, code }
    }
}

/// A memory-exhaustion error from placing values on a process. This model's
/// processes never run out of memory, so no function of the library returns
/// it.
#[derive(Clone, Copy, PartialEq, Eq, Structural, Debug)]
pub struct Alloc;

/// A runtime exception carrying its reason term.
#[derive(Debug)]
pub struct Exception {
    /// The reason, such as the atom `badarg` or a `{badmap, Map}` tuple.
    pub reason: Term,
}

/// The `badarg` exception.
pub fn badarg() -> (e: Exception)
    ensures
        e.reason@ == crate::term::TermSpec::Atom("badarg"@),
{
    Exception { reason: Term::Atom("badarg".to_owned()) }
}

/// The `{badmap, Map}` exception for a term that is not a map.
pub fn badmap(map: Term) -> (e: Exception)
    ensures
        e.reason@ == crate::term::TermSpec::Tuple(
            seq![crate::term::TermSpec::Atom("badmap"@), map@],
        ),
{
    let mut elements: Vec<Term> = Vec::new();
    let name = Term::Atom("badmap".to_owned());
    let ghost name_view = name@;
    elements.push(name);
    let ghost map_view = map@;
    elements.push(map);
    proof {
        crate::term::lemma_terms_view(elements@);
        assert(crate::term::terms_view(elements@)[0] == crate::term::term_view(elements@[0]));
        assert(crate::term::terms_view(elements@)[1] == crate::term::term_view(elements@[1]));
        assert(name_view == crate::term::TermSpec::Atom("badmap"@));
        assert(crate::term::terms_view(elements@) =~= seq![
            crate::term::TermSpec::Atom("badmap"@),
            map_view,
        ]);
    }
    Exception { reason: Term::Tuple(elements) }
}

} // verus!
