//! The `maps:is_key/2` built-in: whether a map holds a key, raising
//! `{badmap, Map}` on anything that is not a map.

use vstd::prelude::*;

use crate::code::{badmap, CodeId, Exception, Frame, ModuleFunctionArity, Placement};
use crate::erlang::bool_view;
use crate::process::Process;
use crate::term::{pairs_view, Term, TermSpec};

verus! {

/// Whether a sequence of key-value pairs holds the key, comparing by term
/// equality.
pub open spec fn mapping_has_key(pairs: Seq<(TermSpec, TermSpec)>, key: TermSpec) -> bool {
    exists|i: int| 0 <= i < pairs.len() && (#[trigger] pairs[i]).0 == key
}

/// True of the frame this module places.
pub open spec fn is_key_frame(f: Frame) -> bool {
    &&& f.code == CodeId::MapsIsKeyTwo
    &&& f.module_function_arity.module@ == "maps"@
    &&& f.module_function_arity.function@ == "is_key"@
    &&& f.module_function_arity.arity == 2
}

/// The atom naming this function.
pub fn function() -> (name: String)
    ensures
        name@ == "is_key"@,
{
    "is_key".to_owned()
}

/// The callable this module implements: `maps:is_key/2`.
pub fn module_function_arity() -> (mfa: ModuleFunctionArity)
    ensures
        mfa.module@ == "maps"@,
        mfa.function@ == "is_key"@,
        mfa.arity == 2,
{
    ModuleFunctionArity { module: "maps".to_owned(), function: function(), arity: 2 }
}

/// The frame that runs this function.
pub fn frame() -> (f: Frame)
    ensures
        is_key_frame(f),
{
    Frame::new(module_function_arity(), CodeId::MapsIsKeyTwo)
}

/// Pushes the arguments and places the frame, so that the next scheduled
/// step runs `maps:is_key/2`.
pub fn place_frame_with_arguments(
    process: &mut Process,
    placement: Placement,
    key: Term,
    map: Term,
) -> (r: Result<(), crate::code::Alloc>)
    ensures
        r is Ok,
        final(process).stack@ == old(process).stack@.push(map).push(key),
        placement == Placement::Push ==> final(process).frames@.len() == old(
            process,
        ).frames@.len() + 1,
        placement == Placement::Replace ==> final(process).frames@.len() == (if old(
            process,
        ).frames@.len() == 0 {
            1int
        } else {
            old(process).frames@.len() as int
        }),
        forall|j: int|
            0 <= j < final(process).frames@.len() - 1 ==> #[trigger] final(process).frames@[j]
                == old(process).frames@[j],
        final(process).frames@.len() > 0 && is_key_frame(final(process).frames@.last()),
        final(process).mailbox == old(process).mailbox,
        final(process).atoms == old(process).atoms,
{
    process.stack_push(map);
    process.stack_push(key);
    process.place_frame(frame(), placement);
    Ok(())
}

/// Whether `map` holds `key`: the atom `true` or `false` for a map, and a
/// `{badmap, Map}` exception for anything else.
pub fn native(process: &mut Process, key: Term, map: Term) -> (r: Result<Term, Exception>)
    ensures
        match map@ {
            TermSpec::Mapping(pairs) => r matches Ok(t) && t@ == bool_view(
                mapping_has_key(pairs, key@),
            ),
            _ => (r matches Err(e) && e.reason@ == TermSpec::Tuple(
                seq![TermSpec::Atom("badmap"@), map@],
            )),
        },
        final(process).stack == old(process).stack,
        final(process).frames == old(process).frames,
        final(process).mailbox == old(process).mailbox,
{
    match &map {
        Term::Mapping(pairs) => {
            proof {
                crate::term::lemma_pairs_view(pairs@);
            }
            let n = pairs.len();
            let mut i: usize = 0;
            while i < n
                invariant
                    0 <= i <= n,
                    n == pairs@.len(),
                    map == Term::Mapping(*pairs),
                    *process == *old(process),
                    forall|j: int|
                        0 <= j < i ==> (#[trigger] pairs_view(pairs@)[j]).0 != key@,
                decreases n - i,
            {
                proof {
                    crate::term::lemma_pairs_view(pairs@);
                }
                let hit = pairs[i].0.eq(&key);
                if hit {
                    proof {
                        assert(pairs_view(pairs@)[i as int].0 == key@);
                        assert(mapping_has_key(pairs_view(pairs@), key@));
                    }
                    return Ok(crate::erlang::bool_atom(true, process));
                }
                proof {
                    assert(pairs_view(pairs@)[i as int].0 != key@);
                }
                i = i + 1;
            }
            proof {
                crate::term::lemma_pairs_view(pairs@);
                assert(!mapping_has_key(pairs_view(pairs@), key@));
            }
            Ok(crate::erlang::bool_atom(false, process))
        },
        _ => Err(badmap(map)),
    }
}

/// One scheduled step of `maps:is_key/2`: pops the key and map this module
/// placed, runs the check, and leaves the boolean result on the stack; a
/// non-map raises instead, leaving the arguments consumed.
pub fn code(process: &mut Process) -> (r: Result<(), Exception>)
    requires
        old(process).stack@.len() >= 2,
    ensures
        ({
            let key = old(process).stack@.last();
            let map = old(process).stack@[old(process).stack@.len() - 2];
            match map@ {
                TermSpec::Mapping(pairs) => r is Ok && final(process).stack@.len() == old(
                    process,
                ).stack@.len() - 1 && final(process).stack@.last()@ == bool_view(
                    mapping_has_key(pairs, key@),
                ),
                _ => (r matches Err(e) && e.reason@ == TermSpec::Tuple(
                    seq![TermSpec::Atom("badmap"@), map@],
                )),
            }
        }),
{
    let key = match process.stack_pop() {
        Some(t) => t,
        None => {
            return Ok(());
        },
    };
    let map = match process.stack_pop() {
        Some(t) => t,
        None => {
            return Ok(());
        },
    };
    proof {
        assert(key == old(process).stack@.last());
        assert(map == old(process).stack@[old(process).stack@.len() - 2]);
    }
    let result = native(process, key, map)?;
    process.stack_push(result);
    Ok(())
}

} // verus!
