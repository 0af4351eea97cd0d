//! Atom lookup policy and the encodings accepted by the atom conversion
//! functions.

use vstd::prelude::*;

verus! {

/// Whether an atom conversion may create a new atom or must find one that the
/// process already knows.
#[derive(Clone, Copy, PartialEq, Eq, Structural, Debug)]
pub enum Existence {
    /// Create the atom if it does not exist yet.
    DoNotCare,
    /// Fail unless the atom already exists.
    Exists,
}

/// The character encodings accepted as the `encoding` argument of the atom
/// conversion functions.
#[derive(Clone, Copy, PartialEq, Eq, Structural, Debug)]
pub enum Encoding {
    Latin1,
    Unicode,
    Utf8,
}

/// True of the atom names that denote an accepted encoding.
pub open spec fn is_encoding_name(name: Seq<char>) -> bool {
    name == "latin1"@ || name == "unicode"@ || name == "utf8"@
}

} // verus!
