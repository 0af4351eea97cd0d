//! The built-in functions over terms: arithmetic, tuple and list access,
//! binary slicing, and conversions between atoms, binaries and lists.

use vstd::prelude::*;

use crate::atom::{is_encoding_name, Encoding, Existence};
use crate::integer::make_integer;
use crate::process::Process;
use crate::term::{
    is_bitstring, lemma_bits_view, lemma_terms_view, spec_bit_count, spec_full_bytes, terms_view,
    BadArgument, Term, TermSpec,
};
use vstd::utf8::{decode_utf8, encode_utf8, valid_utf8};

verus! {

broadcast use vstd::utf8::encode_utf8_decode_utf8;

/// The model of the boolean terms: the atoms `true` and `false`.
pub open spec fn bool_view(b: bool) -> TermSpec {
    if b {
        TermSpec::Atom("true"@)
    } else {
        TermSpec::Atom("false"@)
    }
}

/// The list term holding the unicode code points of `chars`, in order.
pub open spec fn list_from_codepoints(chars: Seq<char>) -> TermSpec
    decreases chars.len(),
{
    if chars.len() == 0 {
        TermSpec::Nil
    } else {
        TermSpec::Cons(
            Box::new(TermSpec::Integer(chars[0] as u32 as int)),
            Box::new(list_from_codepoints(chars.drop_first())),
        )
    }
}

/// The number of list cells at the head of a term.
pub open spec fn cons_len(v: TermSpec) -> int
    decreases v,
{
    match v {
        TermSpec::Cons(_, t) => 1 + cons_len(*t),
        _ => 0,
    }
}

/// A cell count is never negative.
pub proof fn lemma_cons_len_nonneg(v: TermSpec)
    ensures
        cons_len(v) >= 0,
    decreases v,
{
    match v {
        TermSpec::Cons(_, t) => {
            lemma_cons_len_nonneg(*t);
        },
        _ => {},
    }
}

/// True of proper lists: a chain of list cells ending in the empty list.
pub open spec fn list_terminated(v: TermSpec) -> bool
    decreases v,
{
    match v {
        TermSpec::Cons(_, t) => list_terminated(*t),
        TermSpec::Nil => true,
        _ => false,
    }
}

/// Collects the characters of a string slice.
fn str_chars(s: &str) -> (v: Vec<char>)
    ensures
        v@ == s@,
{
    broadcast use vstd::string::next_postcondition;

    let mut it = s.chars();
    proof {
        vstd::string::axiom_spec_iter(s);
    }
    let mut out: Vec<char> = Vec::new();
    loop
        invariant
            out@ + vstd::std_specs::iter::IteratorSpec::remaining(&it) == s@,
            vstd::std_specs::iter::IteratorSpec::decrease(&it) is Some,
            vstd::std_specs::iter::IteratorSpec::obeys_prophetic_iter_laws(&it),
        decreases vstd::std_specs::iter::IteratorSpec::decrease(&it)->0,
    {
        let next = it.next();
        match next {
            Some(c) => {
                out.push(c);
                proof {
                    assert(out@ + vstd::std_specs::iter::IteratorSpec::remaining(&it) =~= s@);
                }
            },
            None => {
                proof {
                    assert(out@ =~= s@);
                }
                return out;
            },
        }
    }
}

/// Builds the list term of the code points of `chars`.
fn chars_to_list(chars: &Vec<char>, _process: &Process) -> (t: Term)
    ensures
        t@ == list_from_codepoints(chars@),
{
    let n = chars.len();
    let mut acc = Term::Nil;
    let mut i: usize = n;
    while i > 0
        invariant
            0 <= i <= n,
            n == chars@.len(),
            acc@ == list_from_codepoints(chars@.subrange(i as int, n as int)),
        decreases i,
    {
        i = i - 1;
        let code = make_integer(chars[i] as u32 as i128);
        let ghost before = chars@.subrange(i as int + 1, n as int);
        acc = Term::Cons(Box::new(code), Box::new(acc));
        proof {
            let now = chars@.subrange(i as int, n as int);
            assert(now.len() > 0);
            assert(now[0] == chars@[i as int]);
            assert(now.drop_first() =~= before);
        }
    }
    proof {
        assert(chars@.subrange(0, n as int) =~= chars@);
    }
    acc
}

/// The bytes of a bitstring term's full-byte content, as a vector.
fn bitstring_bytes(t: &Term) -> (v: Vec<u8>)
    ensures
        v@ == spec_full_bytes(*t),
{
    let n = t.full_byte_len();
    let mut out: Vec<u8> = Vec::new();
    let mut i: usize = 0;
    while i < n
        invariant
            0 <= i <= n,
            n == spec_full_bytes(*t).len(),
            out@.len() == i,
            forall|j: int| 0 <= j < i ==> out@[j] == spec_full_bytes(*t)[j],
        decreases n - i,
    {
        let b = t.full_byte_at(i);
        out.push(b);
        i = i + 1;
    }
    proof {
        assert(out@ =~= spec_full_bytes(*t));
    }
    out
}

/// Relies on str::from_utf8: it succeeds exactly on valid UTF-8 input, and
/// the decoded string re-encodes to the given bytes.
#[verifier::external_body]
fn string_from_utf8(bytes: &Vec<u8>) -> (r: Option<String>)
    ensures
        r is Some <==> valid_utf8(bytes@),
        r matches Some(s) ==> encode_utf8(s@) == bytes@,
{
    match core::str::from_utf8(bytes.as_slice()) {
        Ok(s) => Some(s.to_owned()),
        Err(_) => None,
    }
}

/// The encoding denoted by a term: an atom named `latin1`, `unicode` or
/// `utf8`. Anything else is rejected.
pub fn atom_to_encoding(encoding: &Term) -> (r: Result<Encoding, BadArgument>)
    ensures
        r is Ok <==> (encoding@ matches TermSpec::Atom(n) && is_encoding_name(n)),
{
    match encoding {
        Term::Atom(name) => {
            if name.eq(&"latin1".to_owned()) {
                Ok(Encoding::Latin1)
            } else if name.eq(&"unicode".to_owned()) {
                Ok(Encoding::Unicode)
            } else if name.eq(&"utf8".to_owned()) {
                Ok(Encoding::Utf8)
            } else {
                Err(BadArgument)
            }
        },
        _ => Err(BadArgument),
    }
}

/// The absolute value of an integer term. Any other argument is rejected.
pub fn abs(number: Term, _process: &mut Process) -> (r: Result<Term, BadArgument>)
    requires
        number@ matches TermSpec::Integer(v) ==> v > i128::MIN,
    ensures
        match number@ {
            TermSpec::Integer(v) => r matches Ok(t) && t@ == TermSpec::Integer(
                if v < 0 {
                    -v
                } else {
                    v
                },
            ),
            _ => r is Err,
        },
{
    match &number {
        Term::SmallInteger(i) => {
            if *i < 0 {
                Ok(make_integer(-(*i as i128)))
            } else {
                Ok(number)
            }
        },
        Term::BigInteger(i) => {
            if *i < 0 {
                Ok(make_integer(-*i))
            } else {
                Ok(number)
            }
        },
        _ => Err(BadArgument),
    }
}

/// Appends an element at the end of a tuple. Any other subject is rejected.
pub fn append_element(tuple: Term, element: Term, _process: &mut Process) -> (r: Result<
    Term,
    BadArgument,
>)
    ensures
        match tuple@ {
            TermSpec::Tuple(s) => r matches Ok(t) && t@ == TermSpec::Tuple(s.push(element@)),
            _ => r is Err,
        },
{
    match tuple {
        Term::Tuple(mut elems) => {
            let ghost before = elems@;
            elems.push(element);
            proof {
                lemma_terms_view(before);
                lemma_terms_view(elems@);
                assert forall|j: int| 0 <= j < elems@.len() implies terms_view(elems@)[j]
                    == terms_view(before).push(element@)[j] by {
                    assert(terms_view(elems@)[j] == crate::term::term_view(elems@[j]));
                    if j < before.len() {
                        assert(terms_view(before)[j] == crate::term::term_view(before[j]));
                    }
                }
                assert(terms_view(elems@) =~= terms_view(before).push(element@));
            }
            Ok(Term::Tuple(elems))
        },
        _ => Err(BadArgument),
    }
}

/// The name of an atom, UTF-8 encoded into a binary. The encoding argument
/// must name an accepted encoding.
pub fn atom_to_binary(atom: Term, encoding: Term, process: &mut Process) -> (r: Result<
    Term,
    BadArgument,
>)
    ensures
        match (atom@, encoding@) {
            (TermSpec::Atom(name), TermSpec::Atom(enc)) => if is_encoding_name(enc) {
                r matches Ok(t) && t@ == (TermSpec::Bits {
                    bytes: encode_utf8(name),
                    bit_count: 0,
                    tail: 0,
                })
            } else {
                r is Err
            },
            _ => r is Err,
        },
{
    match &atom {
        Term::Atom(name) => {
            let _enc = atom_to_encoding(&encoding)?;
            let bytes = name.as_str().as_bytes();
            Ok(Term::slice_to_binary(bytes, process))
        },
        _ => Err(BadArgument),
    }
}

/// The name of an atom as a list of unicode code points. The encoding
/// argument must name an accepted encoding.
pub fn atom_to_list(atom: Term, encoding: Term, process: &mut Process) -> (r: Result<
    Term,
    BadArgument,
>)
    ensures
        match (atom@, encoding@) {
            (TermSpec::Atom(name), TermSpec::Atom(enc)) => if is_encoding_name(enc) {
                r matches Ok(t) && t@ == list_from_codepoints(name)
            } else {
                r is Err
            },
            _ => r is Err,
        },
{
    match &atom {
        Term::Atom(name) => {
            let _enc = atom_to_encoding(&encoding)?;
            let chars = str_chars(name.as_str());
            Ok(chars_to_list(&chars, process))
        },
        _ => Err(BadArgument),
    }
}

} // verus!

verus! {

/// The byte content of a bitstring model; the empty sequence otherwise.
pub open spec fn bits_bytes_of(v: TermSpec) -> Seq<u8> {
    match v {
        TermSpec::Bits { bytes, .. } => bytes,
        _ => Seq::empty(),
    }
}

/// The integer value denoted by a term, when it fits the machine index
/// range.
fn term_index(t: &Term) -> (r: Option<usize>)
    ensures
        match t@ {
            TermSpec::Integer(v) => if 0 <= v <= usize::MAX as int {
                r == Some(v as usize)
            } else {
                r is None
            },
            _ => r is None,
        },
{
    match t {
        Term::SmallInteger(i) => {
            if *i >= 0 && (*i as u128) <= (usize::MAX as u128) {
                Some(*i as usize)
            } else {
                None
            }
        },
        Term::BigInteger(i) => {
            if *i >= 0 && *i <= usize::MAX as i128 {
                Some(*i as usize)
            } else {
                None
            }
        },
        _ => None,
    }
}

/// The integer value denoted by a term.
fn term_int(t: &Term) -> (r: Option<i128>)
    ensures
        match t@ {
            TermSpec::Integer(v) => r matches Some(w) && w as int == v,
            _ => r is None,
        },
{
    match t {
        Term::SmallInteger(i) => Some(*i as i128),
        Term::BigInteger(i) => Some(*i),
        _ => None,
    }
}

/// A heap binary holding bytes `lo .. hi` of a bitstring's content.
fn bytes_range_binary(t: &Term, lo: usize, hi: usize) -> (r: Term)
    requires
        lo <= hi <= spec_full_bytes(*t).len(),
    ensures
        r@ == (TermSpec::Bits {
            bytes: spec_full_bytes(*t).subrange(lo as int, hi as int),
            bit_count: 0,
            tail: 0,
        }),
{
    let n = hi - lo;
    let mut out: Vec<u8> = Vec::new();
    let mut i: usize = 0;
    while i < n
        invariant
            0 <= i <= n,
            lo + n <= spec_full_bytes(*t).len(),
            hi == lo + n,
            out@.len() == i,
            forall|j: int| 0 <= j < i ==> out@[j] == spec_full_bytes(*t)[lo + j],
        decreases n - i,
    {
        let b = t.full_byte_at(lo + i);
        out.push(b);
        i = i + 1;
    }
    proof {
        assert(out@ =~= spec_full_bytes(*t).subrange(lo as int, hi as int));
    }
    Term::HeapBinary(out)
}

/// The byte range `binary_part` selects: `length` bytes starting at `start`,
/// reaching backward when `length` is negative.
pub open spec fn part_range(size: int, st: int, ln: int) -> (int, int) {
    if ln < 0 {
        (st + ln, st)
    } else {
        (st, st + ln)
    }
}

/// True when the selection lies inside the binary.
pub open spec fn part_valid(size: int, st: int, ln: int) -> bool {
    0 <= st <= size && 0 <= st + ln <= size
}

/// A part of a binary: `length` bytes starting at byte `start` of its
/// content (reaching backward when `length` is negative). Rejected unless
/// the subject is a binary, both indices are integers, and the selection
/// lies inside it.
pub fn binary_part(binary: Term, start: Term, length: Term, _process: &mut Process) -> (r: Result<
    Term,
    BadArgument,
>)
    ensures
        match (binary@, start@, length@) {
            (TermSpec::Bits { bytes, .. }, TermSpec::Integer(st), TermSpec::Integer(ln)) => {
                if part_valid(bytes.len() as int, st, ln) {
                    r matches Ok(t) && t@ == (TermSpec::Bits {
                        bytes: bytes.subrange(part_range(bytes.len() as int, st, ln).0, part_range(bytes.len() as int, st, ln).1),
                        bit_count: 0,
                        tail: 0,
                    })
                } else {
                    r is Err
                }
            },
            _ => r is Err,
        },
{
    match &binary {
        Term::HeapBinary(_) => (),
        Term::Subbinary { .. } => (),
        _ => {
            return Err(BadArgument);
        },
    }
    proof {
        lemma_bits_view(binary);
    }
    let size = binary.full_byte_len();
    let st = match term_int(&start) {
        Some(v) => v,
        None => {
            return Err(BadArgument);
        },
    };
    let ln = match term_int(&length) {
        Some(v) => v,
        None => {
            return Err(BadArgument);
        },
    };
    if st < 0 || st > size as i128 {
        return Err(BadArgument);
    }
    let end = match st.checked_add(ln) {
        Some(e) => e,
        None => {
            return Err(BadArgument);
        },
    };
    if end < 0 || end > size as i128 {
        return Err(BadArgument);
    }
    let lo: usize = if ln < 0 {
        end as usize
    } else {
        st as usize
    };
    let hi: usize = if ln < 0 {
        st as usize
    } else {
        end as usize
    };
    let ghost subject_bytes = spec_full_bytes(binary);
    match binary {
        Term::HeapBinary(v) => {
            if lo == 0 && hi == v.len() {
                proof {
                    assert(v@.subrange(0, v@.len() as int) =~= v@);
                }
                Ok(Term::HeapBinary(v))
            } else {
                let count = hi - lo;
                let ghost vv = v@;
                let out = Term::Subbinary {
                    original: Box::new(Term::HeapBinary(v)),
                    byte_offset: lo,
                    bit_offset: 0,
                    byte_count: count,
                    bit_count: 0,
                };
                proof {
                    assert(crate::term::spec_sub_bytes(vv, lo as int, 0, count as int) =~= vv
                        .subrange(lo as int, hi as int));
                }
                Ok(out)
            }
        },
        Term::Subbinary { original, byte_offset, bit_offset, byte_count, bit_count } => {
            let ghost orig_bytes = crate::term::heap_bytes(*original);
            match byte_offset.checked_add(lo) {
                Some(new_offset) => {
                    let count = hi - lo;
                    let out = Term::Subbinary {
                        original,
                        byte_offset: new_offset,
                        bit_offset,
                        byte_count: count,
                        bit_count: 0,
                    };
                    proof {
                        assert(crate::term::spec_sub_bytes(
                            orig_bytes,
                            new_offset as int,
                            bit_offset,
                            count as int,
                        ) =~= subject_bytes.subrange(lo as int, hi as int));
                    }
                    Ok(out)
                },
                None => {
                    let rebuilt = Term::Subbinary {
                        original,
                        byte_offset,
                        bit_offset,
                        byte_count,
                        bit_count,
                    };
                    Ok(bytes_range_binary(&rebuilt, lo, hi))
                },
            }
        },
        _ => Err(BadArgument),
    }
}

/// True when the arguments let a binary be read as an atom name: an accepted
/// encoding, a binary without trailing bits, and UTF-8 content.
pub open spec fn to_atom_valid(bin: TermSpec, enc: TermSpec) -> bool {
    &&& enc matches TermSpec::Atom(e) && is_encoding_name(e)
    &&& bin matches TermSpec::Bits { bytes, bit_count, .. } && bit_count == 0 && valid_utf8(bytes)
}

/// The atom named by the UTF-8 content of a binary. With
/// `Existence::DoNotCare` the atom is created; with `Existence::Exists` the
/// conversion fails unless the process already knows it.
pub fn binary_existence_to_atom(
    binary: Term,
    encoding: Term,
    existence: Existence,
    process: &mut Process,
) -> (r: Result<Term, BadArgument>)
    ensures
        to_atom_valid(binary@, encoding@) && (existence == Existence::DoNotCare || old(
            process,
        ).has_atom(decode_utf8(bits_bytes_of(binary@)))) ==> (r matches Ok(t) && t@
            == TermSpec::Atom(decode_utf8(bits_bytes_of(binary@)))),
        !to_atom_valid(binary@, encoding@) ==> r is Err,
        to_atom_valid(binary@, encoding@) && existence == Existence::Exists && !old(
            process,
        ).has_atom(decode_utf8(bits_bytes_of(binary@))) ==> r is Err,
        forall|n: Seq<char>| old(process).has_atom(n) ==> final(process).has_atom(n),
        forall|n: Seq<char>|
            final(process).has_atom(n) ==> old(process).has_atom(n) || n == decode_utf8(
                bits_bytes_of(binary@),
            ),
        existence == Existence::Exists ==> forall|n: Seq<char>|
            final(process).has_atom(n) == old(process).has_atom(n),
        r is Ok ==> final(process).has_atom(decode_utf8(bits_bytes_of(binary@))),
        final(process).next_reference_id == old(process).next_reference_id,
{
    let _enc = atom_to_encoding(&encoding)?;
    match &binary {
        Term::HeapBinary(_) => (),
        Term::Subbinary { .. } => (),
        _ => {
            return Err(BadArgument);
        },
    }
    proof {
        lemma_bits_view(binary);
    }
    if binary.trailing_bit_count() != 0 {
        return Err(BadArgument);
    }
    let bytes = bitstring_bytes(&binary);
    match string_from_utf8(&bytes) {
        Some(s) => Term::str_to_atom(s.as_str(), existence, process),
        None => Err(BadArgument),
    }
}

/// The atom named by the UTF-8 content of a binary, created if new.
pub fn binary_to_atom(binary: Term, encoding: Term, process: &mut Process) -> (r: Result<
    Term,
    BadArgument,
>)
    ensures
        to_atom_valid(binary@, encoding@) ==> (r matches Ok(t) && t@ == TermSpec::Atom(
            decode_utf8(bits_bytes_of(binary@)),
        )),
        !to_atom_valid(binary@, encoding@) ==> r is Err,
        r is Ok ==> final(process).has_atom(decode_utf8(bits_bytes_of(binary@))),
        forall|n: Seq<char>| old(process).has_atom(n) ==> final(process).has_atom(n),
        forall|n: Seq<char>|
            final(process).has_atom(n) ==> old(process).has_atom(n) || n == decode_utf8(
                bits_bytes_of(binary@),
            ),
        final(process).next_reference_id == old(process).next_reference_id,
{
    binary_existence_to_atom(binary, encoding, Existence::DoNotCare, process)
}

/// The atom named by the UTF-8 content of a binary, only if the process
/// already knows it.
pub fn binary_to_existing_atom(binary: Term, encoding: Term, process: &mut Process) -> (r: Result<
    Term,
    BadArgument,
>)
    ensures
        to_atom_valid(binary@, encoding@) && old(process).has_atom(
            decode_utf8(bits_bytes_of(binary@)),
        ) ==> (r matches Ok(t) && t@ == TermSpec::Atom(decode_utf8(bits_bytes_of(binary@)))),
        !(to_atom_valid(binary@, encoding@) && old(process).has_atom(
            decode_utf8(bits_bytes_of(binary@)),
        )) ==> r is Err,
        r is Ok ==> final(process).has_atom(decode_utf8(bits_bytes_of(binary@))),
        forall|n: Seq<char>| final(process).has_atom(n) == old(process).has_atom(n),
        final(process).next_reference_id == old(process).next_reference_id,
{
    binary_existence_to_atom(binary, encoding, Existence::Exists, process)
}

/// The tuple with the element at the (zero-based) index removed. Rejected
/// unless the subject is a tuple and the index is inside it.
pub fn delete_element(tuple: Term, index: Term, _process: &mut Process) -> (r: Result<
    Term,
    BadArgument,
>)
    ensures
        match (tuple@, index@) {
            (TermSpec::Tuple(s), TermSpec::Integer(i)) => if 0 <= i < s.len() {
                r matches Ok(t) && t@ == TermSpec::Tuple(s.remove(i))
            } else {
                r is Err
            },
            _ => r is Err,
        },
{
    match tuple {
        Term::Tuple(mut elems) => {
            proof {
                lemma_terms_view(elems@);
            }
            let n = elems.len();
            let idx = match term_index(&index) {
                Some(i) => i,
                None => {
                    return Err(BadArgument);
                },
            };
            if idx >= n {
                return Err(BadArgument);
            }
            let ghost before = elems@;
            let _removed = elems.remove(idx);
            proof {
                lemma_terms_view(before);
                lemma_terms_view(elems@);
                assert forall|j: int| 0 <= j < elems@.len() implies terms_view(elems@)[j]
                    == terms_view(before).remove(idx as int)[j] by {
                    assert(terms_view(elems@)[j] == crate::term::term_view(elems@[j]));
                    if j < idx {
                        assert(terms_view(before)[j] == crate::term::term_view(before[j]));
                    } else {
                        assert(terms_view(before)[j + 1] == crate::term::term_view(before[j + 1]));
                    }
                }
                assert(terms_view(elems@) =~= terms_view(before).remove(idx as int));
            }
            Ok(Term::Tuple(elems))
        },
        _ => Err(BadArgument),
    }
}

/// The element of a tuple at the (zero-based) index. Rejected unless the
/// subject is a tuple and the index is inside it.
pub fn element(tuple: Term, index: Term) -> (r: Result<Term, BadArgument>)
    ensures
        match (tuple@, index@) {
            (TermSpec::Tuple(s), TermSpec::Integer(i)) => if 0 <= i < s.len() {
                r matches Ok(t) && t@ == s[i]
            } else {
                r is Err
            },
            _ => r is Err,
        },
{
    match &tuple {
        Term::Tuple(elems) => {
            proof {
                lemma_terms_view(elems@);
            }
            let n = elems.len();
            let idx = match term_index(&index) {
                Some(i) => i,
                None => {
                    return Err(BadArgument);
                },
            };
            if idx >= n {
                return Err(BadArgument);
            }
            Ok(elems[idx].clone())
        },
        _ => Err(BadArgument),
    }
}

/// The head of a list cell. Anything else is rejected.
pub fn head(list: Term) -> (r: Result<Term, BadArgument>)
    ensures
        match list@ {
            TermSpec::Cons(h, _) => r matches Ok(t) && t@ == *h,
            _ => r is Err,
        },
{
    match list {
        Term::Cons(h, _) => Ok(*h),
        _ => Err(BadArgument),
    }
}

/// The tail of a list cell. Anything else is rejected.
pub fn tail(list: Term) -> (r: Result<Term, BadArgument>)
    ensures
        match list@ {
            TermSpec::Cons(_, t2) => r matches Ok(t) && t@ == *t2,
            _ => r is Err,
        },
{
    match list {
        Term::Cons(_, t2) => Ok(*t2),
        _ => Err(BadArgument),
    }
}

/// The tuple with a new element inserted before the (zero-based) index.
/// Inserting at the tuple's size appends. Rejected unless the subject is a
/// tuple and the index is at most its size.
pub fn insert_element(tuple: Term, index: Term, element: Term, _process: &mut Process) -> (r:
    Result<Term, BadArgument>)
    ensures
        match (tuple@, index@) {
            (TermSpec::Tuple(s), TermSpec::Integer(i)) => if 0 <= i <= s.len() {
                r matches Ok(t) && t@ == TermSpec::Tuple(s.insert(i, element@))
            } else {
                r is Err
            },
            _ => r is Err,
        },
{
    match tuple {
        Term::Tuple(mut elems) => {
            proof {
                lemma_terms_view(elems@);
            }
            let n = elems.len();
            let idx = match term_index(&index) {
                Some(i) => i,
                None => {
                    return Err(BadArgument);
                },
            };
            if idx > n {
                return Err(BadArgument);
            }
            let ghost before = elems@;
            let ghost elem_view = element@;
            elems.insert(idx, element);
            proof {
                lemma_terms_view(before);
                lemma_terms_view(elems@);
                assert forall|j: int| 0 <= j < elems@.len() implies terms_view(elems@)[j]
                    == terms_view(before).insert(idx as int, elem_view)[j] by {
                    assert(terms_view(elems@)[j] == crate::term::term_view(elems@[j]));
                    if j < idx {
                        assert(terms_view(before)[j] == crate::term::term_view(before[j]));
                    } else if j > idx {
                        assert(terms_view(before)[j - 1] == crate::term::term_view(before[j - 1]));
                    }
                }
                assert(terms_view(elems@) =~= terms_view(before).insert(idx as int, elem_view));
            }
            Ok(Term::Tuple(elems))
        },
        _ => Err(BadArgument),
    }
}

/// The tuple with the element at the (one-based) index replaced. Rejected
/// unless the subject is a tuple and the index is inside it.
pub fn setelement_3(index: Term, tuple: Term, value: Term, _process: &mut Process) -> (r: Result<
    Term,
    BadArgument,
>)
    ensures
        match (tuple@, index@) {
            (TermSpec::Tuple(s), TermSpec::Integer(i)) => if 1 <= i <= s.len() {
                r matches Ok(t) && t@ == TermSpec::Tuple(s.update(i - 1, value@))
            } else {
                r is Err
            },
            _ => r is Err,
        },
{
    match tuple {
        Term::Tuple(mut elems) => {
            proof {
                lemma_terms_view(elems@);
            }
            let n = elems.len();
            let idx = match term_index(&index) {
                Some(i) => i,
                None => {
                    return Err(BadArgument);
                },
            };
            if idx < 1 || idx > n {
                return Err(BadArgument);
            }
            let ghost before = elems@;
            let ghost value_view = value@;
            elems.set(idx - 1, value);
            proof {
                lemma_terms_view(before);
                lemma_terms_view(elems@);
                assert forall|j: int| 0 <= j < elems@.len() implies terms_view(elems@)[j]
                    == terms_view(before).update(idx - 1, value_view)[j] by {
                    assert(terms_view(elems@)[j] == crate::term::term_view(elems@[j]));
                    if j != idx - 1 {
                        assert(terms_view(before)[j] == crate::term::term_view(before[j]));
                    }
                }
                assert(terms_view(elems@) =~= terms_view(before).update(idx - 1, value_view));
            }
            Ok(Term::Tuple(elems))
        },
        _ => Err(BadArgument),
    }
}

/// A boolean term: the atom `true` or `false`, known to the process
/// afterwards.
pub fn bool_atom(b: bool, process: &mut Process) -> (t: Term)
    ensures
        t@ == bool_view(b),
        forall|n: Seq<char>| old(process).has_atom(n) ==> final(process).has_atom(n),
        forall|n: Seq<char>|
            final(process).has_atom(n) ==> old(process).has_atom(n) || n == "true"@ || n
                == "false"@,
        final(process).next_reference_id == old(process).next_reference_id,
        final(process).stack == old(process).stack,
        final(process).frames == old(process).frames,
        final(process).mailbox == old(process).mailbox,
{
    let name: String = if b {
        "true".to_owned()
    } else {
        "false".to_owned()
    };
    process.intern_atom(&name);
    Term::Atom(name)
}

/// Whether the term is an atom, as a boolean term.
pub fn is_atom(term: Term, process: &mut Process) -> (r: Term)
    ensures
        r@ == bool_view(term@ is Atom),
        forall|n: Seq<char>| old(process).has_atom(n) ==> final(process).has_atom(n),
{
    let b = match &term {
        Term::Atom(_) => true,
        _ => false,
    };
    proof {
        crate::term::lemma_term_class(term);
    }
    bool_atom(b, process)
}

/// Whether the term is a binary (a bitstring without trailing bits), as a
/// boolean term.
pub fn is_binary(term: Term, process: &mut Process) -> (r: Term)
    ensures
        r@ == bool_view(term@ matches TermSpec::Bits { bit_count, .. } && bit_count == 0),
        forall|n: Seq<char>| old(process).has_atom(n) ==> final(process).has_atom(n),
{
    let b = match &term {
        Term::HeapBinary(_) => true,
        Term::Subbinary { .. } => term.trailing_bit_count() == 0,
        _ => false,
    };
    proof {
        if is_bitstring(term) {
            lemma_bits_view(term);
        } else {
            crate::term::lemma_term_class(term);
        }
    }
    bool_atom(b, process)
}

/// Whether the term is an integer, as a boolean term.
pub fn is_integer(term: Term, process: &mut Process) -> (r: Term)
    ensures
        r@ == bool_view(term@ is Integer),
        forall|n: Seq<char>| old(process).has_atom(n) ==> final(process).has_atom(n),
{
    let b = match &term {
        Term::SmallInteger(_) => true,
        Term::BigInteger(_) => true,
        _ => false,
    };
    proof {
        crate::term::lemma_term_class(term);
    }
    bool_atom(b, process)
}

/// Whether the term is a list (the empty list or a list cell), as a boolean
/// term.
pub fn is_list(term: Term, process: &mut Process) -> (r: Term)
    ensures
        r@ == bool_view(term@ is Nil || term@ is Cons),
        forall|n: Seq<char>| old(process).has_atom(n) ==> final(process).has_atom(n),
{
    let b = match &term {
        Term::Nil => true,
        Term::Cons(_, _) => true,
        _ => false,
    };
    proof {
        crate::term::lemma_term_class(term);
    }
    bool_atom(b, process)
}

/// Whether the term is a tuple, as a boolean term.
pub fn is_tuple(term: Term, process: &mut Process) -> (r: Term)
    ensures
        r@ == bool_view(term@ is Tuple),
        forall|n: Seq<char>| old(process).has_atom(n) ==> final(process).has_atom(n),
{
    let b = match &term {
        Term::Tuple(_) => true,
        _ => false,
    };
    proof {
        crate::term::lemma_term_class(term);
    }
    bool_atom(b, process)
}

/// The length of a proper list. Rejected on anything else, including a chain
/// of list cells that does not end in the empty list.
pub fn length(list: Term, process: &mut Process) -> (r: Result<Term, BadArgument>)
    requires
        cons_len(list@) <= usize::MAX,
    ensures
        list_terminated(list@) ==> (r matches Ok(t) && t@ == TermSpec::Integer(cons_len(list@))),
        !list_terminated(list@) ==> r is Err,
{
    let mut n: usize = 0;
    let mut tail_ref: &Term = &list;
    loop
        invariant
            n + cons_len(crate::term::term_view(*tail_ref)) == cons_len(list@),
            cons_len(list@) <= usize::MAX,
            list_terminated(crate::term::term_view(*tail_ref)) == list_terminated(list@),
        decreases *tail_ref,
    {
        match tail_ref {
            Term::Nil => {
                return Ok(make_integer(n as i128));
            },
            Term::Cons(_, t2) => {
                proof {
                    assert(decreases_to!(*tail_ref => *t2));
                    assert(cons_len(crate::term::term_view(*tail_ref)) == 1 + cons_len(
                        crate::term::term_view(**t2),
                    ));
                    lemma_cons_len_nonneg(crate::term::term_view(**t2));
                }
                n = n + 1;
                tail_ref = &**t2;
            },
            _ => {
                return Err(BadArgument);
            },
        }
    }
}

/// The size of a tuple (its arity) or of a binary (its byte count, trailing
/// bits not counted). Anything else is rejected.
pub fn size(binary_or_tuple: Term, process: &mut Process) -> (r: Result<Term, BadArgument>)
    ensures
        match binary_or_tuple@ {
            TermSpec::Tuple(s) => r matches Ok(t) && t@ == TermSpec::Integer(s.len() as int),
            TermSpec::Bits { bytes, .. } => r matches Ok(t) && t@ == TermSpec::Integer(
                bytes.len() as int,
            ),
            _ => r is Err,
        },
{
    match &binary_or_tuple {
        Term::Tuple(elems) => {
            proof {
                lemma_terms_view(elems@);
            }
            Ok(make_integer(elems.len() as i128))
        },
        Term::HeapBinary(_) => {
            proof {
                lemma_bits_view(binary_or_tuple);
            }
            Ok(make_integer(binary_or_tuple.full_byte_len() as i128))
        },
        Term::Subbinary { .. } => {
            proof {
                lemma_bits_view(binary_or_tuple);
            }
            Ok(make_integer(binary_or_tuple.full_byte_len() as i128))
        },
        _ => Err(BadArgument),
    }
}

/// Boolean conjunction with a lazily used right side: a `true` left returns
/// the right side unchanged, a `false` left returns `false`, and anything
/// else is rejected.
pub fn andalso_2(left: Term, right: Term) -> (r: Result<Term, BadArgument>)
    ensures
        match left@ {
            TermSpec::Atom(n) => if n == "true"@ {
                r matches Ok(t) && t@ == right@
            } else if n == "false"@ {
                r matches Ok(t) && t@ == TermSpec::Atom("false"@)
            } else {
                r is Err
            },
            _ => r is Err,
        },
{
    match left {
        Term::Atom(s) => {
            if s.eq(&"true".to_owned()) {
                Ok(right)
            } else if s.eq(&"false".to_owned()) {
                Ok(Term::Atom(s))
            } else {
                Err(BadArgument)
            }
        },
        _ => Err(BadArgument),
    }
}

} // verus!

verus! {

/// The integer a binary's text denotes in base 10. Rejected unless the
/// subject is a binary whose bytes form a decimal literal with a value the
/// library's integers can hold.
pub fn binary_to_integer(binary: Term, process: &mut Process) -> (r: Result<Term, BadArgument>)
    ensures
        match binary@ {
            TermSpec::Bits { bytes, bit_count, .. } => {
                if bit_count == 0 && crate::integer::valid_integer_literal(bytes, 10)
                    && crate::integer::fits_integer(crate::integer::literal_value(bytes, 10)) {
                    r matches Ok(t) && t@ == TermSpec::Integer(
                        crate::integer::literal_value(bytes, 10),
                    )
                } else {
                    r is Err
                }
            },
            _ => r is Err,
        },
{
    binary_in_base(binary, 10, process)
}

/// The integer a binary's text denotes in the given base. Rejected unless
/// the base names an integer between 2 and 36 and the subject is a binary
/// whose bytes form a literal of that base with a value the library's
/// integers can hold.
pub fn binary_in_base_to_integer(binary: Term, base: Term, process: &mut Process) -> (r: Result<
    Term,
    BadArgument,
>)
    ensures
        match base@ {
            TermSpec::Integer(b) => {
                if 2 <= b <= 36 {
                    match binary@ {
                        TermSpec::Bits { bytes, bit_count, .. } => {
                            if bit_count == 0 && crate::integer::valid_integer_literal(bytes, b)
                                && crate::integer::fits_integer(
                                crate::integer::literal_value(bytes, b),
                            ) {
                                r matches Ok(t) && t@ == TermSpec::Integer(
                                    crate::integer::literal_value(bytes, b),
                                )
                            } else {
                                r is Err
                            }
                        },
                        _ => r is Err,
                    }
                } else {
                    r is Err
                }
            },
            _ => r is Err,
        },
{
    let radix = match term_int(&base) {
        Some(v) => v,
        None => {
            return Err(BadArgument);
        },
    };
    if radix < 2 || radix > 36 {
        return Err(BadArgument);
    }
    binary_in_base(binary, radix as u8, process)
}

/// Reads a binary as an integer literal of the given radix.
fn binary_in_base(binary: Term, radix: u8, _process: &mut Process) -> (r: Result<
    Term,
    BadArgument,
>)
    requires
        2 <= radix <= 36,
    ensures
        match binary@ {
            TermSpec::Bits { bytes, bit_count, .. } => {
                if bit_count == 0 && crate::integer::valid_integer_literal(bytes, radix as int)
                    && crate::integer::fits_integer(
                    crate::integer::literal_value(bytes, radix as int),
                ) {
                    r matches Ok(t) && t@ == TermSpec::Integer(
                        crate::integer::literal_value(bytes, radix as int),
                    )
                } else {
                    r is Err
                }
            },
            _ => r is Err,
        },
{
    match &binary {
        Term::HeapBinary(_) => (),
        Term::Subbinary { .. } => (),
        _ => {
            return Err(BadArgument);
        },
    }
    proof {
        lemma_bits_view(binary);
    }
    if binary.trailing_bit_count() != 0 {
        return Err(BadArgument);
    }
    let bytes = bitstring_bytes(&binary);
    match crate::integer::parse_integer_literal(&bytes, radix) {
        Some(v) => Ok(make_integer(v)),
        None => Err(BadArgument),
    }
}

} // verus!
