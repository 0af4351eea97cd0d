//! The term representation: a tagged value covering atoms, integers, lists,
//! tuples, binaries (including bit-level sub-binaries), pids, references and
//! maps, together with its mathematical model.
//!
//! Equality of terms is content equality: a sub-binary that selects exactly
//! the bytes of a heap binary compares equal to that heap binary, and a small
//! integer compares equal to a boxed integer of the same value. The model of
//! a term (`TermSpec`) is therefore canonical: every bitstring maps to its
//! byte content plus trailing bits, and every integer maps to its value.

use vstd::prelude::*;

verus! {

/// The error returned by the built-in functions when an argument has the
/// wrong shape.
#[derive(Clone, Copy, PartialEq, Eq, Structural, Debug)]
pub struct BadArgument;

/// Largest pid number (exclusive) accepted by the pid constructors.
pub const PID_NUMBER_LIMIT: u64 = 32768;

/// Largest pid serial (exclusive) accepted by the pid constructors.
pub const PID_SERIAL_LIMIT: u64 = 8192;

/// The mathematical value of a term. Bitstrings are canonicalized to their
/// content, and integers to their unbounded value, so that two terms are
/// equal exactly when their models are equal.
pub enum TermSpec {
    Atom(Seq<char>),
    Integer(int),
    Float(u64),
    Reference(int),
    Pid { node: int, number: int, serial: int },
    Nil,
    Cons(Box<TermSpec>, Box<TermSpec>),
    Tuple(Seq<TermSpec>),
    Bits { bytes: Seq<u8>, bit_count: nat, tail: u8 },
    Header(int),
    Mapping(Seq<(TermSpec, TermSpec)>),
}

/// Byte `i` of a byte sequence, or zero when `i` is out of range. All bit
/// arithmetic on binaries is total: bits that do not exist read as zero.
pub open spec fn byte_or_zero(bytes: Seq<u8>, i: int) -> u8 {
    if 0 <= i < bytes.len() {
        bytes[i]
    } else {
        0
    }
}

/// Byte `i` of the byte view of a sub-binary: when the bit offset is zero it
/// is the underlying byte, otherwise it is assembled from two neighbouring
/// bytes of the original binary.
pub open spec fn spec_sub_byte(bytes: Seq<u8>, byte_offset: int, bit_offset: u8, i: int) -> u8 {
    if bit_offset == 0 {
        byte_or_zero(bytes, byte_offset + i)
    } else if bit_offset < 8 {
        (byte_or_zero(bytes, byte_offset + i) << bit_offset) | (byte_or_zero(
            bytes,
            byte_offset + i + 1,
        ) >> ((8 - bit_offset) as u8))
    } else {
        0
    }
}

/// The byte view of a sub-binary: `byte_count` bytes assembled starting at
/// the given byte and bit offsets of the original binary's bytes.
pub open spec fn spec_sub_bytes(
    bytes: Seq<u8>,
    byte_offset: int,
    bit_offset: u8,
    byte_count: int,
) -> Seq<u8> {
    Seq::new(byte_count as nat, |i: int| spec_sub_byte(bytes, byte_offset, bit_offset, i))
}

/// The value of the `bit_count` trailing bits of a sub-binary, right-aligned
/// in a byte. Zero when there are no trailing bits.
pub open spec fn spec_tail_bits(
    bytes: Seq<u8>,
    byte_offset: int,
    bit_offset: u8,
    byte_count: int,
    bit_count: u8,
) -> u8 {
    if bit_count == 0 {
        0
    } else if bit_offset < 8 && bit_count < 8 {
        let first = byte_or_zero(bytes, byte_offset + byte_count) << bit_offset;
        let partial = if bit_offset + bit_count > 8 {
            first | (byte_or_zero(bytes, byte_offset + byte_count + 1) >> ((8 - bit_offset) as u8))
        } else {
            first
        };
        partial >> ((8 - bit_count) as u8)
    } else {
        0
    }
}

/// The representation tag of a term: immediate values carry their own tag,
/// while heap-allocated values are `Boxed` and expose the tag of their header
/// through `unbox_tag`.
#[derive(Clone, Copy, PartialEq, Eq, Structural, Debug)]
pub enum Tag {
    Atom,
    SmallInteger,
    EmptyList,
    List,
    LocalPid,
    Arity,
    Boxed,
    BigInteger,
    Float,
    HeapBinary,
    Subbinary,
    LocalReference,
    ExternalPid,
    Mapping,
}

/// A term value. Every constructed term satisfies the representation
/// invariant: small integers lie in the small range, boxed integers outside
/// it, and a sub-binary selects bits that exist in its original binary.
#[derive(Debug)]
pub enum Term {
    Atom(String),
    SmallInteger(i64),
    BigInteger(i128),
    Float(u64),
    LocalReference(u64),
    LocalPid { number: u64, serial: u64 },
    ExternalPid { node: u64, number: u64, serial: u64 },
    Nil,
    Cons(Box<Term>, Box<Term>),
    Tuple(Vec<Term>),
    HeapBinary(Vec<u8>),
    Subbinary {
        original: Box<Term>,
        byte_offset: usize,
        bit_offset: u8,
        byte_count: usize,
        bit_count: u8,
    },
    Arity(u64),
    Mapping(Vec<(Term, Term)>),
}

/// The bytes of a heap binary term; the empty sequence for any other term.
pub open spec fn heap_bytes(t: Term) -> Seq<u8> {
    match t {
        Term::HeapBinary(v) => v@,
        _ => Seq::empty(),
    }
}

impl Term {
    /// The representation invariant: every constructor establishes it, and
    /// every function of the library preserves it. It is not required by the
    /// term operations, which are total; it pins the canonical
    /// representation (small integers in the small range, boxed integers
    /// outside it, sub-binaries selecting bits that exist).
    pub open spec fn wf(self) -> bool
        decreases self,
    {
        match self {
            Term::SmallInteger(i) => crate::MIN_SMALL <= i <= crate::MAX_SMALL,
            Term::BigInteger(i) => (i as int) < crate::MIN_SMALL as int || (i as int)
                > crate::MAX_SMALL as int,
            Term::LocalPid { number, serial } => number < PID_NUMBER_LIMIT && serial
                < PID_SERIAL_LIMIT,
            Term::ExternalPid { node, number, serial } => node != 0 && number < PID_NUMBER_LIMIT
                && serial < PID_SERIAL_LIMIT,
            Term::Cons(h, t2) => (*h).wf() && (*t2).wf(),
            Term::Tuple(elems) => forall|i: int|
                0 <= i < elems@.len() ==> #[trigger] elems@[i].wf(),
            Term::Subbinary { original, byte_offset, bit_offset, byte_count, bit_count } => {
                &&& (*original) is HeapBinary
                &&& bit_offset < 8
                &&& bit_count < 8
                &&& 8 * (byte_offset as int) + (bit_offset as int) + 8 * (byte_count as int) + (
                bit_count as int) <= 8 * heap_bytes(*original).len()
            },
            Term::Mapping(pairs) => forall|i: int|
                0 <= i < pairs@.len() ==> #[trigger] pairs@[i].0.wf() && pairs@[i].1.wf(),
            _ => true,
        }
    }
}

/// The models of a sequence of terms, in order.
pub open spec fn terms_view(s: Seq<Term>) -> Seq<TermSpec>
    decreases s,
{
    if s.len() == 0 {
        Seq::empty()
    } else {
        proof {
            vstd::seq::axiom_seq_index_decreases(s, s.len() - 1);
            vstd::seq::axiom_seq_subrange_decreases(s, 0, s.len() - 1);
            assert(s.drop_last() == s.subrange(0, s.len() - 1));
        }
        terms_view(s.drop_last()).push(term_view(s.last()))
    }
}

/// The models of a sequence of key-value pairs of terms, in order.
pub open spec fn pairs_view(s: Seq<(Term, Term)>) -> Seq<(TermSpec, TermSpec)>
    decreases s,
{
    if s.len() == 0 {
        Seq::empty()
    } else {
        proof {
            vstd::seq::axiom_seq_index_decreases(s, s.len() - 1);
            vstd::seq::axiom_seq_subrange_decreases(s, 0, s.len() - 1);
            assert(s.drop_last() == s.subrange(0, s.len() - 1));
        }
        pairs_view(s.drop_last()).push((term_view(s.last().0), term_view(s.last().1)))
    }
}

/// The model of a term: a canonical mathematical value (see `TermSpec`).
pub open spec fn term_view(t: Term) -> TermSpec
    decreases t,
{
    match t {
        Term::Atom(s) => TermSpec::Atom(s@),
        Term::SmallInteger(i) => TermSpec::Integer(i as int),
        Term::BigInteger(i) => TermSpec::Integer(i as int),
        Term::Float(bits) => TermSpec::Float(bits),
        Term::LocalReference(r) => TermSpec::Reference(r as int),
        Term::LocalPid { number, serial } => TermSpec::Pid {
            node: 0,
            number: number as int,
            serial: serial as int,
        },
        Term::ExternalPid { node, number, serial } => TermSpec::Pid {
            node: node as int,
            number: number as int,
            serial: serial as int,
        },
        Term::Nil => TermSpec::Nil,
        Term::Cons(h, t2) => TermSpec::Cons(Box::new(term_view(*h)), Box::new(term_view(*t2))),
        Term::Tuple(elems) => {
            proof {
                assert(decreases_to!(t => elems));
                assert(decreases_to!(elems => elems@));
            }
            TermSpec::Tuple(terms_view(elems@))
        },
        Term::HeapBinary(bytes) => TermSpec::Bits { bytes: bytes@, bit_count: 0, tail: 0 },
        Term::Subbinary { original, byte_offset, bit_offset, byte_count, bit_count } => {
            TermSpec::Bits {
                bytes: spec_sub_bytes(
                    heap_bytes(*original),
                    byte_offset as int,
                    bit_offset,
                    byte_count as int,
                ),
                bit_count: bit_count as nat,
                tail: spec_tail_bits(
                    heap_bytes(*original),
                    byte_offset as int,
                    bit_offset,
                    byte_count as int,
                    bit_count,
                ),
            }
        },
        Term::Arity(n) => TermSpec::Header(n as int),
        Term::Mapping(pairs) => {
            proof {
                assert(decreases_to!(t => pairs));
                assert(decreases_to!(pairs => pairs@));
            }
            TermSpec::Mapping(pairs_view(pairs@))
        },
    }
}

impl View for Term {
    type V = TermSpec;

    open spec fn view(&self) -> TermSpec {
        term_view(*self)
    }
}

/// `terms_view` is the pointwise model of the sequence.
pub proof fn lemma_terms_view(s: Seq<Term>)
    ensures
        terms_view(s).len() == s.len(),
        forall|i: int| 0 <= i < s.len() ==> terms_view(s)[i] == term_view(#[trigger] s[i]),
    decreases s.len(),
{
    if s.len() > 0 {
        lemma_terms_view(s.drop_last());
        assert forall|i: int| 0 <= i < s.len() implies terms_view(s)[i] == term_view(
            #[trigger] s[i],
        ) by {
            if i < s.len() - 1 {
                assert(s.drop_last()[i] == s[i]);
                assert(terms_view(s)[i] == terms_view(s.drop_last())[i]);
            } else {
                assert(s.last() == s[i]);
            }
        }
    }
}

/// `pairs_view` is the pointwise model of the sequence.
pub proof fn lemma_pairs_view(s: Seq<(Term, Term)>)
    ensures
        pairs_view(s).len() == s.len(),
        forall|i: int|
            0 <= i < s.len() ==> pairs_view(s)[i] == (
            term_view(#[trigger] s[i].0),
            term_view(s[i].1),
            ),
    decreases s.len(),
{
    if s.len() > 0 {
        lemma_pairs_view(s.drop_last());
        assert forall|i: int| 0 <= i < s.len() implies pairs_view(s)[i] == (
        term_view(#[trigger] s[i].0),
        term_view(s[i].1),
        ) by {
            if i < s.len() - 1 {
                assert(s.drop_last()[i] == s[i]);
                assert(pairs_view(s)[i] == pairs_view(s.drop_last())[i]);
            } else {
                assert(s.last() == s[i]);
            }
        }
    }
}

/// Byte `a + b + c` of a byte vector, or zero when that index does not exist.
fn vec_byte_or_zero(v: &Vec<u8>, a: usize, b: usize, c: usize) -> (r: u8)
    ensures
        r == byte_or_zero(v@, a as int + b as int + c as int),
{
    let n = v.len();
    match a.checked_add(b) {
        Some(ab) => match ab.checked_add(c) {
            Some(idx) => if idx < n {
                v[idx]
            } else {
                0
            },
            None => 0,
        },
        None => 0,
    }
}

/// Executable counterpart of `spec_sub_byte`.
fn sub_byte_exec(v: &Vec<u8>, byte_offset: usize, bit_offset: u8, i: usize) -> (r: u8)
    requires
        bit_offset < 8,
    ensures
        r == spec_sub_byte(v@, byte_offset as int, bit_offset, i as int),
{
    if bit_offset == 0 {
        vec_byte_or_zero(v, byte_offset, i, 0)
    } else {
        let b0 = vec_byte_or_zero(v, byte_offset, i, 0);
        let b1 = vec_byte_or_zero(v, byte_offset, i, 1);
        (b0 << bit_offset) | (b1 >> (8 - bit_offset))
    }
}

/// Executable counterpart of `spec_tail_bits`.
fn tail_bits_exec(
    v: &Vec<u8>,
    byte_offset: usize,
    bit_offset: u8,
    byte_count: usize,
    bit_count: u8,
) -> (r: u8)
    requires
        bit_offset < 8,
        bit_count < 8,
    ensures
        r == spec_tail_bits(v@, byte_offset as int, bit_offset, byte_count as int, bit_count),
{
    if bit_count == 0 {
        0
    } else {
        let first = vec_byte_or_zero(v, byte_offset, byte_count, 0) << bit_offset;
        let partial = if bit_offset + bit_count > 8 {
            first | (vec_byte_or_zero(v, byte_offset, byte_count, 1) >> (8 - bit_offset))
        } else {
            first
        };
        partial >> (8 - bit_count)
    }
}

/// Shifting or combining zero bytes gives zero.
proof fn lemma_zero_bits(k1: u8, k2: u8)
    ensures
        (0u8 << k1) == 0,
        (0u8 >> k2) == 0,
        (0u8 | 0u8) == 0,
{
    assert((0u8 << k1) == 0 && (0u8 >> k2) == 0 && (0u8 | 0u8) == 0) by (bit_vector);
}

/// True of the terms that carry binary data.
pub open spec fn is_bitstring(t: Term) -> bool {
    t is HeapBinary || t is Subbinary
}

/// The full bytes of a bitstring term's content.
pub open spec fn spec_full_bytes(t: Term) -> Seq<u8> {
    match t {
        Term::HeapBinary(v) => v@,
        Term::Subbinary { original, byte_offset, bit_offset, byte_count, .. } => spec_sub_bytes(
            heap_bytes(*original),
            byte_offset as int,
            bit_offset,
            byte_count as int,
        ),
        _ => Seq::empty(),
    }
}

/// The number of trailing bits of a bitstring term's content.
pub open spec fn spec_bit_count(t: Term) -> u8 {
    match t {
        Term::Subbinary { bit_count, .. } => bit_count,
        _ => 0,
    }
}

/// The value of the trailing bits of a bitstring term's content.
pub open spec fn spec_tail_of(t: Term) -> u8 {
    match t {
        Term::Subbinary { original, byte_offset, bit_offset, byte_count, bit_count } => {
            spec_tail_bits(
                heap_bytes(*original),
                byte_offset as int,
                bit_offset,
                byte_count as int,
                bit_count,
            )
        },
        _ => 0,
    }
}

/// The model of a bitstring term is its content.
pub proof fn lemma_bits_view(t: Term)
    requires
        is_bitstring(t),
    ensures
        term_view(t) == (TermSpec::Bits {
            bytes: spec_full_bytes(t),
            bit_count: spec_bit_count(t) as nat,
            tail: spec_tail_of(t),
        }),
{
}

impl Term {
    /// The number of full bytes of this bitstring's content; zero for
    /// non-binary terms.
    pub fn full_byte_len(&self) -> (n: usize)
        ensures
            n == spec_full_bytes(*self).len(),
    {
        match self {
            Term::HeapBinary(v) => v.len(),
            Term::Subbinary { byte_count, .. } => *byte_count,
            _ => 0,
        }
    }

    /// Byte `i` of this bitstring's content, or zero when out of range.
    pub fn full_byte_at(&self, i: usize) -> (r: u8)
        ensures
            r == byte_or_zero(spec_full_bytes(*self), i as int),
    {
        match self {
            Term::HeapBinary(v) => vec_byte_or_zero(v, i, 0, 0),
            Term::Subbinary { original, byte_offset, bit_offset, byte_count, .. } => {
                if i < *byte_count {
                    proof {
                        assert(byte_or_zero(spec_full_bytes(*self), i as int) == spec_sub_byte(
                            heap_bytes(**original),
                            *byte_offset as int,
                            *bit_offset,
                            i as int,
                        ));
                    }
                    match &**original {
                        Term::HeapBinary(v) => {
                            if *bit_offset < 8 {
                                sub_byte_exec(v, *byte_offset, *bit_offset, i)
                            } else {
                                0
                            }
                        },
                        _ => {
                            proof {
                                if 0 < *bit_offset < 8 {
                                    lemma_zero_bits(*bit_offset, (8 - *bit_offset) as u8);
                                }
                            }
                            0
                        },
                    }
                } else {
                    0
                }
            },
            _ => 0,
        }
    }

    /// The number of trailing bits of this bitstring's content.
    pub fn trailing_bit_count(&self) -> (r: u8)
        ensures
            r == spec_bit_count(*self),
    {
        match self {
            Term::Subbinary { bit_count, .. } => *bit_count,
            _ => 0,
        }
    }

    /// The value of the trailing bits of this bitstring's content.
    pub fn trailing_bits(&self) -> (r: u8)
        ensures
            r == spec_tail_of(*self),
    {
        match self {
            Term::Subbinary { original, byte_offset, bit_offset, byte_count, bit_count } => {
                if *bit_count == 0 {
                    0
                } else if *bit_offset < 8 && *bit_count < 8 {
                    match &**original {
                        Term::HeapBinary(v) => tail_bits_exec(
                            v,
                            *byte_offset,
                            *bit_offset,
                            *byte_count,
                            *bit_count,
                        ),
                        _ => {
                            proof {
                                lemma_zero_bits(*bit_offset, (8 - *bit_offset) as u8);
                                lemma_zero_bits(0, (8 - *bit_count) as u8);
                            }
                            0
                        },
                    }
                } else {
                    0
                }
            },
            _ => 0,
        }
    }
}

impl Term {
    /// The representation tag of this term.
    pub fn tag(&self) -> (t: Tag)
        ensures
            t == self.spec_tag(),
    {
        match self {
            Term::Atom(_) => Tag::Atom,
            Term::SmallInteger(_) => Tag::SmallInteger,
            Term::Nil => Tag::EmptyList,
            Term::Cons(_, _) => Tag::List,
            Term::LocalPid { .. } => Tag::LocalPid,
            Term::Arity(_) => Tag::Arity,
            _ => Tag::Boxed,
        }
    }

    /// The tag that `tag` returns, as a specification.
    pub open spec fn spec_tag(self) -> Tag {
        match self {
            Term::Atom(_) => Tag::Atom,
            Term::SmallInteger(_) => Tag::SmallInteger,
            Term::Nil => Tag::EmptyList,
            Term::Cons(_, _) => Tag::List,
            Term::LocalPid { .. } => Tag::LocalPid,
            Term::Arity(_) => Tag::Arity,
            _ => Tag::Boxed,
        }
    }

    /// The tag of the boxed value's header, for terms whose tag is `Boxed`.
    pub fn unbox_tag(&self) -> (t: Tag)
        requires
            self.spec_tag() == Tag::Boxed,
        ensures
            t == self.spec_unbox_tag(),
    {
        match self {
            Term::BigInteger(_) => Tag::BigInteger,
            Term::Float(_) => Tag::Float,
            Term::LocalReference(_) => Tag::LocalReference,
            Term::ExternalPid { .. } => Tag::ExternalPid,
            Term::Tuple(_) => Tag::Arity,
            Term::HeapBinary(_) => Tag::HeapBinary,
            Term::Subbinary { .. } => Tag::Subbinary,
            Term::Mapping(_) => Tag::Mapping,
            _ => Tag::Boxed,
        }
    }

    /// The tag that `unbox_tag` returns, as a specification.
    pub open spec fn spec_unbox_tag(self) -> Tag {
        match self {
            Term::BigInteger(_) => Tag::BigInteger,
            Term::Float(_) => Tag::Float,
            Term::LocalReference(_) => Tag::LocalReference,
            Term::ExternalPid { .. } => Tag::ExternalPid,
            Term::Tuple(_) => Tag::Arity,
            Term::HeapBinary(_) => Tag::HeapBinary,
            Term::Subbinary { .. } => Tag::Subbinary,
            Term::Mapping(_) => Tag::Mapping,
            _ => Tag::Boxed,
        }
    }
}

} // verus!



verus! {

/// The constructor class of a model value. Terms of different classes are
/// never equal; terms of one class are compared by content.
pub open spec fn view_class(v: TermSpec) -> int {
    match v {
        TermSpec::Atom(_) => 0,
        TermSpec::Integer(_) => 1,
        TermSpec::Float(_) => 2,
        TermSpec::Reference(_) => 3,
        TermSpec::Pid { .. } => 4,
        TermSpec::Nil => 5,
        TermSpec::Cons(_, _) => 6,
        TermSpec::Tuple(_) => 7,
        TermSpec::Bits { .. } => 8,
        TermSpec::Header(_) => 9,
        TermSpec::Mapping(_) => 10,
    }
}

/// The constructor class of a term's model, read off its representation.
pub open spec fn term_class(t: Term) -> int {
    match t {
        Term::Atom(_) => 0,
        Term::SmallInteger(_) => 1,
        Term::BigInteger(_) => 1,
        Term::Float(_) => 2,
        Term::LocalReference(_) => 3,
        Term::LocalPid { .. } => 4,
        Term::ExternalPid { .. } => 4,
        Term::Nil => 5,
        Term::Cons(_, _) => 6,
        Term::Tuple(_) => 7,
        Term::HeapBinary(_) => 8,
        Term::Subbinary { .. } => 8,
        Term::Arity(_) => 9,
        Term::Mapping(_) => 10,
    }
}

/// A term's model lies in the class of its representation.
pub proof fn lemma_term_class(t: Term)
    ensures
        view_class(term_view(t)) == term_class(t),
{
    match t {
        Term::Atom(_) => {},
        Term::SmallInteger(_) => {},
        Term::BigInteger(_) => {},
        Term::Float(_) => {},
        Term::LocalReference(_) => {},
        Term::LocalPid { .. } => {},
        Term::ExternalPid { .. } => {},
        Term::Nil => {},
        Term::Cons(_, _) => {},
        Term::Tuple(_) => {},
        Term::HeapBinary(_) => {},
        Term::Subbinary { .. } => {},
        Term::Arity(_) => {},
        Term::Mapping(_) => {},
    }
}

/// Compares two bitstring terms by content.
fn bits_eq(a: &Term, b: &Term) -> (r: bool)
    requires
        is_bitstring(*a),
        is_bitstring(*b),
    ensures
        r == (a@ == b@),
{
    proof {
        lemma_bits_view(*a);
        lemma_bits_view(*b);
    }
    let la = a.full_byte_len();
    let lb = b.full_byte_len();
    if la != lb {
        return false;
    }
    let mut i: usize = 0;
    while i < la
        invariant
            0 <= i <= la,
            la == spec_full_bytes(*a).len(),
            la == spec_full_bytes(*b).len(),
            is_bitstring(*a),
            is_bitstring(*b),
            forall|j: int|
                0 <= j < i ==> spec_full_bytes(*a)[j] == spec_full_bytes(*b)[j],
        decreases la - i,
    {
        let ba = a.full_byte_at(i);
        let bb = b.full_byte_at(i);
        if ba != bb {
            proof {
                lemma_bits_view(*a);
                lemma_bits_view(*b);
                assert(spec_full_bytes(*a)[i as int] != spec_full_bytes(*b)[i as int]);
            }
            return false;
        }
        i = i + 1;
    }
    if a.trailing_bit_count() != b.trailing_bit_count() {
        return false;
    }
    if a.trailing_bits() != b.trailing_bits() {
        return false;
    }
    proof {
        assert(spec_full_bytes(*a) =~= spec_full_bytes(*b));
    }
    true
}

impl PartialEq for Term {
    /// Content equality: the two terms have one model.
    fn eq(&self, other: &Term) -> (r: bool)
        decreases *self,
    {
        match (self, other) {
            (Term::Atom(a), Term::Atom(b)) => a.eq(b),
            (Term::SmallInteger(a), Term::SmallInteger(b)) => *a == *b,
            (Term::SmallInteger(a), Term::BigInteger(b)) => (*a as i128) == *b,
            (Term::BigInteger(a), Term::SmallInteger(b)) => *a == (*b as i128),
            (Term::BigInteger(a), Term::BigInteger(b)) => *a == *b,
            (Term::Float(a), Term::Float(b)) => *a == *b,
            (Term::LocalReference(a), Term::LocalReference(b)) => *a == *b,
            (
                Term::LocalPid { number: n1, serial: s1 },
                Term::LocalPid { number: n2, serial: s2 },
            ) => *n1 == *n2 && *s1 == *s2,
            (
                Term::LocalPid { number: n1, serial: s1 },
                Term::ExternalPid { node, number: n2, serial: s2 },
            ) => *node == 0 && *n1 == *n2 && *s1 == *s2,
            (
                Term::ExternalPid { node, number: n1, serial: s1 },
                Term::LocalPid { number: n2, serial: s2 },
            ) => *node == 0 && *n1 == *n2 && *s1 == *s2,
            (
                Term::ExternalPid { node: d1, number: n1, serial: s1 },
                Term::ExternalPid { node: d2, number: n2, serial: s2 },
            ) => *d1 == *d2 && *n1 == *n2 && *s1 == *s2,
            (Term::Nil, Term::Nil) => true,
            (Term::Cons(h1, t1), Term::Cons(h2, t2)) => {
                proof {
                    assert(decreases_to!(*self => *h1));
                    assert(decreases_to!(*self => *t1));
                }
                let heads = (&**h1).eq(&**h2);
                if heads {
                    (&**t1).eq(&**t2)
                } else {
                    false
                }
            },
            (Term::Tuple(e1), Term::Tuple(e2)) => {
                proof {
                    lemma_terms_view(e1@);
                    lemma_terms_view(e2@);
                }
                if e1.len() != e2.len() {
                    return false;
                }
                let n = e1.len();
                let mut i: usize = 0;
                while i < n
                    invariant
                        0 <= i <= n,
                        n == e1@.len(),
                        n == e2@.len(),
                        *self == Term::Tuple(*e1),
                        *other == Term::Tuple(*e2),
                        forall|j: int|
                            0 <= j < i ==> term_view(#[trigger] e1@[j]) == term_view(e2@[j]),
                    decreases n - i,
                {
                    proof {
                        assert(decreases_to!(*self => (*self)->Tuple_0));
                        assert(decreases_to!(*self => *e1));
                        vstd::std_specs::vec::axiom_vec_decreases_to_view(*e1);
                        vstd::seq::axiom_seq_index_decreases(e1@, i as int);
                    }
                    let same = e1[i].eq(&e2[i]);
                    if !same {
                        proof {
                            lemma_terms_view(e1@);
                            lemma_terms_view(e2@);
                            assert(terms_view(e1@)[i as int] != terms_view(e2@)[i as int]);
                        }
                        return false;
                    }
                    i = i + 1;
                }
                proof {
                    lemma_terms_view(e1@);
                    lemma_terms_view(e2@);
                    assert forall|j: int| 0 <= j < e1@.len() implies terms_view(e1@)[j]
                        == terms_view(e2@)[j] by {
                        assert(terms_view(e1@)[j] == term_view(e1@[j]));
                        assert(terms_view(e2@)[j] == term_view(e2@[j]));
                    }
                    assert(terms_view(e1@) =~= terms_view(e2@));
                }
                true
            },
            (Term::HeapBinary(_), Term::HeapBinary(_)) => bits_eq(self, other),
            (Term::HeapBinary(_), Term::Subbinary { .. }) => bits_eq(self, other),
            (Term::Subbinary { .. }, Term::HeapBinary(_)) => bits_eq(self, other),
            (Term::Subbinary { .. }, Term::Subbinary { .. }) => bits_eq(self, other),
            (Term::Arity(a), Term::Arity(b)) => *a == *b,
            (Term::Mapping(p1), Term::Mapping(p2)) => {
                proof {
                    lemma_pairs_view(p1@);
                    lemma_pairs_view(p2@);
                }
                if p1.len() != p2.len() {
                    return false;
                }
                let n = p1.len();
                let mut i: usize = 0;
                while i < n
                    invariant
                        0 <= i <= n,
                        n == p1@.len(),
                        n == p2@.len(),
                        *self == Term::Mapping(*p1),
                        *other == Term::Mapping(*p2),
                        forall|j: int|
                            0 <= j < i ==> term_view(#[trigger] p1@[j].0) == term_view(p2@[j].0)
                                && term_view(p1@[j].1) == term_view(p2@[j].1),
                    decreases n - i,
                {
                    proof {
                        assert(decreases_to!(*self => (*self)->Mapping_0));
                        assert(decreases_to!(*self => *p1));
                        vstd::std_specs::vec::axiom_vec_decreases_to_view(*p1);
                        vstd::seq::axiom_seq_index_decreases(p1@, i as int);
                        assert(decreases_to!(p1@[i as int] => p1@[i as int].0));
                        assert(decreases_to!(p1@[i as int] => p1@[i as int].1));
                    }
                    let same_key = p1[i].0.eq(&p2[i].0);
                    if !same_key {
                        proof {
                            lemma_pairs_view(p1@);
                            lemma_pairs_view(p2@);
                            assert(pairs_view(p1@)[i as int] != pairs_view(p2@)[i as int]);
                        }
                        return false;
                    }
                    let same_value = p1[i].1.eq(&p2[i].1);
                    if !same_value {
                        proof {
                            lemma_pairs_view(p1@);
                            lemma_pairs_view(p2@);
                            assert(pairs_view(p1@)[i as int] != pairs_view(p2@)[i as int]);
                        }
                        return false;
                    }
                    i = i + 1;
                }
                proof {
                    lemma_pairs_view(p1@);
                    lemma_pairs_view(p2@);
                    assert forall|j: int| 0 <= j < p1@.len() implies pairs_view(p1@)[j]
                        == pairs_view(p2@)[j] by {
                        assert(pairs_view(p1@)[j] == (term_view(p1@[j].0), term_view(p1@[j].1)));
                        assert(pairs_view(p2@)[j] == (term_view(p2@[j].0), term_view(p2@[j].1)));
                    }
                    assert(pairs_view(p1@) =~= pairs_view(p2@));
                }
                true
            },
            _ => {
                proof {
                    lemma_term_class(*self);
                    lemma_term_class(*other);
                    assert(term_class(*self) != term_class(*other));
                }
                false
            },
        }
    }
}

impl vstd::std_specs::cmp::PartialEqSpecImpl for Term {
    open spec fn obeys_eq_spec() -> bool {
        true
    }

    open spec fn eq_spec(&self, other: &Term) -> bool {
        self@ == other@
    }
}

} // verus!

verus! {

/// A copy of a byte vector.
pub fn copy_bytes(v: &Vec<u8>) -> (r: Vec<u8>)
    ensures
        r@ == v@,
{
    let mut out: Vec<u8> = Vec::new();
    let n = v.len();
    let mut i: usize = 0;
    while i < n
        invariant
            0 <= i <= n,
            n == v@.len(),
            out@ == v@.subrange(0, i as int),
        decreases n - i,
    {
        out.push(v[i]);
        proof {
            assert(out@ =~= v@.subrange(0, i as int + 1));
        }
        i = i + 1;
    }
    proof {
        assert(v@.subrange(0, n as int) =~= v@);
    }
    out
}

impl Clone for Term {
    /// A deep copy with the same model and, for a heap binary, the same
    /// bytes.
    fn clone(&self) -> (res: Term)
        ensures
            res@ == self@,
            heap_bytes(res) == heap_bytes(*self),
        decreases *self,
    {
        match self {
            Term::Atom(s) => Term::Atom(s.clone()),
            Term::SmallInteger(i) => Term::SmallInteger(*i),
            Term::BigInteger(i) => Term::BigInteger(*i),
            Term::Float(bits) => Term::Float(*bits),
            Term::LocalReference(r) => Term::LocalReference(*r),
            Term::LocalPid { number, serial } => Term::LocalPid {
                number: *number,
                serial: *serial,
            },
            Term::ExternalPid { node, number, serial } => Term::ExternalPid {
                node: *node,
                number: *number,
                serial: *serial,
            },
            Term::Nil => Term::Nil,
            Term::Cons(h, t) => {
                proof {
                    assert(decreases_to!(*self => *h));
                    assert(decreases_to!(*self => *t));
                }
                Term::Cons(Box::new((&**h).clone()), Box::new((&**t).clone()))
            },
            Term::Tuple(e) => {
                let n = e.len();
                let mut out: Vec<Term> = Vec::new();
                let mut i: usize = 0;
                while i < n
                    invariant
                        0 <= i <= n,
                        n == e@.len(),
                        out@.len() == i,
                        *self == Term::Tuple(*e),
                        forall|j: int|
                            0 <= j < i ==> term_view(#[trigger] out@[j]) == term_view(e@[j]),
                    decreases n - i,
                {
                    proof {
                        assert(decreases_to!(*self => (*self)->Tuple_0));
                        assert(decreases_to!(*self => *e));
                        vstd::std_specs::vec::axiom_vec_decreases_to_view(*e);
                        vstd::seq::axiom_seq_index_decreases(e@, i as int);
                    }
                    out.push(e[i].clone());
                    i = i + 1;
                }
                proof {
                    lemma_terms_view(out@);
                    lemma_terms_view(e@);
                    assert forall|j: int| 0 <= j < e@.len() implies terms_view(out@)[j]
                        == terms_view(e@)[j] by {
                        assert(terms_view(out@)[j] == term_view(out@[j]));
                        assert(terms_view(e@)[j] == term_view(e@[j]));
                    }
                    assert(terms_view(out@) =~= terms_view(e@));
                }
                Term::Tuple(out)
            },
            Term::HeapBinary(v) => Term::HeapBinary(copy_bytes(v)),
            Term::Subbinary { original, byte_offset, bit_offset, byte_count, bit_count } => {
                proof {
                    assert(decreases_to!(*self => *original));
                }
                Term::Subbinary {
                    original: Box::new((&**original).clone()),
                    byte_offset: *byte_offset,
                    bit_offset: *bit_offset,
                    byte_count: *byte_count,
                    bit_count: *bit_count,
                }
            },
            Term::Arity(a) => Term::Arity(*a),
            Term::Mapping(p) => {
                let n = p.len();
                let mut out: Vec<(Term, Term)> = Vec::new();
                let mut i: usize = 0;
                while i < n
                    invariant
                        0 <= i <= n,
                        n == p@.len(),
                        out@.len() == i,
                        *self == Term::Mapping(*p),
                        forall|j: int|
                            0 <= j < i ==> term_view(#[trigger] out@[j].0) == term_view(p@[j].0)
                                && term_view(out@[j].1) == term_view(p@[j].1),
                    decreases n - i,
                {
                    proof {
                        assert(decreases_to!(*self => (*self)->Mapping_0));
                        assert(decreases_to!(*self => *p));
                        vstd::std_specs::vec::axiom_vec_decreases_to_view(*p);
                        vstd::seq::axiom_seq_index_decreases(p@, i as int);
                        assert(decreases_to!(p@[i as int] => p@[i as int].0));
                        assert(decreases_to!(p@[i as int] => p@[i as int].1));
                    }
                    let key = p[i].0.clone();
                    let value = p[i].1.clone();
                    out.push((key, value));
                    i = i + 1;
                }
                proof {
                    lemma_pairs_view(out@);
                    lemma_pairs_view(p@);
                    assert forall|j: int| 0 <= j < p@.len() implies pairs_view(out@)[j]
                        == pairs_view(p@)[j] by {
                        assert(pairs_view(out@)[j] == (term_view(out@[j].0), term_view(out@[j].1)));
                        assert(pairs_view(p@)[j] == (term_view(p@[j].0), term_view(p@[j].1)));
                    }
                    assert(pairs_view(out@) =~= pairs_view(p@));
                }
                Term::Mapping(out)
            },
        }
    }
}

} // verus!

verus! {

impl Term {
    /// The empty list.
    pub fn empty_list() -> (t: Term)
        ensures
            t@ == TermSpec::Nil,
    {
        Term::Nil
    }

    /// An atom term for the given name. With `Existence::DoNotCare` the atom
    /// is created if needed; with `Existence::Exists` the conversion fails
    /// unless the process already knows the atom.
    pub fn str_to_atom(
        name: &str,
        existence: crate::atom::Existence,
        process: &mut crate::process::Process,
    ) -> (r: Result<Term, BadArgument>)
        ensures
            existence == crate::atom::Existence::DoNotCare || old(process).has_atom(name@)
                ==> (r matches Ok(t) && t@ == TermSpec::Atom(name@)),
            existence == crate::atom::Existence::Exists && !old(process).has_atom(name@)
                ==> r matches Err(_),
            final(process).has_atom(name@) == (existence == crate::atom::Existence::DoNotCare
                || old(process).has_atom(name@)),
            forall|n: Seq<char>| old(process).has_atom(n) ==> final(process).has_atom(n),
            forall|n: Seq<char>|
                final(process).has_atom(n) ==> old(process).has_atom(n) || n == name@,
            final(process).next_reference_id == old(process).next_reference_id,
    {
        let owned = name.to_owned();
        match existence {
            crate::atom::Existence::DoNotCare => {
                process.intern_atom(&owned);
                Ok(Term::Atom(owned))
            },
            crate::atom::Existence::Exists => {
                if process.knows_atom(&owned) {
                    Ok(Term::Atom(owned))
                } else {
                    Err(BadArgument)
                }
            },
        }
    }

    /// A heap binary holding a copy of the given bytes.
    pub fn slice_to_binary(bytes: &[u8], _process: &crate::process::Process) -> (t: Term)
        ensures
            t@ == (TermSpec::Bits { bytes: bytes@, bit_count: 0, tail: 0 }),
            t is HeapBinary,
            heap_bytes(t) == bytes@,
    {
        let n = bytes.len();
        let mut out: Vec<u8> = Vec::new();
        let mut i: usize = 0;
        while i < n
            invariant
                0 <= i <= n,
                n == bytes@.len(),
                out@ == bytes@.subrange(0, i as int),
            decreases n - i,
        {
            out.push(bytes[i]);
            proof {
                assert(out@ =~= bytes@.subrange(0, i as int + 1));
            }
            i = i + 1;
        }
        proof {
            assert(bytes@.subrange(0, n as int) =~= bytes@);
        }
        Term::HeapBinary(out)
    }

    /// A sub-binary selecting `byte_count` bytes and `bit_count` trailing
    /// bits of `original`, starting `byte_offset` bytes plus `bit_offset`
    /// bits into it.
    pub fn subbinary(
        original: Term,
        byte_offset: usize,
        bit_offset: u8,
        byte_count: usize,
        bit_count: u8,
        _process: &crate::process::Process,
    ) -> (t: Term)
        requires
            original is HeapBinary,
            bit_offset < 8,
            bit_count < 8,
            8 * (byte_offset as int) + (bit_offset as int) + 8 * (byte_count as int) + (
            bit_count as int) <= 8 * heap_bytes(original).len(),
        ensures
            t@ == (TermSpec::Bits {
                bytes: spec_sub_bytes(
                    heap_bytes(original),
                    byte_offset as int,
                    bit_offset,
                    byte_count as int,
                ),
                bit_count: bit_count as nat,
                tail: spec_tail_bits(
                    heap_bytes(original),
                    byte_offset as int,
                    bit_offset,
                    byte_count as int,
                    bit_count,
                ),
            }),
            t.wf(),
            t is Subbinary,
    {
        Term::Subbinary {
            original: Box::new(original),
            byte_offset,
            bit_offset,
            byte_count,
            bit_count,
        }
    }

    /// A tuple holding copies of the given elements, in order.
    pub fn slice_to_tuple(elements: &[Term], _process: &crate::process::Process) -> (t: Term)
        ensures
            t@ == TermSpec::Tuple(terms_view(elements@)),
    {
        let n = elements.len();
        let mut out: Vec<Term> = Vec::new();
        let mut i: usize = 0;
        while i < n
            invariant
                0 <= i <= n,
                n == elements@.len(),
                out@.len() == i,
                forall|j: int|
                    0 <= j < i ==> term_view(#[trigger] out@[j]) == term_view(elements@[j]),
            decreases n - i,
        {
            out.push(elements[i].clone());
            i = i + 1;
        }
        proof {
            lemma_terms_view(out@);
            lemma_terms_view(elements@);
            assert forall|j: int| 0 <= j < n implies terms_view(out@)[j] == terms_view(
                elements@,
            )[j] by {
                assert(terms_view(out@)[j] == term_view(out@[j]));
                assert(terms_view(elements@)[j] == term_view(elements@[j]));
            }
            assert(terms_view(out@) =~= terms_view(elements@));
        }
        Term::Tuple(out)
    }

    /// A map holding copies of the given key-value pairs, in order.
    pub fn slice_to_map(entries: &[(Term, Term)], _process: &crate::process::Process) -> (t: Term)
        ensures
            t@ == TermSpec::Mapping(pairs_view(entries@)),
    {
        let n = entries.len();
        let mut out: Vec<(Term, Term)> = Vec::new();
        let mut i: usize = 0;
        while i < n
            invariant
                0 <= i <= n,
                n == entries@.len(),
                out@.len() == i,
                forall|j: int|
                    0 <= j < i ==> term_view(#[trigger] out@[j].0) == term_view(entries@[j].0)
                        && term_view(out@[j].1) == term_view(entries@[j].1),
            decreases n - i,
        {
            let key = entries[i].0.clone();
            let value = entries[i].1.clone();
            out.push((key, value));
            i = i + 1;
        }
        proof {
            lemma_pairs_view(out@);
            lemma_pairs_view(entries@);
            assert forall|j: int| 0 <= j < n implies pairs_view(out@)[j] == pairs_view(
                entries@,
            )[j] by {
                assert(pairs_view(out@)[j] == (term_view(out@[j].0), term_view(out@[j].1)));
                assert(pairs_view(entries@)[j] == (
                    term_view(entries@[j].0),
                    term_view(entries@[j].1),
                ));
            }
            assert(pairs_view(out@) =~= pairs_view(entries@));
        }
        Term::Mapping(out)
    }

    /// A list cell.
    pub fn cons(head: Term, tail: Term, _process: &crate::process::Process) -> (t: Term)
        ensures
            t@ == TermSpec::Cons(Box::new(term_view(head)), Box::new(term_view(tail))),
    {
        Term::Cons(Box::new(head), Box::new(tail))
    }

    /// A bare arity header term.
    pub fn arity(a: usize) -> (t: Term)
        ensures
            t@ == TermSpec::Header(a as int),
    {
        Term::Arity(a as u64)
    }

    /// A float term carrying the bit pattern of an IEEE double. The library
    /// never computes with the value; it only stores and compares it.
    pub fn float_from_bits(bits: u64, _process: &crate::process::Process) -> (t: Term)
        ensures
            t@ == TermSpec::Float(bits),
    {
        Term::Float(bits)
    }

    /// A pid on the local node. Fails when the number or serial is out of
    /// range.
    pub fn local_pid(number: u64, serial: u64, _process: &crate::process::Process) -> (r: Result<
        Term,
        BadArgument,
    >)
        ensures
            number < PID_NUMBER_LIMIT && serial < PID_SERIAL_LIMIT ==> (r matches Ok(t) && t@
                == (TermSpec::Pid { node: 0, number: number as int, serial: serial as int })
                && t.wf()),
            !(number < PID_NUMBER_LIMIT && serial < PID_SERIAL_LIMIT) ==> r matches Err(_),
    {
        if number < PID_NUMBER_LIMIT && serial < PID_SERIAL_LIMIT {
            Ok(Term::LocalPid { number, serial })
        } else {
            Err(BadArgument)
        }
    }

    /// A pid on another node. Fails when the node is the local node or the
    /// number or serial is out of range.
    pub fn external_pid(
        node: u64,
        number: u64,
        serial: u64,
        _process: &crate::process::Process,
    ) -> (r: Result<Term, BadArgument>)
        ensures
            node != 0 && number < PID_NUMBER_LIMIT && serial < PID_SERIAL_LIMIT ==> (r matches Ok(
                t,
            ) && t@ == (TermSpec::Pid {
                node: node as int,
                number: number as int,
                serial: serial as int,
            }) && t.wf()),
            !(node != 0 && number < PID_NUMBER_LIMIT && serial < PID_SERIAL_LIMIT) ==> r matches
                Err(_),
    {
        if node != 0 && number < PID_NUMBER_LIMIT && serial < PID_SERIAL_LIMIT {
            Ok(Term::ExternalPid { node, number, serial })
        } else {
            Err(BadArgument)
        }
    }

    /// A fresh local reference from the process.
    pub fn next_local_reference(process: &mut crate::process::Process) -> (t: Term)
        ensures
            t@ == TermSpec::Reference(old(process).next_reference_id as int),
            forall|n: Seq<char>|
                final(process).has_atom(n) == old(process).has_atom(n),
    {
        let id = process.fresh_reference_id();
        Term::LocalReference(id)
    }
}

} // verus!
