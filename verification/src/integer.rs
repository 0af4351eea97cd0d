//! Integer terms. Small values live directly in a small-integer term; values
//! outside the small range are boxed. The boxed integers of this library are
//! bounded by the machine-level `i128` range.

use vstd::prelude::*;

use crate::process::{IntoProcess, Process};
use crate::term::{Term, TermSpec};

verus! {

/// The canonical integer term for a value: a small integer inside the small
/// range, a boxed integer outside it.
pub fn make_integer(value: i128) -> (t: Term)
    ensures
        t@ == TermSpec::Integer(value as int),
        t.wf(),
{
    if crate::MIN_SMALL as i128 <= value && value <= crate::MAX_SMALL as i128 {
        Term::SmallInteger(value as i64)
    } else {
        Term::BigInteger(value)
    }
}

impl IntoProcess for i32 {
    fn into_process(self, _process: &mut Process) -> Term {
        make_integer(self as i128)
    }
}

impl IntoProcess for i64 {
    fn into_process(self, _process: &mut Process) -> Term {
        make_integer(self as i128)
    }
}

impl IntoProcess for isize {
    fn into_process(self, _process: &mut Process) -> Term {
        make_integer(self as i128)
    }
}

impl IntoProcess for u64 {
    fn into_process(self, _process: &mut Process) -> Term {
        make_integer(self as i128)
    }
}

impl IntoProcess for usize {
    fn into_process(self, _process: &mut Process) -> Term {
        make_integer(self as i128)
    }
}

impl IntoProcess for i128 {
    fn into_process(self, _process: &mut Process) -> Term {
        make_integer(self)
    }
}

impl IntoProcess for bool {
    /// The boolean terms are the atoms `true` and `false`.
    fn into_process(self, process: &mut Process) -> Term {
        let name: String = if self {
            "true".to_owned()
        } else {
            "false".to_owned()
        };
        process.intern_atom(&name);
        Term::Atom(name)
    }
}

} // verus!

verus! {

/// The numeric value of a digit byte: `0`-`9`, `a`-`z` and `A`-`Z` carry
/// values 0 through 35; anything else gets a value no radix reaches.
pub open spec fn digit_value(b: u8) -> int {
    if 48 <= b <= 57 {
        b - 48
    } else if 97 <= b <= 122 {
        b - 87
    } else if 65 <= b <= 90 {
        b - 55
    } else {
        99
    }
}

/// Every byte is a digit of the radix, and there is at least one.
pub open spec fn valid_digits(s: Seq<u8>, radix: int) -> bool {
    s.len() > 0 && forall|i: int| 0 <= i < s.len() ==> digit_value(#[trigger] s[i]) < radix
}

/// The value of a digit string, most significant digit first.
pub open spec fn digits_value(s: Seq<u8>, radix: int) -> int
    decreases s.len(),
{
    if s.len() == 0 {
        0
    } else {
        digits_value(s.drop_last(), radix) * radix + digit_value(s.last())
    }
}

/// Digit strings have non-negative values.
pub proof fn lemma_digits_value_nonneg(s: Seq<u8>, radix: int)
    requires
        radix >= 2,
        forall|i: int| 0 <= i < s.len() ==> digit_value(#[trigger] s[i]) < radix,
    ensures
        digits_value(s, radix) >= 0,
    decreases s.len(),
{
    if s.len() > 0 {
        lemma_digits_value_nonneg(s.drop_last(), radix);
        assert(digit_value(s.last()) >= 0);
        assert(digits_value(s.drop_last(), radix) * radix >= 0) by (nonlinear_arith)
            requires
                digits_value(s.drop_last(), radix) >= 0,
                radix >= 2,
        ;
    }
}

/// A digit string is worth at least any of its prefixes.
pub proof fn lemma_digits_prefix_le(s: Seq<u8>, radix: int, n: int)
    requires
        radix >= 2,
        0 <= n <= s.len(),
        forall|i: int| 0 <= i < s.len() ==> digit_value(#[trigger] s[i]) < radix,
    ensures
        digits_value(s.take(n), radix) <= digits_value(s, radix),
    decreases s.len(),
{
    if n == s.len() {
        assert(s.take(n) =~= s);
    } else {
        assert(s.drop_last().take(n) =~= s.take(n));
        assert(forall|i: int|
            0 <= i < s.drop_last().len() ==> digit_value(#[trigger] s.drop_last()[i]) < radix);
        lemma_digits_prefix_le(s.drop_last(), radix, n);
        lemma_digits_value_nonneg(s.drop_last(), radix);
        assert(digits_value(s.drop_last(), radix) * radix >= digits_value(s.drop_last(), radix))
            by (nonlinear_arith)
            requires
                digits_value(s.drop_last(), radix) >= 0,
                radix >= 2,
        ;
        assert(digit_value(s.last()) >= 0);
    }
}

/// The digits of an integer literal: everything after an optional sign.
pub open spec fn literal_body(s: Seq<u8>) -> Seq<u8> {
    if s.len() > 0 && (s[0] == 43 || s[0] == 45) {
        s.drop_first()
    } else {
        s
    }
}

/// True when the literal carries a minus sign.
pub open spec fn literal_negative(s: Seq<u8>) -> bool {
    s.len() > 0 && s[0] == 45
}

/// A valid integer literal: an optional sign and at least one digit of the
/// radix.
pub open spec fn valid_integer_literal(s: Seq<u8>, radix: int) -> bool {
    valid_digits(literal_body(s), radix)
}

/// The integer a literal denotes.
pub open spec fn literal_value(s: Seq<u8>, radix: int) -> int {
    if literal_negative(s) {
        -digits_value(literal_body(s), radix)
    } else {
        digits_value(literal_body(s), radix)
    }
}

/// True when a value fits the boxed integer range of this library.
pub open spec fn fits_integer(v: int) -> bool {
    i128::MIN <= v <= i128::MAX
}

/// The numeric value of a digit byte.
fn digit_of(b: u8) -> (d: u8)
    ensures
        d as int == digit_value(b),
{
    if 48 <= b && b <= 57 {
        b - 48
    } else if 97 <= b && b <= 122 {
        b - 87
    } else if 65 <= b && b <= 90 {
        b - 55
    } else {
        99
    }
}

/// Parses an integer literal out of a byte string in the given radix.
/// Succeeds exactly on valid literals whose value this library's integers
/// can hold.
pub fn parse_integer_literal(bytes: &Vec<u8>, radix: u8) -> (r: Option<i128>)
    requires
        2 <= radix <= 36,
    ensures
        r is Some <==> valid_integer_literal(bytes@, radix as int) && fits_integer(
            literal_value(bytes@, radix as int),
        ),
        r matches Some(v) ==> v as int == literal_value(bytes@, radix as int),
{
    let n = bytes.len();
    if n == 0 {
        return None;
    }
    let negative = bytes[0] == 45;
    let start: usize = if bytes[0] == 43 || bytes[0] == 45 {
        1
    } else {
        0
    };
    let ghost body = literal_body(bytes@);
    proof {
        assert(body =~= bytes@.subrange(start as int, n as int));
    }
    if start == n {
        return None;
    }
    let mut acc: u128 = 0;
    let mut i: usize = start;
    while i < n
        invariant
            start <= i <= n,
            n == bytes@.len(),
            start < n,
            2 <= radix <= 36,
            body == literal_body(bytes@),
            body =~= bytes@.subrange(start as int, n as int),
            forall|j: int|
                0 <= j < i - start ==> digit_value(#[trigger] body[j]) < radix,
            acc as int == digits_value(body.take(i - start), radix as int),
        decreases n - i,
    {
        let d = digit_of(bytes[i]);
        if d >= radix {
            proof {
                assert(body[i - start] == bytes@[i as int]);
            }
            return None;
        }
        let ghost before = acc as int;
        let stepped = match acc.checked_mul(radix as u128) {
            Some(m) => m.checked_add(d as u128),
            None => None,
        };
        acc = match stepped {
            Some(a) => a,
            None => {
                // The digits read so far already exceed the integer range,
                // and more digits only grow the value.
                proof {
                    let rad = radix as int;
                    let taken = body.take(i - start + 1);
                    assert(taken.drop_last() =~= body.take(i - start));
                    assert(taken.last() == body[i - start]);
                    assert(body[i - start] == bytes@[i as int]);
                    assert(digits_value(taken, rad) == before * rad + d);
                    assert(before * rad + d > u128::MAX) by (nonlinear_arith)
                        requires
                            before >= 0,
                            rad >= 2,
                            d >= 0,
                            (before * rad > u128::MAX) || (before * rad <= u128::MAX && before
                                * rad + d > u128::MAX),
                    ;
                    if valid_integer_literal(bytes@, rad) {
                        lemma_digits_prefix_le(body, rad, i - start + 1);
                        assert(digits_value(body, rad) > u128::MAX);
                    }
                }
                return None;
            },
        };
        proof {
            let rad = radix as int;
            let taken = body.take(i - start + 1);
            assert(taken.drop_last() =~= body.take(i - start));
            assert(taken.last() == body[i - start]);
            assert(body[i - start] == bytes@[i as int]);
            assert(digits_value(taken, rad) == before * rad + d);
        }
        i = i + 1;
    }
    proof {
        assert(body.take(n - start) =~= body);
        lemma_digits_value_nonneg(body, radix as int);
    }
    if negative {
        if acc > (i128::MAX as u128) + 1 {
            return None;
        }
        if acc == (i128::MAX as u128) + 1 {
            Some(i128::MIN)
        } else {
            Some(-(acc as i128))
        }
    } else {
        if acc > i128::MAX as u128 {
            return None;
        }
        Some(acc as i128)
    }
}

} // verus!
