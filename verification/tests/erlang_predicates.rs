#![allow(unused_imports)]
#![allow(unused_mut)]

use lumen_runtime::atom::Existence;
use lumen_runtime::erlang;
use lumen_runtime::process::{IntoProcess, Process};
use lumen_runtime::term::{BadArgument, Tag, Term};

#[test]
fn with_atom_is_true() {
    let mut process: Process = Default::default();
    let atom_term = Term::str_to_atom("atom", Existence::DoNotCare, &mut process).unwrap();
    let true_term = true.into_process(&mut process);
    assert_eq!(erlang::is_atom(atom_term, &mut process), true_term);
}

#[test]
fn with_booleans_is_true() {
    let mut process: Process = Default::default();
    let true_term = true.into_process(&mut process);
    let false_term = false.into_process(&mut process);
    assert_eq!(erlang::is_atom(true_term.clone(), &mut process), true_term);
    assert_eq!(erlang::is_atom(false_term, &mut process), true_term);
}

#[test]
fn with_nil_is_true() {
    let mut process: Process = Default::default();
    let nil_term = Term::str_to_atom("nil", Existence::DoNotCare, &mut process).unwrap();
    let true_term = true.into_process(&mut process);
    assert_eq!(erlang::is_atom(nil_term, &mut process), true_term);
}

#[test]
fn with_empty_list_is_false() {
    let mut process: Process = Default::default();
    let false_term = false.into_process(&mut process);
    assert_eq!(erlang::is_atom(Term::Nil, &mut process), false_term);
}

#[test]
fn with_list_is_false() {
    let mut process: Process = Default::default();
    let head_term = Term::str_to_atom("head", Existence::DoNotCare, &mut process).unwrap();
    let list_term = Term::cons(head_term, Term::Nil, &process);
    let false_term = false.into_process(&mut process);
    assert_eq!(erlang::is_atom(list_term, &mut process), false_term);
}

#[test]
fn with_small_integer_is_false() {
    let mut process: Process = Default::default();
    let small_integer_term: Term = 0.into_process(&mut process);
    let false_term = false.into_process(&mut process);
    assert_eq!(erlang::is_atom(small_integer_term, &mut process), false_term);
}

#[test]
fn with_big_integer_is_false() {
    let mut process: Process = Default::default();
    let big_integer_term: Term = 576460752303423489_isize.into_process(&mut process);
    let false_term = false.into_process(&mut process);
    assert_eq!(erlang::is_atom(big_integer_term, &mut process), false_term);
}

#[test]
fn with_tuple_is_false() {
    let mut process: Process = Default::default();
    let tuple_term = Term::slice_to_tuple(&[], &process);
    let false_term = false.into_process(&mut process);
    assert_eq!(erlang::is_atom(tuple_term, &mut process), false_term);
}

#[test]
fn with_heap_binary_is_false() {
    let mut process: Process = Default::default();
    let heap_binary_term = Term::slice_to_binary(&[], &process);
    let false_term = false.into_process(&mut process);
    assert_eq!(erlang::is_atom(heap_binary_term, &mut process), false_term);
}

#[test]
fn with_subbinary_is_false() {
    let mut process: Process = Default::default();
    let binary_term = Term::slice_to_binary(&[0b0000_00001, 0b1111_1110, 0b1010_1011], &process);
    let subbinary_term = Term::subbinary(binary_term, 0, 7, 2, 1, &process);
    let false_term = false.into_process(&mut process);
    assert_eq!(erlang::is_atom(subbinary_term, &mut process), false_term);
}

#[test]
fn with_atom_is_false() {
    let mut process: Process = Default::default();
    let atom_term = Term::str_to_atom("atom", Existence::DoNotCare, &mut process).unwrap();
    let false_term = false.into_process(&mut process);
    assert_eq!(erlang::is_binary(atom_term, &mut process), false_term);
}

#[test]
fn erlang_with_empty_list_is_false() {
    let mut process: Process = Default::default();
    let false_term = false.into_process(&mut process);
    assert_eq!(erlang::is_binary(Term::Nil, &mut process), false_term);
}

#[test]
fn erlang_with_list_is_false() {
    let mut process: Process = Default::default();
    let head_term = Term::str_to_atom("head", Existence::DoNotCare, &mut process).unwrap();
    let list_term = Term::cons(head_term, Term::Nil, &process);
    let false_term = false.into_process(&mut process);
    assert_eq!(erlang::is_binary(list_term, &mut process), false_term);
}

#[test]
fn erlang_with_small_integer_is_false() {
    let mut process: Process = Default::default();
    let small_integer_term: Term = 0.into_process(&mut process);
    let false_term = false.into_process(&mut process);
    assert_eq!(erlang::is_binary(small_integer_term, &mut process), false_term);
}

#[test]
fn erlang_with_big_integer_is_false() {
    let mut process: Process = Default::default();
    let big_integer_term: Term = 576460752303423489_isize.into_process(&mut process);
    let false_term = false.into_process(&mut process);
    assert_eq!(erlang::is_binary(big_integer_term, &mut process), false_term);
}

#[test]
fn erlang_with_tuple_is_false() {
    let mut process: Process = Default::default();
    let tuple_term = Term::slice_to_tuple(&[], &process);
    let false_term = false.into_process(&mut process);
    assert_eq!(erlang::is_binary(tuple_term, &mut process), false_term);
}

#[test]
fn with_heap_binary_is_true() {
    let mut process: Process = Default::default();
    let heap_binary_term = Term::slice_to_binary(&[], &process);
    let true_term = true.into_process(&mut process);
    assert_eq!(erlang::is_binary(heap_binary_term, &mut process), true_term);
}

#[test]
fn with_subbinary_with_bit_count_is_false() {
    let mut process: Process = Default::default();
    let binary_term = Term::slice_to_binary(&[0b0000_00001, 0b1111_1110, 0b1010_1011], &process);
    let subbinary_term = Term::subbinary(binary_term, 0, 7, 2, 1, &process);
    let false_term = false.into_process(&mut process);
    assert_eq!(erlang::is_binary(subbinary_term, &mut process), false_term);
}

#[test]
fn with_subbinary_without_bit_count_is_true() {
    let mut process: Process = Default::default();
    let binary_term = Term::slice_to_binary(&[0b0000_00001, 0b1111_1110, 0b1010_1011], &process);
    let subbinary_term = Term::subbinary(binary_term, 0, 7, 2, 0, &process);
    let true_term = true.into_process(&mut process);
    assert_eq!(erlang::is_binary(subbinary_term, &mut process), true_term);
}

#[test]
fn erlang_with_atom_is_false() {
    let mut process: Process = Default::default();
    let atom_term = Term::str_to_atom("atom", Existence::DoNotCare, &mut process).unwrap();
    let false_term = false.into_process(&mut process);
    assert_eq!(erlang::is_integer(atom_term, &mut process), false_term);
}

#[test]
fn is_integer_with_empty_list_is_false() {
    let mut process: Process = Default::default();
    let false_term = false.into_process(&mut process);
    assert_eq!(erlang::is_integer(Term::Nil, &mut process), false_term);
}

#[test]
fn is_integer_with_list_is_false() {
    let mut process: Process = Default::default();
    let head_term = Term::str_to_atom("head", Existence::DoNotCare, &mut process).unwrap();
    let list_term = Term::cons(head_term, Term::Nil, &process);
    let false_term = false.into_process(&mut process);
    assert_eq!(erlang::is_integer(list_term, &mut process), false_term);
}

#[test]
fn with_small_integer_is_true() {
    let mut process: Process = Default::default();
    let zero_term = 0_usize.into_process(&mut process);
    let true_term = true.into_process(&mut process);
    assert_eq!(erlang::is_integer(zero_term, &mut process), true_term);
}

#[test]
fn with_big_integer_is_true() {
    let mut process: Process = Default::default();
    let big_integer_term: Term = 576460752303423489_isize.into_process(&mut process);
    let true_term = true.into_process(&mut process);
    assert_eq!(erlang::is_integer(big_integer_term, &mut process), true_term);
}

#[test]
fn is_integer_with_tuple_is_false() {
    let mut process: Process = Default::default();
    let tuple_term = Term::slice_to_tuple(&[], &process);
    let false_term = false.into_process(&mut process);
    assert_eq!(erlang::is_integer(tuple_term, &mut process), false_term);
}

#[test]
fn erlang_with_heap_binary_is_false() {
    let mut process: Process = Default::default();
    let heap_binary_term = Term::slice_to_binary(&[], &process);
    let false_term = false.into_process(&mut process);
    assert_eq!(erlang::is_integer(heap_binary_term, &mut process), false_term);
}

#[test]
fn erlang_with_subbinary_is_false() {
    let mut process: Process = Default::default();
    let binary_term = Term::slice_to_binary(&[0b0000_00001, 0b1111_1110, 0b1010_1011], &process);
    let subbinary_term = Term::subbinary(binary_term, 0, 7, 2, 1, &process);
    let false_term = false.into_process(&mut process);
    assert_eq!(erlang::is_integer(subbinary_term, &mut process), false_term);
}

#[test]
fn is_list_with_atom_is_false() {
    let mut process: Process = Default::default();
    let atom_term = Term::str_to_atom("atom", Existence::DoNotCare, &mut process).unwrap();
    let false_term = false.into_process(&mut process);
    assert_eq!(erlang::is_list(atom_term, &mut process), false_term);
}

#[test]
fn with_empty_list_is_true() {
    let mut process: Process = Default::default();
    let true_term = true.into_process(&mut process);
    assert_eq!(erlang::is_list(Term::Nil, &mut process), true_term);
}

#[test]
fn with_list_is_true() {
    let mut process: Process = Default::default();
    let head_term = Term::str_to_atom("head", Existence::DoNotCare, &mut process).unwrap();
    let list_term = Term::cons(head_term, Term::Nil, &process);
    let true_term = true.into_process(&mut process);
    assert_eq!(erlang::is_list(list_term, &mut process), true_term);
}

#[test]
fn is_list_with_small_integer_is_false() {
    let mut process: Process = Default::default();
    let small_integer_term: Term = 0.into_process(&mut process);
    let false_term = false.into_process(&mut process);
    assert_eq!(erlang::is_list(small_integer_term, &mut process), false_term);
}

#[test]
fn is_list_with_big_integer_is_false() {
    let mut process: Process = Default::default();
    let big_integer_term: Term = 576460752303423489_isize.into_process(&mut process);
    let false_term = false.into_process(&mut process);
    assert_eq!(erlang::is_list(big_integer_term, &mut process), false_term);
}

#[test]
fn is_list_with_tuple_is_false() {
    let mut process: Process = Default::default();
    let tuple_term = Term::slice_to_tuple(&[], &process);
    let false_term = false.into_process(&mut process);
    assert_eq!(erlang::is_list(tuple_term, &mut process), false_term);
}

#[test]
fn is_list_with_heap_binary_is_false() {
    let mut process: Process = Default::default();
    let heap_binary_term = Term::slice_to_binary(&[], &process);
    let false_term = false.into_process(&mut process);
    assert_eq!(erlang::is_list(heap_binary_term, &mut process), false_term);
}

#[test]
fn is_list_with_subbinary_is_false() {
    let mut process: Process = Default::default();
    let binary_term = Term::slice_to_binary(&[0b0000_00001, 0b1111_1110, 0b1010_1011], &process);
    let subbinary_term = Term::subbinary(binary_term, 0, 7, 2, 1, &process);
    let false_term = false.into_process(&mut process);
    assert_eq!(erlang::is_list(subbinary_term, &mut process), false_term);
}

#[test]
fn is_tuple_with_atom_is_false() {
    let mut process: Process = Default::default();
    let atom_term = Term::str_to_atom("atom", Existence::DoNotCare, &mut process).unwrap();
    let false_term = false.into_process(&mut process);
    assert_eq!(erlang::is_tuple(atom_term, &mut process), false_term);
}

#[test]
fn is_tuple_with_empty_list_is_false() {
    let mut process: Process = Default::default();
    let false_term = false.into_process(&mut process);
    assert_eq!(erlang::is_tuple(Term::Nil, &mut process), false_term);
}

#[test]
fn is_tuple_with_list_is_false() {
    let mut process: Process = Default::default();
    let head_term = Term::str_to_atom("head", Existence::DoNotCare, &mut process).unwrap();
    let list_term = Term::cons(head_term, Term::Nil, &process);
    let false_term = false.into_process(&mut process);
    assert_eq!(erlang::is_tuple(list_term, &mut process), false_term);
}

#[test]
fn is_tuple_with_small_integer_is_false() {
    let mut process: Process = Default::default();
    let small_integer_term: Term = 0.into_process(&mut process);
    let false_term = false.into_process(&mut process);
    assert_eq!(erlang::is_tuple(small_integer_term, &mut process), false_term);
}

#[test]
fn is_tuple_with_big_integer_is_false() {
    let mut process: Process = Default::default();
    let big_integer_term: Term = 576460752303423489_isize.into_process(&mut process);
    let false_term = false.into_process(&mut process);
    assert_eq!(erlang::is_tuple(big_integer_term, &mut process), false_term);
}

#[test]
fn with_tuple_is_true() {
    let mut process: Process = Default::default();
    let tuple_term = Term::slice_to_tuple(&[], &process);
    let true_term = true.into_process(&mut process);
    assert_eq!(erlang::is_tuple(tuple_term, &mut process), true_term);
}

#[test]
fn is_tuple_with_heap_binary_is_false() {
    let mut process: Process = Default::default();
    let heap_binary_term = Term::slice_to_binary(&[], &process);
    let false_term = false.into_process(&mut process);
    assert_eq!(erlang::is_tuple(heap_binary_term, &mut process), false_term);
}

#[test]
fn is_tuple_with_subbinary_is_false() {
    let mut process: Process = Default::default();
    let binary_term = Term::slice_to_binary(&[0b0000_00001, 0b1111_1110, 0b1010_1011], &process);
    let subbinary_term = Term::subbinary(binary_term, 0, 7, 2, 1, &process);
    let false_term = false.into_process(&mut process);
    assert_eq!(erlang::is_tuple(subbinary_term, &mut process), false_term);
}

#[test]
fn size_with_atom_is_bad_argument() {
    let mut process: Process = Default::default();
    let atom_term = Term::str_to_atom("atom", Existence::DoNotCare, &mut process).unwrap();
    assert_eq!(erlang::size(atom_term, &mut process), Err(BadArgument));
}

#[test]
fn size_with_empty_list_is_bad_argument() {
    let mut process: Process = Default::default();
    assert_eq!(erlang::size(Term::Nil, &mut process), Err(BadArgument));
}

#[test]
fn size_with_list_is_bad_argument() {
    let mut process: Process = Default::default();
    let head_term = Term::str_to_atom("head", Existence::DoNotCare, &mut process).unwrap();
    let list_term = Term::cons(head_term, Term::Nil, &process);
    assert_eq!(erlang::size(list_term, &mut process), Err(BadArgument));
}

#[test]
fn size_with_small_integer_is_bad_argument() {
    let mut process: Process = Default::default();
    let small_integer_term = 0_usize.into_process(&mut process);
    assert_eq!(erlang::size(small_integer_term, &mut process), Err(BadArgument));
}

#[test]
fn size_with_big_integer_is_bad_argument() {
    let mut process: Process = Default::default();
    let big_integer_term: Term = 576460752303423489_isize.into_process(&mut process);
    assert_eq!(erlang::size(big_integer_term, &mut process), Err(BadArgument));
}

#[test]
fn with_tuple_without_elements_is_zero() {
    let mut process: Process = Default::default();
    let empty_tuple_term = Term::slice_to_tuple(&[], &process);
    let zero_term = 0_usize.into_process(&mut process);
    assert_eq!(erlang::size(empty_tuple_term, &mut process), Ok(zero_term));
}

#[test]
fn with_tuple_with_elements_is_element_count() {
    let mut process: Process = Default::default();
    let element_vec: Vec<Term> = vec![
        0_usize.into_process(&mut process),
        1_usize.into_process(&mut process),
        2_usize.into_process(&mut process),
    ];
    let element_slice: &[Term] = element_vec.as_slice();
    let tuple_term = Term::slice_to_tuple(element_slice, &process);
    let arity_term = 3_usize.into_process(&mut process);
    assert_eq!(erlang::size(tuple_term, &mut process), Ok(arity_term));
}

#[test]
fn with_heap_binary_is_byte_count() {
    let mut process: Process = Default::default();
    let heap_binary_term = Term::slice_to_binary(&[0, 1, 2], &process);
    let byte_count_term = 3_usize.into_process(&mut process);
    assert_eq!(erlang::size(heap_binary_term, &mut process), Ok(byte_count_term));
}

#[test]
fn with_subbinary_with_bit_count_is_byte_count() {
    let mut process: Process = Default::default();
    let binary_term = Term::slice_to_binary(&[0b0000_00001, 0b1111_1110, 0b1010_1011], &process);
    let subbinary_term = Term::subbinary(binary_term, 0, 7, 2, 1, &process);
    let byte_count_term = 2_usize.into_process(&mut process);
    assert_eq!(erlang::size(subbinary_term, &mut process), Ok(byte_count_term));
}

#[test]
fn with_subbinary_without_bit_count_is_byte_count() {
    let mut process: Process = Default::default();
    let binary_term = Term::slice_to_binary(&[0b0000_00001, 0b1111_1110, 0b1010_1011], &process);
    let subbinary_term = Term::subbinary(binary_term, 0, 7, 2, 0, &process);
    let byte_count_term = 2_usize.into_process(&mut process);
    assert_eq!(erlang::size(subbinary_term, &mut process), Ok(byte_count_term));
}

