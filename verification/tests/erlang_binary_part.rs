#![allow(unused_imports)]
#![allow(unused_mut)]

use lumen_runtime::atom::Existence;
use lumen_runtime::erlang;
use lumen_runtime::process::{IntoProcess, Process};
use lumen_runtime::term::{BadArgument, Tag, Term};

#[test]
fn binary_part_with_atom_is_bad_argument() {
    let mut process: Process = Default::default();
    let atom_term = Term::str_to_atom("atom", Existence::DoNotCare, &mut process).unwrap();
    assert_eq!(erlang::binary_part(atom_term, 0.into_process(&mut process), 0.into_process(&mut process), &mut process), Err(BadArgument));
}

#[test]
fn binary_part_with_empty_list_is_bad_argument() {
    let mut process: Process = Default::default();
    assert_eq!(erlang::binary_part(Term::Nil, 0.into_process(&mut process), 0.into_process(&mut process), &mut process), Err(BadArgument));
}

#[test]
fn binary_part_with_list_is_bad_argument() {
    let mut process: Process = Default::default();
    let head_term = Term::str_to_atom("head", Existence::DoNotCare, &mut process).unwrap();
    let list_term = Term::cons(head_term, Term::Nil, &process);
    assert_eq!(erlang::binary_part(list_term, 0.into_process(&mut process), 0.into_process(&mut process), &mut process), Err(BadArgument));
}

#[test]
fn binary_part_with_small_integer_is_bad_argument() {
    let mut process: Process = Default::default();
    let small_integer_term: Term = 0.into_process(&mut process);
    assert_eq!(erlang::binary_part(small_integer_term, 0.into_process(&mut process), 0.into_process(&mut process), &mut process), Err(BadArgument));
}

#[test]
fn binary_part_with_big_integer_is_bad_argument() {
    let mut process: Process = Default::default();
    let big_integer_term: Term = 576460752303423489_isize.into_process(&mut process);
    assert_eq!(erlang::binary_part(big_integer_term, 0.into_process(&mut process), 0.into_process(&mut process), &mut process), Err(BadArgument));
}

#[test]
fn binary_part_with_tuple_returns_is_bad_argument() {
    let mut process: Process = Default::default();
    let tuple_term = Term::slice_to_tuple(&[0.into_process(&mut process), 1.into_process(&mut process)], &process);
    assert_eq!(erlang::binary_part(tuple_term, 0.into_process(&mut process), 0.into_process(&mut process), &mut process), Err(BadArgument));
}

#[test]
fn with_heap_binary_without_integer_start_without_integer_length_returns_bad_argument() {
    let mut process: Process = Default::default();
    let heap_binary_term = Term::slice_to_binary(&[], &process);
    let start_term = Term::slice_to_tuple(&[0.into_process(&mut process), 0.into_process(&mut process)], &process);
    let length_term = Term::str_to_atom("all", Existence::DoNotCare, &mut process).unwrap();
    assert_eq!(erlang::binary_part(heap_binary_term, start_term, length_term, &mut process), Err(BadArgument));
}

#[test]
fn with_heap_binary_without_integer_start_with_integer_length_returns_bad_argument() {
    let mut process: Process = Default::default();
    let heap_binary_term = Term::slice_to_binary(&[], &process);
    let start_term = 0.into_process(&mut process);
    let length_term = Term::str_to_atom("all", Existence::DoNotCare, &mut process).unwrap();
    assert_eq!(erlang::binary_part(heap_binary_term, start_term, length_term, &mut process), Err(BadArgument));
}

#[test]
fn with_heap_binary_with_integer_start_without_integer_length_returns_bad_argument() {
    let mut process: Process = Default::default();
    let heap_binary_term = Term::slice_to_binary(&[], &process);
    let start_term = 0.into_process(&mut process);
    let length_term = Term::str_to_atom("all", Existence::DoNotCare, &mut process).unwrap();
    assert_eq!(erlang::binary_part(heap_binary_term, start_term, length_term, &mut process), Err(BadArgument));
}

#[test]
fn with_heap_binary_with_negative_start_with_valid_length_returns_bad_argument() {
    let mut process: Process = Default::default();
    let heap_binary_term = Term::slice_to_binary(&[], &process);
    assert_eq!(erlang::binary_part(heap_binary_term, (-1_isize).into_process(&mut process), 0.into_process(&mut process), &mut process), Err(BadArgument));
}

#[test]
fn with_heap_binary_with_start_greater_than_size_with_non_negative_length_returns_bad_argument() {
    let mut process: Process = Default::default();
    let heap_binary_term = Term::slice_to_binary(&[], &process);
    assert_eq!(erlang::binary_part(heap_binary_term, 1.into_process(&mut process), 0.into_process(&mut process), &mut process), Err(BadArgument));
}

#[test]
fn with_heap_binary_with_start_less_than_size_with_negative_length_past_start_returns_bad_argument() {
    let mut process: Process = Default::default();
    let heap_binary_term = Term::slice_to_binary(&[0], &process);
    assert_eq!(erlang::binary_part(heap_binary_term, 0.into_process(&mut process), (-1_isize).into_process(&mut process), &mut process), Err(BadArgument));
}

#[test]
fn with_heap_binary_with_start_less_than_size_with_positive_length_past_end_returns_bad_argument() {
    let mut process: Process = Default::default();
    let heap_binary_term = Term::slice_to_binary(&[0], &process);
    assert_eq!(erlang::binary_part(heap_binary_term, 0.into_process(&mut process), 2.into_process(&mut process), &mut process), Err(BadArgument));
}

#[test]
fn with_heap_binary_with_zero_start_and_size_length_returns_binary() {
    let mut process: Process = Default::default();
    let heap_binary_term = Term::slice_to_binary(&[0], &process);
    let start_term = 0.into_process(&mut process);
    let length_term = 1.into_process(&mut process);
    assert_eq!(
        erlang::binary_part(heap_binary_term.clone(), start_term.clone(), length_term.clone(), &mut process),
        Ok(heap_binary_term.clone())
    );
    let returned_binary = erlang::binary_part(heap_binary_term.clone(), start_term, length_term, &mut process).unwrap();
    assert_eq!(returned_binary.tag(), heap_binary_term.tag());
    assert_eq!(returned_binary.unbox_tag(), Tag::HeapBinary);
}

#[test]
fn with_heap_binary_with_size_start_and_negative_size_length_returns_binary() {
    let mut process: Process = Default::default();
    let heap_binary_term = Term::slice_to_binary(&[0], &process);
    let start_term = 1.into_process(&mut process);
    let length_term = (-1_isize).into_process(&mut process);
    assert_eq!(
        erlang::binary_part(heap_binary_term.clone(), start_term.clone(), length_term.clone(), &mut process),
        Ok(heap_binary_term.clone())
    );
    let returned_binary = erlang::binary_part(heap_binary_term.clone(), start_term, length_term, &mut process).unwrap();
    assert_eq!(returned_binary.tag(), heap_binary_term.tag());
    assert_eq!(returned_binary.unbox_tag(), Tag::HeapBinary);
}

#[test]
fn with_heap_binary_with_positive_start_and_negative_length_returns_subbinary() {
    let mut process: Process = Default::default();
    let heap_binary_term = Term::slice_to_binary(&[0, 1], &process);
    let start_term = 1.into_process(&mut process);
    let length_term = (-1_isize).into_process(&mut process);
    assert_eq!(
        erlang::binary_part(heap_binary_term.clone(), start_term.clone(), length_term.clone(), &mut process),
        Ok(Term::slice_to_binary(&[0], &process))
    );
    let returned_boxed = erlang::binary_part(heap_binary_term, start_term, length_term, &mut process).unwrap();
    assert_eq!(returned_boxed.tag(), Tag::Boxed);
    assert_eq!(returned_boxed.unbox_tag(), Tag::Subbinary);
}

#[test]
fn with_heap_binary_with_positive_start_and_positive_length_returns_subbinary() {
    let mut process: Process = Default::default();
    let heap_binary_term = Term::slice_to_binary(&[0, 1], &process);
    let start_term = 1.into_process(&mut process);
    let length_term = 1.into_process(&mut process);
    assert_eq!(
        erlang::binary_part(heap_binary_term.clone(), start_term.clone(), length_term.clone(), &mut process),
        Ok(Term::slice_to_binary(&[1], &process))
    );
    let returned_boxed = erlang::binary_part(heap_binary_term, start_term, length_term, &mut process).unwrap();
    assert_eq!(returned_boxed.tag(), Tag::Boxed);
    assert_eq!(returned_boxed.unbox_tag(), Tag::Subbinary);
}

#[test]
fn with_subbinary_without_integer_start_without_integer_length_returns_bad_argument() {
    let mut process: Process = Default::default();
    let binary_term = Term::slice_to_binary(&[0b0000_00001, 0b1111_1110, 0b1010_1011], &process);
    let subbinary_term = Term::subbinary(binary_term.clone(), 0, 7, 2, 1, &process);
    let start_term = Term::slice_to_tuple(&[0.into_process(&mut process), 0.into_process(&mut process)], &process);
    let length_term = Term::str_to_atom("all", Existence::DoNotCare, &mut process).unwrap();
    assert_eq!(erlang::binary_part(subbinary_term, start_term, length_term, &mut process), Err(BadArgument));
}

#[test]
fn with_subbinary_without_integer_start_with_integer_length_returns_bad_argument() {
    let mut process: Process = Default::default();
    let binary_term = Term::slice_to_binary(&[0b0000_00001, 0b1111_1110, 0b1010_1011], &process);
    let subbinary_term = Term::subbinary(binary_term.clone(), 0, 7, 2, 1, &process);
    let start_term = 0.into_process(&mut process);
    let length_term = Term::str_to_atom("all", Existence::DoNotCare, &mut process).unwrap();
    assert_eq!(erlang::binary_part(subbinary_term, start_term, length_term, &mut process), Err(BadArgument));
}

#[test]
fn with_subbinary_with_integer_start_without_integer_length_returns_bad_argument() {
    let mut process: Process = Default::default();
    let binary_term = Term::slice_to_binary(&[0b0000_00001, 0b1111_1110, 0b1010_1011], &process);
    let subbinary_term = Term::subbinary(binary_term.clone(), 0, 7, 2, 1, &process);
    let start_term = 0.into_process(&mut process);
    let length_term = Term::str_to_atom("all", Existence::DoNotCare, &mut process).unwrap();
    assert_eq!(erlang::binary_part(subbinary_term, start_term, length_term, &mut process), Err(BadArgument));
}

#[test]
fn with_subbinary_with_negative_start_with_valid_length_returns_bad_argument() {
    let mut process: Process = Default::default();
    let binary_term = Term::slice_to_binary(&[0b0000_00001, 0b1111_1110, 0b1010_1011], &process);
    let subbinary_term = Term::subbinary(binary_term.clone(), 0, 7, 2, 1, &process);
    assert_eq!(erlang::binary_part(subbinary_term, (-1_isize).into_process(&mut process), 0.into_process(&mut process), &mut process), Err(BadArgument));
}

#[test]
fn with_subbinary_with_start_greater_than_size_with_non_negative_length_returns_bad_argument() {
    let mut process: Process = Default::default();
    let binary_term = Term::slice_to_binary(&[0b0000_00001, 0b1111_1110, 0b1010_1011], &process);
    let subbinary_term = Term::subbinary(binary_term, 0, 7, 0, 1, &process);
    assert_eq!(erlang::binary_part(subbinary_term, 1.into_process(&mut process), 0.into_process(&mut process), &mut process), Err(BadArgument));
}

#[test]
fn with_subbinary_with_start_less_than_size_with_negative_length_past_start_returns_bad_argument() {
    let mut process: Process = Default::default();
    let binary_term = Term::slice_to_binary(&[0b0000_00001, 0b1111_1110, 0b1010_1011], &process);
    let subbinary_term = Term::subbinary(binary_term.clone(), 0, 7, 2, 1, &process);
    assert_eq!(erlang::binary_part(subbinary_term, 0.into_process(&mut process), (-1_isize).into_process(&mut process), &mut process), Err(BadArgument));
}

#[test]
fn with_subbinary_with_start_less_than_size_with_positive_length_past_end_returns_bad_argument() {
    let mut process: Process = Default::default();
    let binary_term = Term::slice_to_binary(&[0b0000_00001, 0b1111_1110, 0b1010_1011], &process);
    let subbinary_term = Term::subbinary(binary_term, 0, 7, 1, 1, &process);
    assert_eq!(erlang::binary_part(subbinary_term, 0.into_process(&mut process), 2.into_process(&mut process), &mut process), Err(BadArgument));
}

#[test]
fn with_subbinary_with_zero_start_and_byte_count_length_returns_new_subbinary_with_bytes() {
    let mut process: Process = Default::default();
    let binary_term = Term::slice_to_binary(&[0b0000_00001, 0b1111_1110, 0b1010_1011], &process);
    let subbinary_term = Term::subbinary(binary_term.clone(), 0, 7, 2, 1, &process);
    let start_term = 0.into_process(&mut process);
    let length_term = 2.into_process(&mut process);
    assert_eq!(
        erlang::binary_part(subbinary_term, start_term, length_term, &mut process),
        Ok(Term::subbinary(binary_term, 0, 7, 2, 0, &process))
    );
}

#[test]
fn with_subbinary_with_byte_count_start_and_negative_byte_count_length_returns_new_subbinary_with_bytes() {
    let mut process: Process = Default::default();
    let binary_term = Term::slice_to_binary(&[0b0000_00001, 0b1111_1110, 0b1010_1011], &process);
    let subbinary_term = Term::subbinary(binary_term.clone(), 0, 7, 2, 1, &process);
    let start_term = 2.into_process(&mut process);
    let length_term = (-2_isize).into_process(&mut process);
    assert_eq!(
        erlang::binary_part(subbinary_term, start_term, length_term, &mut process),
        Ok(Term::subbinary(binary_term, 0, 7, 2, 0, &process))
    );
}

#[test]
fn with_subbinary_with_positive_start_and_negative_length_returns_subbinary() {
    let mut process: Process = Default::default();
    let binary_term = Term::slice_to_binary(&[0b0000_00001, 0b1111_1110], &process);
    let subbinary_term = Term::subbinary(binary_term, 0, 7, 1, 0, &process);
    let start_term = 1.into_process(&mut process);
    let length_term = (-1_isize).into_process(&mut process);
    assert_eq!(
        erlang::binary_part(subbinary_term.clone(), start_term.clone(), length_term.clone(), &mut process),
        Ok(Term::slice_to_binary(&[0b1111_1111], &process))
    );
    let returned_boxed = erlang::binary_part(subbinary_term, start_term, length_term, &mut process).unwrap();
    assert_eq!(returned_boxed.tag(), Tag::Boxed);
    assert_eq!(returned_boxed.unbox_tag(), Tag::Subbinary);
}

#[test]
fn with_subbinary_with_positive_start_and_positive_length_returns_subbinary() {
    let mut process: Process = Default::default();
    let binary_term = Term::slice_to_binary(&[0b0000_00001, 0b1111_1110, 0b1010_1011], &process);
    let subbinary_term = Term::subbinary(binary_term.clone(), 0, 7, 2, 1, &process);
    let start_term = 1.into_process(&mut process);
    let length_term = 1.into_process(&mut process);
    assert_eq!(
        erlang::binary_part(subbinary_term.clone(), start_term.clone(), length_term.clone(), &mut process),
        Ok(Term::slice_to_binary(&[0b0101_0101], &process))
    );
    let returned_boxed = erlang::binary_part(subbinary_term, start_term, length_term, &mut process).unwrap();
    assert_eq!(returned_boxed.tag(), Tag::Boxed);
    assert_eq!(returned_boxed.unbox_tag(), Tag::Subbinary);
}

