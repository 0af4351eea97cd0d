#![allow(unused_imports)]
#![allow(unused_mut)]

use lumen_runtime::atom::Existence;
use lumen_runtime::erlang;
use lumen_runtime::process::{IntoProcess, Process};
use lumen_runtime::term::{BadArgument, Tag, Term};

#[test]
fn delete_element_with_atom_is_bad_argument() {
    let mut process: Process = Default::default();
    let atom_term = Term::str_to_atom("atom", Existence::DoNotCare, &mut process).unwrap();
    assert_eq!(erlang::delete_element(atom_term, 0.into_process(&mut process), &mut process), Err(BadArgument));
}

#[test]
fn delete_element_with_empty_list_is_bad_argument() {
    let mut process: Process = Default::default();
    assert_eq!(erlang::delete_element(Term::Nil, 0.into_process(&mut process), &mut process), Err(BadArgument));
}

#[test]
fn delete_element_with_list_is_bad_argument() {
    let mut process: Process = Default::default();
    let head_term = Term::str_to_atom("head", Existence::DoNotCare, &mut process).unwrap();
    let list_term = Term::cons(head_term, Term::Nil, &process);
    assert_eq!(erlang::delete_element(list_term, 0.into_process(&mut process), &mut process), Err(BadArgument));
}

#[test]
fn delete_element_with_small_integer_is_bad_argument() {
    let mut process: Process = Default::default();
    let small_integer_term: Term = 0.into_process(&mut process);
    assert_eq!(erlang::delete_element(small_integer_term, 0.into_process(&mut process), &mut process), Err(BadArgument));
}

#[test]
fn delete_element_with_big_integer_is_bad_argument() {
    let mut process: Process = Default::default();
    let big_integer_term: Term = 576460752303423489_isize.into_process(&mut process);
    assert_eq!(erlang::delete_element(big_integer_term, 0.into_process(&mut process), &mut process), Err(BadArgument));
}

#[test]
fn with_tuple_without_small_integer_index_is_bad_argument() {
    let mut process: Process = Default::default();
    let tuple_term = Term::slice_to_tuple(
        &[0.into_process(&mut process), 1.into_process(&mut process), 2.into_process(&mut process)],
        &process,
    );
    let index = 1_usize;
    let invalid_index_term = Term::arity(index);
    assert_ne!(invalid_index_term.tag(), Tag::SmallInteger);
    assert_eq!(erlang::delete_element(tuple_term.clone(), invalid_index_term, &mut process), Err(BadArgument));
    let valid_index_term: Term = index.into_process(&mut process);
    assert_eq!(valid_index_term.tag(), Tag::SmallInteger);
    assert_eq!(
        erlang::delete_element(tuple_term, valid_index_term, &mut process),
        Ok(Term::slice_to_tuple(&[0.into_process(&mut process), 2.into_process(&mut process)], &process))
    );
}

#[test]
fn with_tuple_without_index_in_range_is_bad_argument() {
    let mut process: Process = Default::default();
    let empty_tuple_term = Term::slice_to_tuple(&[], &process);
    assert_eq!(erlang::delete_element(empty_tuple_term, 0.into_process(&mut process), &mut process), Err(BadArgument));
}

#[test]
fn with_tuple_with_index_in_range_returns_tuple_without_element() {
    let mut process: Process = Default::default();
    let tuple_term = Term::slice_to_tuple(
        &[0.into_process(&mut process), 1.into_process(&mut process), 2.into_process(&mut process)],
        &process,
    );
    assert_eq!(
        erlang::delete_element(tuple_term, 1.into_process(&mut process), &mut process),
        Ok(Term::slice_to_tuple(&[0.into_process(&mut process), 2.into_process(&mut process)], &process))
    );
}

#[test]
fn delete_element_with_heap_binary_is_bad_argument() {
    let mut process: Process = Default::default();
    let heap_binary_term = Term::slice_to_binary(&[], &process);
    assert_eq!(erlang::delete_element(heap_binary_term, 0.into_process(&mut process), &mut process), Err(BadArgument));
}

#[test]
fn delete_element_with_subbinary_is_bad_argument() {
    let mut process: Process = Default::default();
    let binary_term = Term::slice_to_binary(&[0b0000_00001, 0b1111_1110, 0b1010_1011], &process);
    let subbinary_term = Term::subbinary(binary_term, 0, 7, 2, 1, &process);
    assert_eq!(erlang::delete_element(subbinary_term, 0.into_process(&mut process), &mut process), Err(BadArgument));
}

#[test]
fn element_with_atom_is_bad_argument() {
    let mut process: Process = Default::default();
    let atom_term = Term::str_to_atom("atom", Existence::DoNotCare, &mut process).unwrap();
    assert_eq!(erlang::element(atom_term, 0.into_process(&mut process)), Err(BadArgument));
}

#[test]
fn element_with_empty_list_is_bad_argument() {
    let mut process: Process = Default::default();
    assert_eq!(erlang::element(Term::Nil, 0.into_process(&mut process)), Err(BadArgument));
}

#[test]
fn element_with_list_is_bad_argument() {
    let mut process: Process = Default::default();
    let head_term = Term::str_to_atom("head", Existence::DoNotCare, &mut process).unwrap();
    let list_term = Term::cons(head_term, Term::Nil, &process);
    assert_eq!(erlang::element(list_term, 0.into_process(&mut process)), Err(BadArgument));
}

#[test]
fn element_with_small_integer_is_bad_argument() {
    let mut process: Process = Default::default();
    let small_integer_term: Term = 0.into_process(&mut process);
    assert_eq!(erlang::element(small_integer_term, 0.into_process(&mut process)), Err(BadArgument));
}

#[test]
fn element_with_big_integer_is_bad_argument() {
    let mut process: Process = Default::default();
    let big_integer_term: Term = 576460752303423489_isize.into_process(&mut process);
    assert_eq!(erlang::element(big_integer_term, 0.into_process(&mut process)), Err(BadArgument));
}

#[test]
fn erlang_with_tuple_without_small_integer_index_is_bad_argument() {
    let mut process: Process = Default::default();
    let element_term = 1.into_process(&mut process);
    let tuple_term = Term::slice_to_tuple(&[element_term.clone()], &process);
    let index = 0_usize;
    let invalid_index_term = Term::arity(index);
    assert_ne!(invalid_index_term.tag(), Tag::SmallInteger);
    assert_eq!(erlang::element(tuple_term.clone(), invalid_index_term), Err(BadArgument));
    let valid_index_term: Term = index.into_process(&mut process);
    assert_eq!(valid_index_term.tag(), Tag::SmallInteger);
    assert_eq!(erlang::element(tuple_term, valid_index_term), Ok(element_term));
}

#[test]
fn erlang_with_tuple_without_index_in_range_is_bad_argument() {
    let mut process: Process = Default::default();
    let empty_tuple_term = Term::slice_to_tuple(&[], &process);
    assert_eq!(erlang::element(empty_tuple_term, 0.into_process(&mut process)), Err(BadArgument));
}

#[test]
fn with_tuple_with_index_in_range_is_element() {
    let mut process: Process = Default::default();
    let element_term = 1.into_process(&mut process);
    let tuple_term = Term::slice_to_tuple(&[element_term.clone()], &process);
    assert_eq!(erlang::element(tuple_term, 0.into_process(&mut process)), Ok(element_term));
}

#[test]
fn element_with_heap_binary_is_bad_argument() {
    let mut process: Process = Default::default();
    let heap_binary_term = Term::slice_to_binary(&[], &process);
    assert_eq!(erlang::element(heap_binary_term, 0.into_process(&mut process)), Err(BadArgument));
}

#[test]
fn element_with_subbinary_is_bad_argument() {
    let mut process: Process = Default::default();
    let binary_term = Term::slice_to_binary(&[0b0000_00001, 0b1111_1110, 0b1010_1011], &process);
    let subbinary_term = Term::subbinary(binary_term, 0, 7, 2, 1, &process);
    assert_eq!(erlang::element(subbinary_term, 0.into_process(&mut process)), Err(BadArgument));
}

#[test]
fn insert_element_with_atom_is_bad_argument() {
    let mut process: Process = Default::default();
    let atom_term = Term::str_to_atom("atom", Existence::DoNotCare, &mut process).unwrap();
    assert_eq!(erlang::insert_element(atom_term, 0.into_process(&mut process), 0.into_process(&mut process), &mut process), Err(BadArgument));
}

#[test]
fn insert_element_with_empty_list_is_bad_argument() {
    let mut process: Process = Default::default();
    assert_eq!(erlang::insert_element(Term::Nil, 0.into_process(&mut process), 0.into_process(&mut process), &mut process), Err(BadArgument));
}

#[test]
fn insert_element_with_list_is_bad_argument() {
    let mut process: Process = Default::default();
    let head_term = Term::str_to_atom("head", Existence::DoNotCare, &mut process).unwrap();
    let list_term = Term::cons(head_term, Term::Nil, &process);
    assert_eq!(erlang::insert_element(list_term, 0.into_process(&mut process), 0.into_process(&mut process), &mut process), Err(BadArgument));
}

#[test]
fn insert_element_with_small_integer_is_bad_argument() {
    let mut process: Process = Default::default();
    let small_integer_term: Term = 0.into_process(&mut process);
    assert_eq!(erlang::insert_element(small_integer_term, 0.into_process(&mut process), 0.into_process(&mut process), &mut process), Err(BadArgument));
}

#[test]
fn insert_element_with_big_integer_is_bad_argument() {
    let mut process: Process = Default::default();
    let big_integer_term: Term = 576460752303423489_isize.into_process(&mut process);
    assert_eq!(erlang::insert_element(big_integer_term, 0.into_process(&mut process), 0.into_process(&mut process), &mut process), Err(BadArgument));
}

#[test]
fn insert_element_with_tuple_without_small_integer_index_is_bad_argument() {
    let mut process: Process = Default::default();
    let tuple_term = Term::slice_to_tuple(&[0.into_process(&mut process), 2.into_process(&mut process)], &process);
    let index = 1_usize;
    let invalid_index_term = Term::arity(index);
    assert_ne!(invalid_index_term.tag(), Tag::SmallInteger);
    assert_eq!(
        erlang::insert_element(tuple_term.clone(), invalid_index_term, 0.into_process(&mut process), &mut process),
        Err(BadArgument)
    );
    let valid_index_term: Term = index.into_process(&mut process);
    assert_eq!(valid_index_term.tag(), Tag::SmallInteger);
    assert_eq!(
        erlang::insert_element(tuple_term, valid_index_term, 1.into_process(&mut process), &mut process),
        Ok(Term::slice_to_tuple(
            &[0.into_process(&mut process), 1.into_process(&mut process), 2.into_process(&mut process)],
            &process,
        ))
    );
}

#[test]
fn insert_element_with_tuple_without_index_in_range_is_bad_argument() {
    let mut process: Process = Default::default();
    let empty_tuple_term = Term::slice_to_tuple(&[], &process);
    assert_eq!(
        erlang::insert_element(empty_tuple_term, 1.into_process(&mut process), 0.into_process(&mut process), &mut process),
        Err(BadArgument)
    );
}

#[test]
fn with_tuple_with_index_in_range_returns_tuple_with_new_element_at_index() {
    let mut process: Process = Default::default();
    let tuple_term = Term::slice_to_tuple(&[0.into_process(&mut process), 2.into_process(&mut process)], &process);
    assert_eq!(
        erlang::insert_element(tuple_term, 1.into_process(&mut process), 1.into_process(&mut process), &mut process),
        Ok(Term::slice_to_tuple(
            &[0.into_process(&mut process), 1.into_process(&mut process), 2.into_process(&mut process)],
            &process,
        ))
    );
}

#[test]
fn erlang_with_tuple_with_index_at_size_return_tuples_with_new_element_at_end() {
    let mut process: Process = Default::default();
    let tuple_term = Term::slice_to_tuple(&[0.into_process(&mut process)], &process);
    assert_eq!(
        erlang::insert_element(tuple_term, 1.into_process(&mut process), 1.into_process(&mut process), &mut process),
        Ok(Term::slice_to_tuple(&[0.into_process(&mut process), 1.into_process(&mut process)], &process))
    );
}

#[test]
fn insert_element_with_heap_binary_is_bad_argument() {
    let mut process: Process = Default::default();
    let heap_binary_term = Term::slice_to_binary(&[], &process);
    assert_eq!(erlang::insert_element(heap_binary_term, 0.into_process(&mut process), 0.into_process(&mut process), &mut process), Err(BadArgument));
}

#[test]
fn insert_element_with_subbinary_is_bad_argument() {
    let mut process: Process = Default::default();
    let binary_term = Term::slice_to_binary(&[0b0000_00001, 0b1111_1110, 0b1010_1011], &process);
    let subbinary_term = Term::subbinary(binary_term, 0, 7, 2, 1, &process);
    assert_eq!(erlang::insert_element(subbinary_term, 0.into_process(&mut process), 0.into_process(&mut process), &mut process), Err(BadArgument));
}

#[test]
fn with_atom_errors_badarg() {
    let mut process: Process = Default::default();
    let tuple = Term::str_to_atom("atom", Existence::DoNotCare, &mut process).unwrap();
    let index = 1.into_process(&mut process);
    let value = 4.into_process(&mut process);
    assert_eq!(erlang::setelement_3(index, tuple, value, &mut process), Err(BadArgument));
}

#[test]
fn with_local_reference_errors_badarg() {
    let mut process: Process = Default::default();
    let tuple = Term::next_local_reference(&mut process);
    let index = 1.into_process(&mut process);
    let value = 4.into_process(&mut process);
    assert_eq!(erlang::setelement_3(index, tuple, value, &mut process), Err(BadArgument));
}

#[test]
fn with_empty_list_errors_badarg() {
    let mut process: Process = Default::default();
    let tuple = Term::Nil;
    let index = 1.into_process(&mut process);
    let value = 4.into_process(&mut process);
    assert_eq!(erlang::setelement_3(index, tuple, value, &mut process), Err(BadArgument));
}

#[test]
fn with_list_errors_badarg() {
    let mut process: Process = Default::default();
    let tuple = Term::cons(1.into_process(&mut process), Term::Nil, &process);
    let index = 1.into_process(&mut process);
    let value = 4.into_process(&mut process);
    assert_eq!(erlang::setelement_3(index, tuple, value, &mut process), Err(BadArgument));
}

#[test]
fn with_small_integer_errors_badarg() {
    let mut process: Process = Default::default();
    let tuple = 0.into_process(&mut process);
    let index = 1.into_process(&mut process);
    let value = 4.into_process(&mut process);
    assert_eq!(erlang::setelement_3(index, tuple, value, &mut process), Err(BadArgument));
}

#[test]
fn with_big_integer_errors_badarg() {
    let mut process: Process = Default::default();
    let tuple = 576460752303423489_i128.into_process(&mut process);
    let index = 1.into_process(&mut process);
    let value = 4.into_process(&mut process);
    assert_eq!(erlang::setelement_3(index, tuple, value, &mut process), Err(BadArgument));
}

#[test]
fn with_float_errors_badarg() {
    let mut process: Process = Default::default();
    let tuple = Term::float_from_bits((1.0_f64).to_bits(), &process);
    let index = 1.into_process(&mut process);
    let value = 4.into_process(&mut process);
    assert_eq!(erlang::setelement_3(index, tuple, value, &mut process), Err(BadArgument));
}

#[test]
fn with_local_pid_errors_badarg() {
    let mut process: Process = Default::default();
    let tuple = Term::local_pid(0, 0, &process).unwrap();
    let index = 1.into_process(&mut process);
    let value = 4.into_process(&mut process);
    assert_eq!(erlang::setelement_3(index, tuple, value, &mut process), Err(BadArgument));
}

#[test]
fn with_external_pid_errors_badarg() {
    let mut process: Process = Default::default();
    let tuple = Term::external_pid(1, 0, 0, &process).unwrap();
    let index = 1.into_process(&mut process);
    let value = 4.into_process(&mut process);
    assert_eq!(erlang::setelement_3(index, tuple, value, &mut process), Err(BadArgument));
}

#[test]
fn with_tuple_without_valid_index_errors_badarg() {
    let mut process: Process = Default::default();
    let tuple = Term::slice_to_tuple(&[], &process);
    let index = 1.into_process(&mut process);
    let value = 4.into_process(&mut process);
    assert_eq!(erlang::setelement_3(index, tuple, value, &mut process), Err(BadArgument));
}

#[test]
fn with_tuple_with_valid_index_returns_tuple_with_index_replaced() {
    let mut process: Process = Default::default();
    let first_element = 1.into_process(&mut process);
    let second_element = 2.into_process(&mut process);
    let third_element = 3.into_process(&mut process);
    let tuple = Term::slice_to_tuple(
        &[first_element.clone(), second_element.clone(), third_element.clone()],
        &process,
    );
    let value = 4.into_process(&mut process);
    assert_eq!(
        erlang::setelement_3(1.into_process(&mut process), tuple.clone(), value.clone(), &mut process),
        Ok(Term::slice_to_tuple(&[value.clone(), second_element.clone(), third_element.clone()], &process))
    );
    assert_eq!(
        erlang::setelement_3(2.into_process(&mut process), tuple.clone(), value.clone(), &mut process),
        Ok(Term::slice_to_tuple(&[first_element.clone(), value.clone(), third_element.clone()], &process))
    );
    assert_eq!(
        erlang::setelement_3(3.into_process(&mut process), tuple, value.clone(), &mut process),
        Ok(Term::slice_to_tuple(&[first_element, second_element, value], &process))
    );
}

#[test]
fn with_map_errors_badarg() {
    let mut process: Process = Default::default();
    let tuple = Term::slice_to_map(&[], &process);
    let index = 1.into_process(&mut process);
    let value = 4.into_process(&mut process);
    assert_eq!(erlang::setelement_3(index, tuple, value, &mut process), Err(BadArgument));
}

#[test]
fn setelement_3_with_heap_binary_is_false() {
    let mut process: Process = Default::default();
    let tuple = Term::slice_to_binary(&[], &process);
    let index = 1.into_process(&mut process);
    let value = 4.into_process(&mut process);
    assert_eq!(erlang::setelement_3(index, tuple, value, &mut process), Err(BadArgument));
}

#[test]
fn setelement_3_with_subbinary_is_false() {
    let mut process: Process = Default::default();
    let original = Term::slice_to_binary(&[0b0000_00001, 0b1111_1110, 0b1010_1011], &process);
    let tuple = Term::subbinary(original, 0, 7, 2, 1, &process);
    let index = 1.into_process(&mut process);
    let value = 4.into_process(&mut process);
    assert_eq!(erlang::setelement_3(index, tuple, value, &mut process), Err(BadArgument));
}

