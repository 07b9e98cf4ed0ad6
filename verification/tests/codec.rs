use chunk_grid::codec::{deserialize_array, serialize_array, CodecError};

#[test]
fn serialize_keeps_order_and_length() {
    let arr: Vec<usize> = vec![3, 1, 4, 1, 5];
    let out = serialize_array(&arr);
    assert_eq!(out, vec![3, 1, 4, 1, 5]);
}

#[test]
fn serialize_empty() {
    let arr: Vec<u8> = Vec::new();
    let out = serialize_array(&arr);
    assert!(out.is_empty());
}

#[test]
fn round_trip_restores_array() {
    let arr: Vec<usize> = vec![9, 8, 7, 6];
    let wire = serialize_array(&arr);
    let back = deserialize_array::<usize, 4>(&wire, 0).unwrap();
    assert_eq!(back, arr);
}

#[test]
fn round_trip_other_element_type() {
    let arr: Vec<u8> = vec![255, 0, 42];
    let wire = serialize_array(&arr);
    let back = deserialize_array::<u8, 3>(&wire, 0).unwrap();
    assert_eq!(back, arr);
}

#[test]
fn short_input_reports_first_missing_index() {
    let input: Vec<usize> = vec![10, 11];
    let r = deserialize_array::<usize, 4>(&input, 0);
    assert_eq!(r, Err(CodecError::InvalidLength { index: 2 }));
}

#[test]
fn three_of_four_reports_index_three() {
    let input: Vec<usize> = vec![1, 2, 3];
    let r = deserialize_array::<usize, 4>(&input, 0);
    assert_eq!(r, Err(CodecError::InvalidLength { index: 3 }));
}

#[test]
fn empty_input_reports_index_zero() {
    let input: Vec<usize> = Vec::new();
    let r = deserialize_array::<usize, 2>(&input, 0);
    assert_eq!(r, Err(CodecError::InvalidLength { index: 0 }));
}

#[test]
fn excess_elements_are_truncated_not_an_error() {
    let input: Vec<usize> = vec![1, 2, 3, 4, 5];
    let r = deserialize_array::<usize, 3>(&input, 0).unwrap();
    assert_eq!(r, vec![1, 2, 3]);
}

#[test]
fn placeholder_never_survives_success() {
    let input: Vec<usize> = vec![4, 5];
    let r = deserialize_array::<usize, 2>(&input, 77).unwrap();
    assert_eq!(r, vec![4, 5]);
}
