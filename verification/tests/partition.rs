use rechunk::assemble::assemble;
use rechunk::error::RechunkError;
use rechunk::geometry::{buffer_holds_array, chunk_count, extent_and_width};
use rechunk::partition::partition;

fn counting_bytes(n: usize) -> Vec<u8> {
    (0..n).map(|i| (i % 251) as u8).collect()
}

fn lengths(chunks: &[&[u8]]) -> Vec<usize> {
    chunks.iter().map(|chunk| chunk.len()).collect()
}

#[test]
fn ten_rows_cut_by_three() {
    let payloads: Vec<Vec<u8>> = (0..5u8).map(|k| (0..8u8).map(|i| k * 8 + i).collect()).collect();
    let buffer = assemble(&payloads);
    assert_eq!(buffer.len(), 40);
    assert_eq!(buffer, counting_bytes(40));

    let chunks = partition(&[10, 4], &[2, 4], 3, &buffer).unwrap();
    assert_eq!(lengths(&chunks), vec![12, 12, 12, 4]);
    assert_eq!(chunks[0], &buffer[0..12]);
    assert_eq!(chunks[1], &buffer[12..24]);
    assert_eq!(chunks[2], &buffer[24..36]);
    assert_eq!(chunks[3], &buffer[36..40]);
}

#[test]
fn whole_extent_gives_the_buffer_back() {
    let buffer = counting_bytes(40);
    let chunks = partition(&[10, 4], &[2, 4], 10, &buffer).unwrap();
    assert_eq!(chunks.len(), 1);
    assert_eq!(chunks[0], &buffer[..]);
}

#[test]
fn sizes_are_conserved_for_every_row_count() {
    let buffer = counting_bytes(40);
    for rows in 1..=12usize {
        let chunks = partition(&[10, 4], &[2, 4], rows, &buffer).unwrap();
        let sum: usize = chunks.iter().map(|chunk| chunk.len()).sum();
        assert_eq!(sum, 10 * 4, "rows = {}", rows);
        assert_eq!(chunks.concat(), buffer, "rows = {}", rows);
    }
}

#[test]
fn chunk_count_is_the_rounded_up_quotient() {
    let buffer = counting_bytes(40);
    let expected = [10usize, 5, 4, 3, 2, 2, 2, 2, 2, 1, 1, 1];
    for rows in 1..=12usize {
        let chunks = partition(&[10, 4], &[2, 4], rows, &buffer).unwrap();
        assert_eq!(chunks.len(), expected[rows - 1], "rows = {}", rows);
        assert_eq!(chunks.len(), (10 + rows - 1) / rows);
        assert_eq!(chunk_count(&[10, 4], &[2, 4], rows), Ok(chunks.len()));
    }
}

#[test]
fn only_the_last_chunk_is_truncated() {
    let buffer = counting_bytes(40);
    let chunks = partition(&[10, 4], &[2, 4], 4, &buffer).unwrap();
    assert_eq!(lengths(&chunks), vec![16, 16, 8]);
    for chunk in &chunks[..chunks.len() - 1] {
        assert_eq!(chunk.len(), 16);
    }
    assert!(chunks[chunks.len() - 1].len() < 16);
}

#[test]
fn no_chunk_is_truncated_when_rows_divide_the_extent() {
    let buffer = counting_bytes(40);
    let chunks = partition(&[10, 4], &[2, 4], 5, &buffer).unwrap();
    assert_eq!(lengths(&chunks), vec![20, 20]);
    let chunks = partition(&[10, 4], &[2, 4], 1, &buffer).unwrap();
    assert_eq!(lengths(&chunks), vec![4; 10]);
}

#[test]
fn rows_beyond_the_extent_give_one_chunk() {
    let buffer = counting_bytes(40);
    let chunks = partition(&[10, 4], &[2, 4], 11, &buffer).unwrap();
    assert_eq!(lengths(&chunks), vec![40]);
    assert_eq!(chunks[0], &buffer[..]);
}

#[test]
fn stride_beyond_the_machine_gives_one_chunk() {
    let buffer = counting_bytes(40);
    let chunks = partition(&[10, 4], &[2, 4], usize::MAX, &buffer).unwrap();
    assert_eq!(lengths(&chunks), vec![40]);
    assert_eq!(chunk_count(&[10, 4], &[2, 4], usize::MAX), Ok(1));
}

#[test]
fn bytes_past_the_array_are_left_out() {
    let buffer = counting_bytes(50);
    let chunks = partition(&[10, 4], &[2, 4], 3, &buffer).unwrap();
    assert_eq!(lengths(&chunks), vec![12, 12, 12, 4]);
    assert_eq!(chunks.concat(), &buffer[..40]);
}

#[test]
fn only_the_row_width_of_the_chunk_geometry_counts() {
    // shape[1] plays no part: the width is chunks[1].
    let buffer = counting_bytes(30);
    let chunks = partition(&[10, 99], &[7, 3], 4, &buffer).unwrap();
    assert_eq!(lengths(&chunks), vec![12, 12, 6]);
    let chunks = partition(&[10], &[7, 3, 5], 4, &buffer).unwrap();
    assert_eq!(lengths(&chunks), vec![12, 12, 6]);
}

#[test]
fn zero_rows_are_rejected() {
    let buffer = counting_bytes(40);
    assert_eq!(partition(&[10, 4], &[2, 4], 0, &buffer), Err(RechunkError::Geometry));
    assert_eq!(partition(&[10, 4], &[2, 4], 0, &[]), Err(RechunkError::Geometry));
    assert_eq!(chunk_count(&[10, 4], &[2, 4], 0), Err(RechunkError::Geometry));
}

#[test]
fn zero_or_missing_extent_is_rejected() {
    assert_eq!(partition(&[0, 4], &[2, 4], 3, &[]), Err(RechunkError::Geometry));
    assert_eq!(partition(&[], &[2, 4], 3, &[]), Err(RechunkError::Geometry));
    assert_eq!(chunk_count(&[], &[2, 4], 3), Err(RechunkError::Geometry));
}

#[test]
fn zero_or_missing_width_is_rejected() {
    assert_eq!(partition(&[10, 4], &[2, 0], 3, &[]), Err(RechunkError::Geometry));
    assert_eq!(partition(&[10, 4], &[2], 3, &[]), Err(RechunkError::Geometry));
    assert_eq!(partition(&[10, 4], &[], 3, &[]), Err(RechunkError::Geometry));
    assert_eq!(extent_and_width(&[10, 4], &[2], 3), Err(RechunkError::Geometry));
}

#[test]
fn extent_and_width_of_a_valid_geometry() {
    assert_eq!(extent_and_width(&[10, 4], &[2, 6], 3), Ok((10, 6)));
    assert_eq!(extent_and_width(&[10, 4, 7], &[2, 6, 7], 1), Ok((10, 6)));
}

#[test]
fn buffer_length_is_checked_against_the_array() {
    assert!(buffer_holds_array(&[10, 4], &[2, 4], 3, 40));
    assert!(buffer_holds_array(&[10, 4], &[2, 4], 3, 41));
    assert!(!buffer_holds_array(&[10, 4], &[2, 4], 3, 39));
    assert!(!buffer_holds_array(&[10, 4], &[2, 4], 3, 0));
    // An array larger than the machine can address is held by no buffer.
    assert!(!buffer_holds_array(&[usize::MAX, 4], &[2, 4], 3, usize::MAX));
    // Where the geometry is rejected anyway, any buffer will do.
    assert!(buffer_holds_array(&[10, 4], &[2, 4], 0, 0));
    assert!(buffer_holds_array(&[10, 4], &[2], 3, 0));
    assert!(buffer_holds_array(&[0, 4], &[2, 4], 3, 0));
}

#[test]
fn payloads_are_joined_in_the_order_given() {
    assert_eq!(assemble(&[vec![1, 2], vec![3], vec![], vec![4, 5, 6]]), vec![1, 2, 3, 4, 5, 6]);
    assert_eq!(assemble(&[vec![3], vec![1, 2]]), vec![3, 1, 2]);
    assert_eq!(assemble(&[]), Vec::<u8>::new());
    assert_eq!(assemble(&[vec![], vec![]]), Vec::<u8>::new());
}
