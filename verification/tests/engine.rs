use rechunk::assemble::assemble;
use rechunk::descriptor::ArrayDescriptor;
use rechunk::engine::{rechunk, try_rechunk, Rechunked};
use rechunk::error::RechunkError;
use rechunk::geometry::buffer_holds_array;
use rechunk::store::chunk_file_name;

const SOURCE: &str = r#"{
    "chunks": [2, 4],
    "compressor": {"id": "zlib", "level": 1},
    "dtype": "|u1",
    "fill_value": 0,
    "filters": null,
    "order": "C",
    "shape": [10, 4],
    "zarr_format": 2
}"#;

fn source_payloads() -> Vec<Vec<u8>> {
    (0..5u8).map(|k| (0..8u8).map(|i| 100 + k * 8 + i).collect()).collect()
}

#[test]
fn an_array_is_rechunked_by_three_rows() {
    let descriptor = ArrayDescriptor::parse(SOURCE).unwrap();
    let buffer = assemble(&source_payloads());
    assert!(buffer_holds_array(&descriptor.shape, &descriptor.chunk_shape, 3, buffer.len()));

    let Rechunked { chunks, descriptor: written } = rechunk(&descriptor, 3, &buffer).unwrap();
    let lengths: Vec<usize> = chunks.iter().map(|chunk| chunk.len()).collect();
    assert_eq!(lengths, vec![12, 12, 12, 4]);
    assert_eq!(chunks.concat(), buffer);
    assert_eq!(written.chunk_shape, vec![3, 4]);
    assert_eq!(written.shape, vec![10, 4]);

    let names: Vec<String> = (0..chunks.len()).map(chunk_file_name).collect();
    assert_eq!(names, vec!["0.0", "1.0", "2.0", "3.0"]);
}

#[test]
fn rechunking_by_the_whole_extent_is_a_round_trip() {
    let descriptor = ArrayDescriptor::parse(SOURCE).unwrap();
    let buffer = assemble(&source_payloads());
    let rechunked = rechunk(&descriptor, 10, &buffer).unwrap();
    assert_eq!(rechunked.chunks, vec![&buffer[..]]);
    assert_eq!(
        rechunked.descriptor,
        ArrayDescriptor { chunk_shape: vec![10, 4], ..descriptor.clone() }
    );
}

#[test]
fn attributes_pass_through_every_rechunk() {
    let descriptor = ArrayDescriptor::parse(SOURCE).unwrap();
    let buffer = assemble(&source_payloads());
    for rows in 1..=12usize {
        let written = rechunk(&descriptor, rows, &buffer).unwrap().descriptor;
        assert_eq!(written.shape, descriptor.shape);
        assert_eq!(written.dtype, descriptor.dtype);
        assert_eq!(written.compressor, descriptor.compressor);
        assert_eq!(written.fill_value, descriptor.fill_value);
        assert_eq!(written.order, descriptor.order);
        assert_eq!(written.filters, descriptor.filters);
        assert_eq!(written.format_version, descriptor.format_version);
        assert_eq!(written.chunk_shape, vec![rows, 4]);
    }
}

#[test]
fn attributes_pass_through_the_written_text() {
    let descriptor = ArrayDescriptor::parse(SOURCE).unwrap();
    let buffer = assemble(&source_payloads());
    let text = rechunk(&descriptor, 3, &buffer).unwrap().descriptor.serialize().unwrap();
    let read_back = ArrayDescriptor::parse(&text).unwrap();
    assert_eq!(read_back, ArrayDescriptor { chunk_shape: vec![3, 4], ..descriptor });
}

#[test]
fn zero_rows_fail_before_anything_is_produced() {
    let descriptor = ArrayDescriptor::parse(SOURCE).unwrap();
    let buffer = assemble(&source_payloads());
    assert_eq!(rechunk(&descriptor, 0, &buffer), Err(RechunkError::Geometry));
}

#[test]
fn a_descriptor_without_extent_or_width_cannot_be_rechunked() {
    let buffer = assemble(&source_payloads());
    for text in [
        r#"{"shape": [0, 4], "chunks": [2, 4]}"#,
        r#"{"shape": [10, 4], "chunks": [2, 0]}"#,
        r#"{"shape": [10], "chunks": [2]}"#,
        r#"{"shape": [], "chunks": [2, 4]}"#,
    ] {
        let descriptor = ArrayDescriptor::parse(text).unwrap();
        assert_eq!(rechunk(&descriptor, 3, &buffer), Err(RechunkError::Geometry), "{}", text);
    }
}

#[test]
fn dimensions_past_the_second_are_kept() {
    let descriptor =
        ArrayDescriptor::parse(r#"{"shape": [6, 2, 3], "chunks": [2, 2, 3]}"#).unwrap();
    let buffer: Vec<u8> = (0..12).collect();
    let rechunked = rechunk(&descriptor, 4, &buffer).unwrap();
    assert_eq!(rechunked.descriptor.chunk_shape, vec![4, 2, 3]);
    assert_eq!(rechunked.chunks, vec![&buffer[0..8], &buffer[8..12]]);
}

#[test]
fn rechunking_a_rechunked_array_is_rechunking_the_source() {
    let descriptor = ArrayDescriptor::parse(SOURCE).unwrap();
    let buffer = assemble(&source_payloads());
    for first_rows in 1..=11usize {
        let first = rechunk(&descriptor, first_rows, &buffer).unwrap();
        let payloads: Vec<Vec<u8>> = first.chunks.iter().map(|chunk| chunk.to_vec()).collect();
        let joined = assemble(&payloads);
        for rows in 1..=11usize {
            assert_eq!(
                rechunk(&first.descriptor, rows, &joined),
                rechunk(&descriptor, rows, &buffer),
                "first {} rows, then {}",
                first_rows,
                rows
            );
        }
    }
}

#[test]
fn a_well_formed_descriptor_stays_well_formed() {
    let descriptor = ArrayDescriptor::parse(SOURCE).unwrap();
    let buffer = assemble(&source_payloads());
    assert!(descriptor.is_well_formed());
    for rows in 1..=12usize {
        assert!(rechunk(&descriptor, rows, &buffer).unwrap().descriptor.is_well_formed());
    }
}

#[test]
fn a_buffer_too_short_for_the_array_is_not_cut() {
    let descriptor = ArrayDescriptor::parse(SOURCE).unwrap();
    let buffer = assemble(&source_payloads());
    assert_eq!(try_rechunk(&descriptor, 3, &buffer[..39]), None);
    assert_eq!(try_rechunk(&descriptor, 3, &[]), None);
    assert_eq!(try_rechunk(&descriptor, 10, &buffer[..39]), None);
}

#[test]
fn a_buffer_that_holds_the_array_is_cut() {
    let descriptor = ArrayDescriptor::parse(SOURCE).unwrap();
    let buffer = assemble(&source_payloads());
    for rows in 1..=12usize {
        let cut = rechunk(&descriptor, rows, &buffer);
        assert_eq!(try_rechunk(&descriptor, rows, &buffer), Some(cut));
    }
}

#[test]
fn an_invalid_geometry_is_reported_whatever_the_buffer() {
    let descriptor = ArrayDescriptor::parse(SOURCE).unwrap();
    assert_eq!(try_rechunk(&descriptor, 0, &[]), Some(Err(RechunkError::Geometry)));
    let flat = ArrayDescriptor::parse(r#"{"shape": [10], "chunks": [2]}"#).unwrap();
    assert_eq!(try_rechunk(&flat, 3, &[]), Some(Err(RechunkError::Geometry)));
}
