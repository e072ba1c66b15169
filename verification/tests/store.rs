use rechunk::store::{chunk_file_name, decimal_text, is_chunk_entry, DESCRIPTOR_FILE_NAME};

#[test]
fn output_chunks_are_numbered_from_zero() {
    assert_eq!(chunk_file_name(0), "0.0");
    assert_eq!(chunk_file_name(1), "1.0");
    assert_eq!(chunk_file_name(2), "2.0");
    assert_eq!(chunk_file_name(9), "9.0");
    assert_eq!(chunk_file_name(10), "10.0");
    assert_eq!(chunk_file_name(109), "109.0");
    assert_eq!(chunk_file_name(12345), "12345.0");
}

#[test]
fn chunk_names_agree_with_formatting() {
    for index in [0usize, 7, 10, 99, 100, 1000, 65535, 4294967295, usize::MAX] {
        assert_eq!(chunk_file_name(index), format!("{}.0", index));
        assert_eq!(decimal_text(index), format!("{}", index));
    }
}

#[test]
fn the_descriptor_is_not_a_chunk() {
    assert_eq!(DESCRIPTOR_FILE_NAME, ".zarray");
    assert!(!is_chunk_entry(".zarray", true));
    assert!(!is_chunk_entry(".zarray", false));
}

#[test]
fn regular_files_are_chunks() {
    assert!(is_chunk_entry("0.0", true));
    assert!(is_chunk_entry("17.0", true));
    assert!(is_chunk_entry("zarray", true));
    assert!(is_chunk_entry(".zarray.bak", true));
    assert!(is_chunk_entry("", true));
}

#[test]
fn other_entries_are_not_chunks() {
    assert!(!is_chunk_entry("0.0", false));
    assert!(!is_chunk_entry("subdirectory", false));
}

#[test]
fn chunk_names_do_not_collide() {
    let mut names: Vec<String> = (0..2000usize).map(chunk_file_name).collect();
    names.sort();
    names.dedup();
    assert_eq!(names.len(), 2000);
}

#[test]
fn output_chunks_are_chunk_entries() {
    for index in [0usize, 1, 9, 10, 123456, usize::MAX] {
        let name = chunk_file_name(index);
        assert_ne!(name, DESCRIPTOR_FILE_NAME);
        assert!(is_chunk_entry(&name, true));
    }
}
