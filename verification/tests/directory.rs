use media_sync::directory::check_offsets;
use media_sync::error::AnkiError;
use media_sync::extract::{extract_files, Extraction};
use std::io::{Cursor, Write};
use zip::write::FileOptions;
use zip::CompressionMethod;

fn archive(members: &[(&str, &[u8])]) -> Vec<u8> {
    let mut zip = zip::ZipWriter::new(Cursor::new(Vec::new()));
    let options = FileOptions::default().compression_method(CompressionMethod::Stored);
    for (name, bytes) in members {
        zip.start_file(*name, options).unwrap();
        zip.write_all(bytes).unwrap();
    }
    zip.finish().unwrap().into_inner()
}

fn sample() -> Vec<u8> {
    archive(&[("0", b"first"), ("_meta", br#"{"0": "a"}"#)])
}

fn entry_at(data: &[u8]) -> usize {
    data.windows(4).position(|window| window == b"PK\x01\x02").unwrap()
}

fn put32(data: &mut [u8], at: usize, number: u32) {
    data[at..at + 4].copy_from_slice(&number.to_le_bytes());
}

/// Gives the first entry an extra field.
fn with_extra(mut data: Vec<u8>, extra: &[u8]) -> Vec<u8> {
    let entry = entry_at(&data);
    let footer = data.len() - 22;
    let size = (footer - entry + extra.len()) as u32;
    put32(&mut data, footer + 12, size);
    data[entry + 30] = extra.len() as u8;
    let after_name = entry + 46 + data[entry + 28] as usize;
    data.splice(after_name..after_name, extra.iter().cloned());
    data
}

fn start_field(start: u64) -> Vec<u8> {
    let mut extra = vec![1, 0, 8, 0];
    extra.extend_from_slice(&start.to_le_bytes());
    extra
}

/// Moves the start of the first file's header to an extra field.
fn with_start(start: u64) -> Vec<u8> {
    let mut data = with_extra(sample(), &start_field(start));
    let entry = entry_at(&data);
    put32(&mut data, entry + 42, u32::MAX);
    data
}

/// Adds the footer for large archives.
fn enlarged(mut data: Vec<u8>) -> Vec<u8> {
    let entry = entry_at(&data) as u64;
    let footer = data.len() - 22;
    let mut large = b"PK\x06\x06".to_vec();
    large.extend_from_slice(&44u64.to_le_bytes());
    large.extend_from_slice(&[45, 0, 45, 0]);
    large.extend_from_slice(&[0; 8]);
    large.extend_from_slice(&2u64.to_le_bytes());
    large.extend_from_slice(&2u64.to_le_bytes());
    large.extend_from_slice(&(footer as u64 - entry).to_le_bytes());
    large.extend_from_slice(&entry.to_le_bytes());
    large.extend_from_slice(b"PK\x06\x07");
    large.extend_from_slice(&[0; 4]);
    large.extend_from_slice(&(footer as u64).to_le_bytes());
    large.extend_from_slice(&1u32.to_le_bytes());
    data.splice(footer..footer, large);
    data
}

fn shifted(data: &[u8], by: usize) -> Vec<u8> {
    let mut out = vec![b'x'; by];
    out.extend_from_slice(data);
    out
}

fn assert_sound(out: &Extraction) {
    assert!(out.failure.is_none());
    assert_eq!(out.files.len(), 1);
    assert_eq!(out.files[0].fname, "a");
    assert_eq!(out.files[0].data, b"first");
}

fn assert_out_of_range(data: Vec<u8>) {
    assert!(!check_offsets(&data));
    let out = extract_files(data);
    assert!(out.files.is_empty());
    match out.failure {
        Some(AnkiError::AnkiWebMiscError { info }) => assert_eq!(info, "malformed zip received"),
        other => panic!("unexpected outcome {:?}", other),
    }
}

#[test]
fn ordinary_archives_are_in_range() {
    assert!(check_offsets(&sample()));
    assert!(check_offsets(&Vec::new()));
    assert!(check_offsets(&b"this is no archive at all, just text".to_vec()));
    assert_sound(&extract_files(sample()));
}

#[test]
fn bytes_in_front_of_an_archive_are_skipped() {
    for by in [1, 100] {
        let data = shifted(&sample(), by);
        assert!(check_offsets(&data));
        assert_sound(&extract_files(data));
    }
}

#[test]
fn a_start_in_an_extra_field_counts() {
    for by in [0, 3] {
        let data = shifted(&with_start(0), by);
        assert!(check_offsets(&data));
        assert_sound(&extract_files(data));
    }
}

#[test]
fn a_large_archive_is_read_by_its_own_footer() {
    for by in [0, 3] {
        let data = shifted(&enlarged(with_start(0)), by);
        assert!(check_offsets(&data));
        assert_sound(&extract_files(data));
    }
}

#[test]
fn a_start_out_of_range_is_refused() {
    assert_out_of_range(shifted(&with_start(u64::MAX), 1));
    assert_out_of_range(shifted(&with_start(u64::MAX - 2), 3));
    assert_out_of_range(shifted(&enlarged(with_start(u64::MAX)), 1));
}

#[test]
fn a_start_that_is_far_off_but_in_range_cannot_be_opened() {
    for data in [
        with_start(u64::MAX),
        shifted(&with_start(u64::MAX - 3), 3),
        enlarged(with_start(u64::MAX)),
    ] {
        assert!(check_offsets(&data));
        let out = extract_files(data);
        assert!(out.files.is_empty());
        assert!(matches!(out.failure, Some(AnkiError::Zip(_))));
    }
}

#[test]
fn sizes_in_an_extra_field_come_before_the_start() {
    let mut extra = vec![9, 0, 2, 0, 7, 7];
    extra.extend_from_slice(&[1, 0, 24, 0]);
    extra.extend_from_slice(&5u64.to_le_bytes());
    extra.extend_from_slice(&5u64.to_le_bytes());
    extra.extend_from_slice(&u64::MAX.to_le_bytes());
    let mut data = with_extra(sample(), &extra);
    let entry = entry_at(&data);
    for field in [20, 24, 42] {
        put32(&mut data, entry + field, u32::MAX);
    }
    assert!(check_offsets(&data));
    assert_out_of_range(shifted(&data, 1));
    // without the marks for the sizes, the start is the first number
    put32(&mut data, entry + 20, 5);
    put32(&mut data, entry + 24, 5);
    assert!(check_offsets(&shifted(&data, 1)));
}

#[test]
fn an_extra_field_that_is_cut_short_is_passed_over() {
    let mut data = with_extra(sample(), &[1, 0, 8, 0, 255, 255, 255]);
    let entry = entry_at(&data);
    put32(&mut data, entry + 42, u32::MAX);
    assert!(check_offsets(&shifted(&data, 1)));
    assert!(extract_files(shifted(&data, 1)).failure.is_some());
}

#[test]
fn damaged_archives_are_unpacked_without_a_panic() {
    let bases = [
        shifted(&with_start(0), 2),
        shifted(&enlarged(with_start(0)), 2),
        shifted(&with_start(u64::MAX), 2),
        shifted(&enlarged(with_start(u64::MAX)), 2),
    ];
    let mut seed: u64 = 1;
    for _round in 0..20_000 {
        seed = seed.wrapping_mul(6364136223846793005).wrapping_add(1442695040888963407);
        let mut data = bases[(seed >> 62) as usize].clone();
        for k in 0..1 + (seed >> 60) % 3 {
            let mixed = (seed >> (8 * k)) as usize;
            let at = (mixed >> 5) % data.len();
            data[at] = [0, 1, 2, 255, data[at] ^ 1, data[at] ^ 128][mixed % 6];
        }
        let fit = check_offsets(&data);
        let out = extract_files(data);
        assert!(fit || out.files.is_empty());
    }
}
