use media_sync::error::AnkiError;
use media_sync::extract::{extract_files, plan_member, Extraction, MemberPlan};
use std::io::{Cursor, Write};
use zip::write::FileOptions;
use zip::CompressionMethod;

fn archive(method: CompressionMethod, members: &[(&str, &[u8])]) -> Vec<u8> {
    let mut zip = zip::ZipWriter::new(Cursor::new(Vec::new()));
    let options = FileOptions::default().compression_method(method);
    for (name, bytes) in members {
        zip.start_file(*name, options).unwrap();
        zip.write_all(bytes).unwrap();
    }
    zip.finish().unwrap().into_inner()
}

fn stored(members: &[(&str, &[u8])]) -> Vec<u8> {
    archive(CompressionMethod::Stored, members)
}

fn contents(extraction: &Extraction) -> Vec<(&str, &[u8])> {
    extraction.files.iter().map(|file| (file.fname.as_str(), file.data.as_slice())).collect()
}

fn position(haystack: &[u8], needle: &[u8]) -> usize {
    haystack.windows(needle.len()).position(|window| window == needle).unwrap()
}

#[test]
fn files_come_out_under_their_real_names() {
    let data = stored(&[
        ("0", b"first"),
        ("1", b"second"),
        ("_meta", br#"{"0": "a.jpg", "1": "b.mp3"}"#),
    ]);
    let out = extract_files(data);
    assert!(out.failure.is_none());
    assert_eq!(contents(&out), vec![("a.jpg", &b"first"[..]), ("b.mp3", &b"second"[..])]);
}

#[test]
fn the_list_may_come_first_and_name_more_files() {
    let data = stored(&[("_meta", br#"{"0": "a", "7": "unused"}"#), ("0", b"x")]);
    let out = extract_files(data);
    assert!(out.failure.is_none());
    assert_eq!(contents(&out), vec![("a", &b"x"[..])]);
}

#[test]
fn compressed_files_are_unpacked() {
    let long = vec![b'z'; 10_000];
    let data = archive(
        CompressionMethod::Deflated,
        &[("0", long.as_slice()), ("_meta", br#"{"0": "zzz"}"#)],
    );
    assert!(data.len() < 5_000);
    let out = extract_files(data);
    assert!(out.failure.is_none());
    assert_eq!(contents(&out), vec![("zzz", long.as_slice())]);
}

#[test]
fn an_archive_with_the_list_alone_gives_no_files() {
    let out = extract_files(stored(&[("_meta", b"{}")]));
    assert!(out.failure.is_none());
    assert!(out.files.is_empty());
}

#[test]
fn data_that_is_no_archive_is_refused() {
    let out = extract_files(b"this is no archive at all, just text".to_vec());
    assert!(out.files.is_empty());
    assert!(matches!(out.failure, Some(AnkiError::Zip(_))));
    let out = extract_files(Vec::new());
    assert!(matches!(out.failure, Some(AnkiError::Zip(_))));
}

#[test]
fn an_archive_without_the_list_is_refused() {
    let out = extract_files(stored(&[("0", b"first")]));
    assert!(out.files.is_empty());
    assert!(matches!(out.failure, Some(AnkiError::Zip(_))));
}

#[test]
fn a_list_that_is_no_object_of_strings_is_refused() {
    for meta in [&b"not json"[..], &b"[1, 2]"[..], &br#"{"0": 1}"#[..], &b""[..]] {
        let out = extract_files(stored(&[("0", b"first"), ("_meta", meta)]));
        assert!(out.files.is_empty());
        assert!(matches!(out.failure, Some(AnkiError::Json(_))));
    }
}

#[test]
fn a_file_that_is_not_listed_stops_the_unpacking() {
    let data = stored(&[
        ("0", b"first"),
        ("1", b"second"),
        ("2", b"third"),
        ("_meta", br#"{"0": "a", "2": "c"}"#),
    ]);
    let out = extract_files(data);
    assert_eq!(contents(&out), vec![("a", &b"first"[..])]);
    match out.failure {
        Some(AnkiError::AnkiWebMiscError { info }) => assert_eq!(info, "malformed zip received"),
        other => panic!("unexpected outcome {:?}", other),
    }
}

#[test]
fn a_damaged_file_stops_the_unpacking() {
    let mut data = stored(&[
        ("0", b"first"),
        ("1", b"SECOND"),
        ("_meta", br#"{"0": "a", "1": "b"}"#),
    ]);
    let at = position(&data, b"SECOND");
    data[at] = b'X';
    let out = extract_files(data);
    assert_eq!(contents(&out), vec![("a", &b"first"[..])]);
    assert!(matches!(out.failure, Some(AnkiError::Io(_))));
}

#[test]
fn a_damaged_list_is_refused() {
    let mut data = stored(&[("0", b"first"), ("_meta", br#"{"0": "LISTED"}"#)]);
    let at = position(&data, b"LISTED");
    data[at] = b'X';
    let out = extract_files(data);
    assert!(out.files.is_empty());
    assert!(matches!(out.failure, Some(AnkiError::Json(_))));
}

#[test]
fn a_file_that_cannot_be_opened_stops_the_unpacking() {
    let mut data = stored(&[
        ("0", b"first"),
        ("1", b"second"),
        ("_meta", br#"{"0": "a", "1": "b"}"#),
    ]);
    // the compression method in the directory's header for the second file
    let first = position(&data, b"PK\x01\x02");
    let second = first + 4 + position(&data[first + 4..], b"PK\x01\x02");
    data[second + 10] = 77;
    let out = extract_files(data);
    assert_eq!(contents(&out), vec![("a", &b"first"[..])]);
    assert!(matches!(out.failure, Some(AnkiError::Zip(_))));
}

#[test]
fn the_last_of_two_lists_counts() {
    let data = stored(&[
        ("_meta", br#"{"0": "old"}"#),
        ("0", b"first"),
        ("_meta", br#"{"0": "new"}"#),
    ]);
    let out = extract_files(data);
    assert!(out.failure.is_none());
    assert_eq!(contents(&out), vec![("new", &b"first"[..])]);
}

#[test]
fn members_are_planned_by_name() {
    let names = vec![
        ("0".to_string(), "a".to_string()),
        ("_meta".to_string(), "never".to_string()),
    ];
    assert!(matches!(plan_member(&names, "_meta"), MemberPlan::Skip));
    assert!(matches!(plan_member(&names, "1"), MemberPlan::Malformed));
    match plan_member(&names, "0") {
        MemberPlan::Save { fname } => assert_eq!(fname, "a"),
        other => panic!("unexpected plan {:?}", other),
    }
}
