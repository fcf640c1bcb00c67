use media_sync::error::AnkiError;
use media_sync::upload::{check_filename, UploadZip, SYNC_MAX_BYTES};
use std::io::{Cursor, Read};

fn read_member(bytes: &[u8], name: &str) -> Vec<u8> {
    let mut archive = zip::ZipArchive::new(Cursor::new(bytes.to_vec())).unwrap();
    let mut out = Vec::new();
    archive.by_name(name).unwrap().read_to_end(&mut out).unwrap();
    out
}

fn names(bytes: &[u8]) -> Vec<String> {
    let mut archive = zip::ZipArchive::new(Cursor::new(bytes.to_vec())).unwrap();
    (0..archive.len()).map(|i| archive.by_index(i).unwrap().name().to_string()).collect()
}

fn finished(upload: UploadZip) -> Vec<u8> {
    upload.finish().unwrap().bytes().clone()
}

fn info(err: AnkiError) -> String {
    match err {
        AnkiError::AnkiWebMiscError { info } => info,
        other => panic!("unexpected error {:?}", other),
    }
}

#[test]
fn an_upload_reads_back() {
    let upload = UploadZip::new();
    assert_eq!(upload.next_index(3), Some(0));
    let upload = upload.add_file("a.jpg", Some(b"first".to_vec())).unwrap();
    assert_eq!(upload.next_index(3), Some(1));
    let upload = upload.add_file("gone \"b\".mp3", None).unwrap();
    assert_eq!(upload.next_index(3), Some(2));
    let upload = upload.add_file("c", Some(b"third".to_vec())).unwrap();
    assert_eq!(upload.next_index(3), None);
    let bytes = finished(upload);
    assert_eq!(names(&bytes), vec!["0", "2", "_meta"]);
    assert_eq!(read_member(&bytes, "0"), b"first");
    assert_eq!(read_member(&bytes, "2"), b"third");
    assert_eq!(
        String::from_utf8(read_member(&bytes, "_meta")).unwrap(),
        r#"[["a.jpg","0"],["gone \"b\".mp3",null],["c","2"]]"#
    );
}

#[test]
fn files_are_stored_without_compression() {
    let upload = UploadZip::new().add_file("z", Some(vec![b'z'; 5_000])).unwrap();
    let bytes = finished(upload);
    assert!(bytes.len() > 5_000);
    let mut archive = zip::ZipArchive::new(Cursor::new(bytes)).unwrap();
    assert_eq!(archive.by_name("0").unwrap().compression(), zip::CompressionMethod::Stored);
    assert_eq!(archive.by_name("_meta").unwrap().compression(), zip::CompressionMethod::Stored);
}

#[test]
fn an_empty_upload_has_the_list_alone() {
    let upload = UploadZip::new();
    assert_eq!(upload.next_index(0), None);
    let bytes = finished(upload);
    assert_eq!(names(&bytes), vec!["_meta"]);
    assert_eq!(read_member(&bytes, "_meta"), b"[]");
}

#[test]
fn the_text_of_the_list_can_be_given() {
    let upload = UploadZip::new().add_file("a", Some(b"x".to_vec())).unwrap();
    let bytes = upload.finish_with_meta("anything").unwrap();
    assert_eq!(names(&bytes), vec!["0", "_meta"]);
    assert_eq!(read_member(&bytes, "_meta"), b"anything");
}

#[test]
fn a_file_without_bytes_is_refused() {
    let err = UploadZip::new().add_file("a", Some(Vec::new())).err().unwrap();
    assert_eq!(info(err), "0 byte file found");
}

#[test]
fn an_upload_stops_once_it_is_past_the_limit() {
    assert_eq!(SYNC_MAX_BYTES, 2_621_440);
    let upload = UploadZip::new().add_file("a", Some(vec![1; SYNC_MAX_BYTES])).unwrap();
    // at the limit one more file is taken
    assert_eq!(upload.next_index(9), Some(1));
    let upload = upload.add_file("b", Some(vec![2])).unwrap();
    assert_eq!(upload.next_index(9), None);
    let bytes = finished(upload);
    assert_eq!(names(&bytes), vec!["0", "1", "_meta"]);
    assert_eq!(read_member(&bytes, "0").len(), SYNC_MAX_BYTES);
    assert_eq!(read_member(&bytes, "1"), vec![2]);
}

#[test]
fn a_single_file_may_be_larger_than_the_limit() {
    let upload = UploadZip::new().add_file("a", Some(vec![1; SYNC_MAX_BYTES + 1])).unwrap();
    assert_eq!(upload.next_index(9), None);
    assert_eq!(names(&finished(upload)), vec!["0", "_meta"]);
}

#[test]
fn deletions_take_no_room() {
    let mut upload = UploadZip::new();
    for i in 0..20 {
        assert_eq!(upload.next_index(20), Some(i));
        upload = upload.add_file("gone", None).unwrap();
    }
    assert_eq!(upload.next_index(20), None);
    assert_eq!(names(&finished(upload)), vec!["_meta"]);
}

#[test]
fn names_in_the_archive_go_past_one_digit() {
    let mut upload = UploadZip::new();
    for i in 0..12u8 {
        upload = upload.add_file("x", Some(vec![i])).unwrap();
    }
    let bytes = finished(upload);
    assert_eq!(names(&bytes)[10..], ["10", "11", "_meta"]);
    assert_eq!(read_member(&bytes, "11"), vec![11]);
}

#[test]
fn a_name_that_normalizing_changed_is_refused() {
    assert!(check_filename(false).is_ok());
    let err = check_filename(true).unwrap_err();
    assert_eq!(info(err), "Invalid filename found. Please use the Check Media function.");
}

#[test]
fn the_list_escapes_what_has_to_be_escaped() {
    let fname = "\"\\/\u{0}\u{8}\t\n\u{b}\u{c}\r\u{1f} \u{7f}\u{e4}\u{1f600}";
    let upload = UploadZip::new().add_file(fname, None).unwrap();
    let meta = String::from_utf8(read_member(&finished(upload), "_meta")).unwrap();
    let expected = [
        r#"[[""#,
        r#"\"\\/\u0000\b\t\n\u000b\f\r\u001f "#,
        "\u{7f}\u{e4}\u{1f600}",
        r#"",null]]"#,
    ];
    assert_eq!(meta, expected.concat());
}
