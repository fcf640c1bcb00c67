use media_sync::changes::ServerMediaRecord;
use media_sync::database::{MediaDatabaseContext, MediaEntry};
use media_sync::error::AnkiError;
use media_sync::protocol::{
    Endpoint, FinalizeResponse, RecordBatchResult, SyncBeginResponse, SyncBeginResult,
};
use media_sync::records::AddedFile;
use media_sync::session::{SyncAction, SyncEvent, SyncSession, SYNC_MAX_FILES};
use media_sync::upload::SYNC_MAX_BYTES;
use std::io::{Cursor, Read, Write};

fn step(session: SyncSession, event: SyncEvent) -> SyncSession {
    assert!(session.accepts(&event));
    session.advance(event).unwrap()
}

fn fail(session: SyncSession, event: SyncEvent) -> AnkiError {
    assert!(session.accepts(&event));
    session.advance(event).err().unwrap()
}

fn info(err: AnkiError) -> String {
    match err {
        AnkiError::AnkiWebMiscError { info } => info,
        other => panic!("unexpected error {:?}", other),
    }
}

fn began(sync_key: &str, usn: i32) -> SyncEvent {
    let data = Some(SyncBeginResponse { sync_key: sync_key.to_string(), usn });
    SyncEvent::Began { reply: SyncBeginResult { data, err: String::new() } }
}

fn records(records: Vec<ServerMediaRecord>) -> SyncEvent {
    SyncEvent::Records { answer: RecordBatchResult { data: Some(records), err: String::new() } }
}

fn record(fname: &str, usn: i32, sha1: &str) -> ServerMediaRecord {
    ServerMediaRecord { fname: fname.to_string(), usn, sha1: sha1.to_string() }
}

fn verdict(data: &str) -> SyncEvent {
    SyncEvent::Finalized {
        verdict: FinalizeResponse { data: Some(data.to_string()), err: String::new() },
    }
}

fn entry(fname: &str) -> MediaEntry {
    MediaEntry { fname: fname.to_string(), sha1: Some([1; 20]), mtime: 1, sync_required: true }
}

fn added(fname: &str) -> AddedFile {
    AddedFile { fname: fname.to_string(), sha1: [1; 20], mtime: 1 }
}

fn archive(files: &[&str]) -> Vec<u8> {
    let mut zip = zip::ZipWriter::new(Cursor::new(Vec::new()));
    let options = zip::write::FileOptions::default();
    let mut listed = Vec::new();
    for (i, fname) in files.iter().enumerate() {
        zip.start_file(format!("{}", i), options).unwrap();
        zip.write_all(fname.as_bytes()).unwrap();
        listed.push(format!("\"{}\":\"{}\"", i, fname));
    }
    zip.start_file("_meta", options).unwrap();
    zip.write_all(format!("{{{}}}", listed.join(",")).as_bytes()).unwrap();
    zip.finish().unwrap().into_inner()
}

fn beginning(client_usn: i32) -> SyncSession {
    let session = SyncSession::new("hkey".to_string());
    assert!(matches!(session.next_action(), SyncAction::RegisterChanges));
    let session = step(session, SyncEvent::Registered);
    assert!(matches!(session.next_action(), SyncAction::ReadLastUsn));
    let session = step(session, SyncEvent::LastUsn { usn: client_usn });
    match session.next_action() {
        SyncAction::Begin { hkey } => assert_eq!(hkey, "hkey"),
        _ => panic!("unexpected action"),
    }
    assert_eq!(session.next_action().endpoint(), Some(Endpoint::Begin));
    session
}

fn fetching(client_usn: i32) -> SyncSession {
    step(beginning(client_usn), began("sk", client_usn + 100))
}

fn assert_fetches(session: &SyncSession, from: i32) {
    match session.next_action() {
        SyncAction::FetchRecords { sync_key, last_usn } => {
            assert_eq!((sync_key.as_str(), last_usn), ("sk", from));
        }
        _ => panic!("unexpected action"),
    }
    assert_eq!(session.next_action().endpoint(), Some(Endpoint::MediaChanges));
}

fn assert_lists(session: &SyncSession, expected: usize) {
    match session.next_action() {
        SyncAction::ListPending { limit } => assert_eq!(limit, expected),
        _ => panic!("unexpected action"),
    }
    assert_eq!(session.next_action().endpoint(), None);
}

fn requested(session: &SyncSession) -> Vec<String> {
    match session.next_action() {
        SyncAction::FetchZip { sync_key, requested } => {
            assert_eq!(sync_key, "sk");
            requested
        }
        _ => panic!("unexpected action"),
    }
}

fn finalizing() -> SyncSession {
    let session = step(fetching(0), records(Vec::new()));
    let session = step(session, SyncEvent::Pending { files: Vec::new() });
    assert!(matches!(session.next_action(), SyncAction::CountFiles));
    let session = step(session, SyncEvent::Counted { count: 12 });
    match session.next_action() {
        SyncAction::Finalize { sync_key, local } => assert_eq!((sync_key.as_str(), local), ("sk", 12)),
        _ => panic!("unexpected action"),
    }
    assert_eq!(session.next_action().endpoint(), Some(Endpoint::MediaSanity));
    session
}

#[test]
fn nothing_to_do_skips_the_comparison() {
    let session = step(beginning(7), began("sk", 7));
    assert_lists(&session, 1);
    assert!(!session.is_complete());
    let session = step(session, SyncEvent::Pending { files: Vec::new() });
    assert!(session.is_complete());
    assert!(matches!(session.next_action(), SyncAction::Done));
    assert!(!session.accepts(&SyncEvent::Registered));
    assert!(!session.accepts(&SyncEvent::Counted { count: 0 }));
    assert!(!session.accepts(&verdict("OK")));
}

#[test]
fn fetched_changes_are_followed_by_the_comparison() {
    let session = fetching(3);
    assert_fetches(&session, 3);
    let session = step(session, records(Vec::new()));
    assert_lists(&session, 1);
    let session = step(session, SyncEvent::Pending { files: Vec::new() });
    assert!(matches!(session.next_action(), SyncAction::CountFiles));
    assert!(step(finalizing(), verdict("OK")).is_complete());
}

#[test]
fn a_batch_is_carried_out_then_recorded() {
    let mut ctx = MediaDatabaseContext::new();
    ctx.set_entry(MediaEntry { sync_required: false, ..entry("gone") });
    ctx.set_entry(MediaEntry { sha1: Some([0xab; 20]), ..entry("same") });
    let session = step(
        fetching(3),
        records(vec![
            record("new", 4, "ff"),
            record("gone", 5, ""),
            record("same", 9, &"ab".repeat(20)),
        ]),
    );
    match session.next_action() {
        SyncAction::LookUp { records } => assert_eq!(records.len(), 3),
        _ => panic!("unexpected action"),
    }
    let session = step(session, SyncEvent::Found { ctx });
    match session.next_action() {
        SyncAction::RemoveFiles { fnames } => assert_eq!(*fnames, vec!["gone"]),
        _ => panic!("unexpected action"),
    }
    let session = step(session, SyncEvent::FilesRemoved);
    assert_eq!(requested(&session), vec!["new"]);
    let session = step(session, SyncEvent::ZipFetched { data: archive(&["new"]) });
    match session.next_action() {
        SyncAction::SaveFiles { files } => {
            assert_eq!(files.len(), 1);
            assert_eq!(files[0].fname, "new");
            assert_eq!(files[0].data, b"new");
        }
        _ => panic!("unexpected action"),
    }
    let session = step(session, SyncEvent::FilesSaved { added: vec![added("new")] });
    match session.next_action() {
        SyncAction::RecordBatch { changes, added } => {
            assert_eq!(changes.to_delete, vec!["gone"]);
            assert_eq!(changes.to_remove_pending, vec!["same"]);
            assert_eq!(added.len(), 1);
            assert_eq!(added[0].fname, "new");
        }
        _ => panic!("unexpected action"),
    }
    let session = step(session, SyncEvent::Recorded);
    assert_fetches(&session, 9);
}

#[test]
fn a_batch_without_downloads_asks_for_no_archive() {
    let session = step(fetching(3), records(vec![record("unknown", 8, "")]));
    let session = step(session, SyncEvent::Found { ctx: MediaDatabaseContext::new() });
    match session.next_action() {
        SyncAction::RemoveFiles { fnames } => assert!(fnames.is_empty()),
        _ => panic!("unexpected action"),
    }
    let session = step(session, SyncEvent::FilesRemoved);
    assert!(matches!(session.next_action(), SyncAction::RecordBatch { .. }));
    assert_fetches(&step(session, SyncEvent::Recorded), 8);
}

#[test]
fn downloads_are_requested_a_few_at_a_time() {
    let names: Vec<String> = (0..30).map(|i| format!("f{}", i)).collect();
    let batch = names.iter().map(|name| record(name, 8, "ff")).collect();
    let session = step(fetching(3), records(batch));
    let session = step(session, SyncEvent::Found { ctx: MediaDatabaseContext::new() });
    let session = step(session, SyncEvent::FilesRemoved);
    assert_eq!(SYNC_MAX_FILES, 25);
    assert_eq!(requested(&session), names[..25]);
    assert_eq!(session.next_action().endpoint(), Some(Endpoint::DownloadFiles));
    // the server may send fewer files than were asked for
    let session = step(session, SyncEvent::ZipFetched { data: archive(&["f0", "f1"]) });
    let session = step(session, SyncEvent::FilesSaved { added: vec![added("f0"), added("f1")] });
    assert_eq!(requested(&session), names[2..27]);
    let sent: Vec<&str> = names[2..27].iter().map(|name| name.as_str()).collect();
    let session = step(session, SyncEvent::ZipFetched { data: archive(&sent) });
    let saved = sent.iter().map(|name| added(name)).collect();
    let session = step(session, SyncEvent::FilesSaved { added: saved });
    assert_eq!(requested(&session), names[27..]);
    let session = step(session, SyncEvent::ZipFetched { data: archive(&["f27", "f28", "f29"]) });
    let saved = vec![added("f27"), added("f28"), added("f29")];
    let session = step(session, SyncEvent::FilesSaved { added: saved });
    match session.next_action() {
        SyncAction::RecordBatch { added, .. } => {
            let recorded: Vec<String> = added.iter().map(|file| file.fname.clone()).collect();
            assert_eq!(recorded, names);
        }
        _ => panic!("unexpected action"),
    }
}

#[test]
fn an_archive_without_files_is_asked_for_again() {
    let session = step(fetching(3), records(vec![record("new", 4, "ff")]));
    let session = step(session, SyncEvent::Found { ctx: MediaDatabaseContext::new() });
    let session = step(session, SyncEvent::FilesRemoved);
    let session = step(session, SyncEvent::ZipFetched { data: archive(&[]) });
    let session = step(session, SyncEvent::FilesSaved { added: Vec::new() });
    assert_eq!(requested(&session), vec!["new"]);
}

#[test]
fn more_files_than_were_asked_for_are_not_accepted() {
    let session = step(fetching(3), records(vec![record("new", 4, "ff")]));
    let session = step(session, SyncEvent::Found { ctx: MediaDatabaseContext::new() });
    let session = step(session, SyncEvent::FilesRemoved);
    let session = step(session, SyncEvent::ZipFetched { data: archive(&["new", "other"]) });
    let two = SyncEvent::FilesSaved { added: vec![added("new"), added("other")] };
    assert!(!session.accepts(&two));
    // one file saved for two that were unpacked is no answer either
    assert!(!session.accepts(&SyncEvent::FilesSaved { added: vec![added("new")] }));
}

#[test]
fn a_bad_archive_ends_the_sync_after_its_good_files_were_saved() {
    let session = step(fetching(3), records(vec![record("new", 4, "ff")]));
    let session = step(session, SyncEvent::Found { ctx: MediaDatabaseContext::new() });
    let session = step(session, SyncEvent::FilesRemoved);
    let session = step(session, SyncEvent::ZipFetched { data: b"no archive".to_vec() });
    match session.next_action() {
        SyncAction::SaveFiles { files } => assert!(files.is_empty()),
        _ => panic!("unexpected action"),
    }
    let err = fail(session, SyncEvent::FilesSaved { added: Vec::new() });
    assert!(matches!(err, AnkiError::Zip(_)));
}

fn sending(files: Vec<MediaEntry>) -> SyncSession {
    let session = step(beginning(7), began("sk", 7));
    let session = step(session, SyncEvent::Pending { files: vec![entry("a")] });
    assert_lists(&session, 25);
    step(session, SyncEvent::Pending { files })
}

fn pack(session: SyncSession, expected: &str, bytes: Option<Vec<u8>>) -> SyncSession {
    match session.next_action() {
        SyncAction::CheckName { fname } => assert_eq!(fname, expected),
        _ => panic!("unexpected action"),
    }
    let session = step(session, SyncEvent::NameChecked { changed: false });
    match session.next_action() {
        SyncAction::ReadFile { fname } => assert_eq!(fname, expected),
        _ => panic!("unexpected action"),
    }
    step(session, SyncEvent::FileRead { bytes })
}

fn sent_bytes(session: &SyncSession) -> Vec<u8> {
    assert_eq!(session.next_action().endpoint(), Some(Endpoint::UploadChanges));
    match session.next_action() {
        SyncAction::SendZip { sync_key, packed } => {
            assert_eq!(sync_key, "sk");
            packed.bytes().clone()
        }
        _ => panic!("unexpected action"),
    }
}

fn read_member(bytes: &[u8], name: &str) -> Vec<u8> {
    let mut archive = zip::ZipArchive::new(Cursor::new(bytes.to_vec())).unwrap();
    let mut out = Vec::new();
    archive.by_name(name).unwrap().read_to_end(&mut out).unwrap();
    out
}

#[test]
fn pending_files_are_sent_until_none_is_left() {
    let session = sending(vec![entry("a"), entry("b")]);
    let session = pack(session, "a", Some(b"bytes".to_vec()));
    let session = pack(session, "b", None);
    let bytes = sent_bytes(&session);
    assert_eq!(read_member(&bytes, "0"), b"bytes");
    assert_eq!(read_member(&bytes, "_meta"), br#"[["a","0"],["b",null]]"#);
    let session = step(session, SyncEvent::Sent);
    match session.next_action() {
        SyncAction::MarkClean { fnames } => assert_eq!(*fnames, vec!["a", "b"]),
        _ => panic!("unexpected action"),
    }
    let session = step(session, SyncEvent::Recorded);
    assert_lists(&session, 25);
    let session = step(session, SyncEvent::Pending { files: Vec::new() });
    assert!(matches!(session.next_action(), SyncAction::CountFiles));
}

#[test]
fn files_beyond_the_size_limit_are_not_read() {
    let session = sending(vec![entry("a"), entry("b"), entry("c")]);
    let session = pack(session, "a", Some(vec![1; SYNC_MAX_BYTES]));
    let session = pack(session, "b", Some(vec![2]));
    let bytes = sent_bytes(&session);
    assert_eq!(read_member(&bytes, "_meta"), br#"[["a","0"],["b","1"]]"#);
    let session = step(session, SyncEvent::Sent);
    match session.next_action() {
        SyncAction::MarkClean { fnames } => assert_eq!(*fnames, vec!["a", "b", "c"]),
        _ => panic!("unexpected action"),
    }
}

#[test]
fn a_file_name_out_of_normal_form_ends_the_sync() {
    let session = sending(vec![entry("a")]);
    assert_eq!(
        info(fail(session, SyncEvent::NameChecked { changed: true })),
        "Invalid filename found. Please use the Check Media function."
    );
}

#[test]
fn an_empty_file_ends_the_sync() {
    let session = sending(vec![entry("a"), entry("b")]);
    let session = pack(session, "a", Some(b"bytes".to_vec()));
    let session = step(session, SyncEvent::NameChecked { changed: false });
    let err = fail(session, SyncEvent::FileRead { bytes: Some(Vec::new()) });
    assert_eq!(info(err), "0 byte file found");
}

#[test]
fn a_refused_start_ends_the_sync() {
    let reply = SyncBeginResult { data: None, err: "closed".to_string() };
    assert_eq!(info(fail(beginning(1), SyncEvent::Began { reply })), "closed");
}

#[test]
fn refused_records_end_the_sync() {
    let answer = RecordBatchResult { data: None, err: "gone".to_string() };
    assert_eq!(info(fail(fetching(1), SyncEvent::Records { answer })), "gone");
}

#[test]
fn a_failed_comparison_ends_the_sync() {
    assert_eq!(info(fail(finalizing(), verdict("different"))), "resync required ");
    let verdict = FinalizeResponse { data: None, err: "oops".to_string() };
    let err = fail(finalizing(), SyncEvent::Finalized { verdict });
    assert_eq!(info(err), "finalize failed: oops");
}

#[test]
fn events_out_of_turn_are_not_accepted() {
    let session = SyncSession::new("hkey".to_string());
    assert!(!session.accepts(&SyncEvent::Sent));
    assert!(!session.accepts(&began("sk", 1)));
    let session = fetching(1);
    assert!(!session.accepts(&SyncEvent::Recorded));
    assert!(!session.accepts(&began("other", 1)));
}

#[test]
fn packing_looks_at_names_and_bytes_alone() {
    let deleted = MediaEntry { sha1: None, mtime: 99, ..entry("a") };
    let first = pack(sending(vec![entry("a")]), "a", Some(b"bytes".to_vec()));
    let second = pack(sending(vec![deleted]), "a", Some(b"bytes".to_vec()));
    for name in ["0", "_meta"] {
        assert_eq!(
            read_member(&sent_bytes(&first), name),
            read_member(&sent_bytes(&second), name)
        );
    }
}
