use media_sync::changes::ServerMediaRecord;
use media_sync::error::AnkiError;
use media_sync::protocol::{
    endpoint_url, read_begin_reply, read_finalize_reply, read_record_batch_reply,
    rewrite_forbidden, Endpoint, FinalizeResponse, RecordBatchResult, SyncBeginResponse,
    SyncBeginResult, CLIENT_VERSION,
};

fn info(err: AnkiError) -> String {
    match err {
        AnkiError::AnkiWebMiscError { info } => info,
        other => panic!("unexpected error {:?}", other),
    }
}

#[test]
fn endpoints_have_their_addresses() {
    assert_eq!(endpoint_url(Endpoint::Begin), "https://sync.ankiweb.net/msync//begin");
    assert_eq!(
        endpoint_url(Endpoint::MediaChanges),
        "https://sync.ankiweb.net/msync//mediaChanges"
    );
    assert_eq!(
        endpoint_url(Endpoint::DownloadFiles),
        "https://sync.ankiweb.net/msync//downloadFiles"
    );
    assert_eq!(
        endpoint_url(Endpoint::UploadChanges),
        "https://sync.ankiweb.net/msync//uploadChanges"
    );
    assert_eq!(
        endpoint_url(Endpoint::MediaSanity),
        "https://sync.ankiweb.net/msync//mediaSanity"
    );
    assert_eq!(CLIENT_VERSION, "ankidesktop,2.1.19,mac");
}

#[test]
fn only_a_forbidden_request_is_a_failed_login() {
    assert!(matches!(
        rewrite_forbidden(Some(403)),
        Some(AnkiError::AnkiWebAuthenticationFailed)
    ));
    assert!(rewrite_forbidden(Some(401)).is_none());
    assert!(rewrite_forbidden(Some(500)).is_none());
    assert!(rewrite_forbidden(None).is_none());
}

#[test]
fn begin_reply_gives_key_and_number() {
    let reply = SyncBeginResult {
        data: Some(SyncBeginResponse { sync_key: "abc".to_string(), usn: 17 }),
        err: String::new(),
    };
    assert_eq!(read_begin_reply(reply).unwrap(), ("abc".to_string(), 17));
}

#[test]
fn begin_reply_without_data_gives_the_words() {
    let reply = SyncBeginResult { data: None, err: "try later".to_string() };
    assert_eq!(info(read_begin_reply(reply).unwrap_err()), "try later");
}

#[test]
fn record_batch_reply_gives_records() {
    let reply = RecordBatchResult {
        data: Some(vec![ServerMediaRecord {
            fname: "a.jpg".to_string(),
            usn: 3,
            sha1: "00".to_string(),
        }]),
        err: String::new(),
    };
    let records = read_record_batch_reply(reply).unwrap();
    assert_eq!(records.len(), 1);
    assert_eq!(records[0].fname, "a.jpg");
    assert_eq!(records[0].usn, 3);
    assert_eq!(records[0].sha1, "00");
}

#[test]
fn record_batch_reply_without_data_gives_the_words() {
    let reply = RecordBatchResult { data: None, err: "no batch".to_string() };
    assert_eq!(info(read_record_batch_reply(reply).unwrap_err()), "no batch");
}

#[test]
fn finalize_reply_is_good_only_where_it_says_ok() {
    let ok = FinalizeResponse { data: Some("OK".to_string()), err: String::new() };
    assert!(read_finalize_reply(ok).is_ok());
    let differs = FinalizeResponse { data: Some("FAILED".to_string()), err: String::new() };
    assert_eq!(info(read_finalize_reply(differs).unwrap_err()), "resync required ");
    let lower = FinalizeResponse { data: Some("ok".to_string()), err: String::new() };
    assert_eq!(info(read_finalize_reply(lower).unwrap_err()), "resync required ");
    let nothing = FinalizeResponse { data: None, err: "server busy".to_string() };
    assert_eq!(info(read_finalize_reply(nothing).unwrap_err()), "finalize failed: server busy");
}
