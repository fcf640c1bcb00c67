//! What the client and the server say to each other.

use crate::changes::{RecordView, ServerMediaRecord};
use crate::error::{AnkiError, ErrorView};
use crate::text::{joined, same_text};
use vstd::prelude::*;

verus! {

/// Where the server is.
pub const SYNC_URL: &'static str = "https://sync.ankiweb.net/msync/";

/// How the client introduces itself.
pub const CLIENT_VERSION: &'static str = "ankidesktop,2.1.19,mac";

/// The HTTP status of a request that the server refuses to the client.
pub const FORBIDDEN: u16 = 403;

/// What the client asks of the server.
#[derive(Debug, Clone, Copy, PartialEq, Eq, Structural)]
pub enum Endpoint {
    /// Start a sync.
    Begin,
    /// List the files that changed on the server.
    MediaChanges,
    /// Send an archive of files.
    DownloadFiles,
    /// Take an archive of files.
    UploadChanges,
    /// Compare the number of files on both sides.
    MediaSanity,
}

/// The last part of an endpoint's address.
pub open spec fn endpoint_path(endpoint: Endpoint) -> Seq<char> {
    match endpoint {
        Endpoint::Begin => "/begin"@,
        Endpoint::MediaChanges => "/mediaChanges"@,
        Endpoint::DownloadFiles => "/downloadFiles"@,
        Endpoint::UploadChanges => "/uploadChanges"@,
        Endpoint::MediaSanity => "/mediaSanity"@,
    }
}

/// The address of an endpoint.
pub fn endpoint_url(endpoint: Endpoint) -> (url: String)
    ensures
        url@ == SYNC_URL@ + endpoint_path(endpoint),
{
    let path = match endpoint {
        Endpoint::Begin => "/begin",
        Endpoint::MediaChanges => "/mediaChanges",
        Endpoint::DownloadFiles => "/downloadFiles",
        Endpoint::UploadChanges => "/uploadChanges",
        Endpoint::MediaSanity => "/mediaSanity",
    };
    joined(SYNC_URL, path)
}

/// The error that stands for a request that failed with this HTTP status, where
/// it is not the request's own. `status` is `None` where the request failed
/// without an answer.
pub fn rewrite_forbidden(status: Option<u16>) -> (err: Option<AnkiError>)
    ensures
        match err {
            Some(err) => status == Some(FORBIDDEN) && err@ is AuthenticationFailed,
            None => status != Some(FORBIDDEN),
        },
        err is Some <==> status == Some(403u16),
{
    match status {
        Some(code) if code == FORBIDDEN => Some(AnkiError::AnkiWebAuthenticationFailed),
        _ => None,
    }
}

/// The server's answer to the start of a sync.
#[derive(Debug)]
pub struct SyncBeginResult {
    pub data: Option<SyncBeginResponse>,
    pub err: String,
}

/// The key for the rest of the sync, and the number of the server's last change.
#[derive(Debug)]
pub struct SyncBeginResponse {
    pub sync_key: String,
    pub usn: i32,
}

/// What contracts say of a [`SyncBeginResult`].
#[verifier::ext_equal]
pub struct BeginView {
    pub data: Option<(Seq<char>, i32)>,
    pub err: Seq<char>,
}

impl View for SyncBeginResult {
    type V = BeginView;

    open spec fn view(&self) -> BeginView {
        BeginView {
            data: match self.data {
                Some(response) => Some((response.sync_key@, response.usn)),
                None => None,
            },
            err: self.err@,
        }
    }
}

/// What a start of a sync gives: the key and the server's number, or the server's
/// words for what went wrong.
pub open spec fn begun(reply: BeginView) -> Result<(Seq<char>, i32), ErrorView> {
    match reply.data {
        Some(response) => Ok(response),
        None => Err(ErrorView::Misc { info: reply.err }),
    }
}

/// Reads the server's answer to the start of a sync.
pub fn read_begin_reply(reply: SyncBeginResult) -> (read: Result<(String, i32), AnkiError>)
    ensures
        match read {
            Ok((sync_key, usn)) => begun(reply@) == Ok::<_, ErrorView>((sync_key@, usn)),
            Err(err) => begun(reply@) == Err::<(Seq<char>, i32), _>(err@),
        },
        match reply.data {
            Some(data) => read is Ok && read->Ok_0.0@ == data.sync_key@ && read->Ok_0.1 == data.usn,
            None => read is Err && read->Err_0@ == (ErrorView::Misc { info: reply.err@ }),
        },
{
    match reply.data {
        Some(response) => Ok((response.sync_key, response.usn)),
        None => Err(AnkiError::AnkiWebMiscError { info: reply.err }),
    }
}

/// The server's answer to a request for its changes.
#[derive(Debug)]
pub struct RecordBatchResult {
    pub data: Option<Vec<ServerMediaRecord>>,
    pub err: String,
}

/// What contracts say of a [`RecordBatchResult`].
#[verifier::ext_equal]
pub struct BatchView {
    pub data: Option<Seq<RecordView>>,
    pub err: Seq<char>,
}

impl View for RecordBatchResult {
    type V = BatchView;

    open spec fn view(&self) -> BatchView {
        BatchView { data: self.data.deep_view(), err: self.err@ }
    }
}

/// What a request for changes gives: the records, or the server's words for what
/// went wrong.
pub open spec fn batch_of(reply: BatchView) -> Result<Seq<RecordView>, ErrorView> {
    match reply.data {
        Some(records) => Ok(records),
        None => Err(ErrorView::Misc { info: reply.err }),
    }
}

/// Reads the server's answer to a request for its changes.
pub fn read_record_batch_reply(reply: RecordBatchResult) -> (read: Result<
    Vec<ServerMediaRecord>,
    AnkiError,
>)
    ensures
        match read {
            Ok(records) => batch_of(reply@) == Ok::<_, ErrorView>(records.deep_view()),
            Err(err) => batch_of(reply@) == Err::<Seq<RecordView>, _>(err@),
        },
        match reply.data {
            Some(records) => read is Ok && read->Ok_0.deep_view() == records.deep_view(),
            None => read is Err && read->Err_0@ == (ErrorView::Misc { info: reply.err@ }),
        },
{
    match reply.data {
        Some(records) => Ok(records),
        None => Err(AnkiError::AnkiWebMiscError { info: reply.err }),
    }
}

/// The server's answer to the comparison at the end of a sync.
#[derive(Debug)]
pub struct FinalizeResponse {
    pub data: Option<String>,
    pub err: String,
}

/// What contracts say of a [`FinalizeResponse`].
#[verifier::ext_equal]
pub struct FinalizeView {
    pub data: Option<Seq<char>>,
    pub err: Seq<char>,
}

impl View for FinalizeResponse {
    type V = FinalizeView;

    open spec fn view(&self) -> FinalizeView {
        FinalizeView { data: self.data.deep_view(), err: self.err@ }
    }
}

/// What the comparison gives: nothing more to do where the server says `OK`, and
/// an error else.
pub open spec fn finalized(reply: FinalizeView) -> Result<(), ErrorView> {
    match reply.data {
        Some(data) => if data == "OK"@ {
            Ok(())
        } else {
            Err(ErrorView::Misc { info: "resync required "@ })
        },
        None => Err(ErrorView::Misc { info: "finalize failed: "@ + reply.err }),
    }
}

/// Reads the server's answer to the comparison at the end of a sync.
pub fn read_finalize_reply(reply: FinalizeResponse) -> (read: Result<(), AnkiError>)
    ensures
        match read {
            Ok(()) => finalized(reply@) is Ok,
            Err(err) => finalized(reply@) == Err::<(), _>(err@),
        },
        match reply.data {
            Some(data) => {
                &&& read is Ok <==> data@ == "OK"@
                &&& read is Err ==> read->Err_0@ == (ErrorView::Misc { info: "resync required "@ })
            },
            None => read is Err && read->Err_0@ == (ErrorView::Misc {
                info: "finalize failed: "@ + reply.err@,
            }),
        },
{
    match reply.data {
        Some(data) => {
            if same_text(data.as_str(), "OK") {
                Ok(())
            } else {
                Err(AnkiError::AnkiWebMiscError { info: "resync required ".to_owned() })
            }
        },
        None => Err(
            AnkiError::AnkiWebMiscError { info: joined("finalize failed: ", reply.err.as_str()) },
        ),
    }
}

/// Each endpoint has its own last part of the address.
pub proof fn lemma_endpoint_paths()
    ensures
        endpoint_path(Endpoint::Begin) == "/begin"@,
        endpoint_path(Endpoint::MediaChanges) == "/mediaChanges"@,
        endpoint_path(Endpoint::DownloadFiles) == "/downloadFiles"@,
        endpoint_path(Endpoint::UploadChanges) == "/uploadChanges"@,
        endpoint_path(Endpoint::MediaSanity) == "/mediaSanity"@,
{
}

/// A start of a sync succeeds just where the reply has data, with that data; else it
/// fails with the server's words.
pub proof fn lemma_begun(reply: BeginView)
    ensures
        reply.data is Some ==> begun(reply) == Ok::<_, ErrorView>(reply.data->0),
        reply.data is None ==> begun(reply) == Err::<(Seq<char>, i32), _>(
            ErrorView::Misc { info: reply.err },
        ),
{
}

/// A request for changes succeeds just where the reply has records, with those
/// records; else it fails with the server's words.
pub proof fn lemma_batch_of(reply: BatchView)
    ensures
        reply.data is Some ==> batch_of(reply) == Ok::<_, ErrorView>(reply.data->0),
        reply.data is None ==> batch_of(reply) == Err::<Seq<RecordView>, _>(
            ErrorView::Misc { info: reply.err },
        ),
{
}

/// The comparison succeeds just where the server says `OK`.
pub proof fn lemma_finalized(reply: FinalizeView)
    ensures
        finalized(reply) is Ok <==> reply.data == Some("OK"@),
        reply.data is Some && finalized(reply) is Err ==> finalized(reply)->Err_0 == (
        ErrorView::Misc { info: "resync required "@ }),
        reply.data is None ==> finalized(reply) == Err::<(), _>(
            ErrorView::Misc { info: "finalize failed: "@ + reply.err },
        ),
{
}

/// The replies say all that they hold.
pub proof fn lemma_replies_say(
    begin: SyncBeginResult,
    batch: RecordBatchResult,
    finalize: FinalizeResponse,
)
    ensures
        begin@.err == begin.err@,
        begin@.data is Some <==> begin.data is Some,
        begin.data is Some ==> begin@.data->0 == (begin.data->0.sync_key@, begin.data->0.usn),
        batch@.err == batch.err@,
        batch@.data is Some <==> batch.data is Some,
        batch.data is Some ==> batch@.data->0 == batch.data->0.deep_view(),
        finalize@.err == finalize.err@,
        finalize@.data is Some <==> finalize.data is Some,
        finalize.data is Some ==> finalize@.data->0 == finalize.data->0@,
{
}

} // verus!
