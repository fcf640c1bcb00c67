//! The course of a sync, step by step.
//!
//! A [`SyncSession`] says what has to be done next, and moves on when it is told
//! what came of it. Whoever runs it talks to the server, the media folder and the
//! database; every decision in between is made here.

use crate::archive::MAX_FILE_BYTES;
use crate::changes::{
    changes_for, determine_required_changes, ChangesView, RecordView, RequiredChanges,
    ServerMediaRecord,
};
use crate::database::{EntryView, MediaDatabaseContext, MediaEntry};
use crate::error::{AnkiError, ErrorView};
use crate::extract::{
    extract_files, extraction, ExtractedFile, ExtractedFileView, Extraction, ExtractionView,
};
use crate::protocol::{
    batch_of, begun, finalized, read_begin_reply, read_finalize_reply, read_record_batch_reply,
    BatchView, BeginView, Endpoint, FinalizeResponse, FinalizeView, RecordBatchResult,
    SyncBeginResult,
};
use crate::records::{AddedFile, AddedFileView, Entries};
use crate::upload::{
    bytes_of, check_filename, empty_file, invalid_filename, list_fits, total_bytes,
    PackedUpload, UploadFile, UploadZip, SYNC_MAX_BYTES,
};
use vstd::prelude::*;

verus! {

/// The largest number of files in one request.
pub const SYNC_MAX_FILES: usize = 25;

/// A batch of the server's changes that is being carried out.
#[derive(Debug)]
pub struct Batch {
    /// What has to be done.
    pub changes: RequiredChanges,
    /// The files that were added so far.
    pub added: Vec<AddedFile>,
    /// The number of the batch's last change.
    pub last_usn: i32,
}

/// What contracts say of a [`Batch`].
#[verifier::ext_equal]
pub struct ProgressView {
    pub changes: ChangesView,
    pub added: Seq<AddedFileView>,
    pub last_usn: i32,
}

impl View for Batch {
    type V = ProgressView;

    open spec fn view(&self) -> ProgressView {
        ProgressView {
            changes: self.changes@,
            added: self.added.deep_view(),
            last_usn: self.last_usn,
        }
    }
}

/// How far a sync has come.
pub enum SyncStage {
    /// The media database has to be brought up to date with the folder.
    Registering,
    /// The number of the last change that was synced is needed.
    ReadingUsn,
    /// The server has to be told that a sync begins.
    Beginning { client_usn: i32 },
    /// The server's changes after `last_usn` are needed.
    FetchingRecords { last_usn: i32 },
    /// The entries of the files that changed are needed.
    LookingUp { records: Vec<ServerMediaRecord> },
    /// The files that the server deleted have to be removed.
    RemovingFiles { batch: Batch },
    /// Files have to be downloaded: those in `waiting`.
    FetchingZip { batch: Batch, waiting: Vec<String> },
    /// What was downloaded has to be saved.
    SavingFiles { batch: Batch, waiting: Vec<String>, extraction: Extraction },
    /// What was done has to be recorded.
    Recording { batch: Batch },
    /// It has to be found out whether anything is to be uploaded. `acted` tells
    /// whether changes were fetched.
    CheckingPending { acted: bool },
    /// The next files to upload are needed.
    ListingPending,
    /// The name of the next file to upload has to be checked.
    CheckingName { pending: Vec<MediaEntry>, upload: UploadZip },
    /// The next file to upload has to be read.
    ReadingFile { pending: Vec<MediaEntry>, upload: UploadZip },
    /// The packed files have to be sent.
    Sending { fnames: Vec<String>, packed: PackedUpload },
    /// It has to be recorded that the files were sent.
    MarkingClean { fnames: Vec<String> },
    /// The number of files is needed.
    Counting,
    /// The server has to compare the number of files with its own.
    Finalizing { local: u32 },
    /// Nothing is left to do.
    Complete,
}

/// What contracts say of a [`SyncStage`].
#[verifier::ext_equal]
pub enum StageView {
    Registering,
    ReadingUsn,
    Beginning { client_usn: i32 },
    FetchingRecords { last_usn: i32 },
    LookingUp { records: Seq<RecordView> },
    RemovingFiles { batch: ProgressView },
    FetchingZip { batch: ProgressView, waiting: Seq<Seq<char>> },
    SavingFiles { batch: ProgressView, waiting: Seq<Seq<char>>, extraction: ExtractionView },
    Recording { batch: ProgressView },
    CheckingPending { acted: bool },
    ListingPending,
    CheckingName { pending: Seq<EntryView>, upload: Seq<UploadFile> },
    ReadingFile { pending: Seq<EntryView>, upload: Seq<UploadFile> },
    Sending { fnames: Seq<Seq<char>>, packed: Seq<UploadFile> },
    MarkingClean { fnames: Seq<Seq<char>> },
    Counting,
    Finalizing { local: u32 },
    Complete,
}

impl View for SyncStage {
    type V = StageView;

    open spec fn view(&self) -> StageView {
        match *self {
            SyncStage::Registering => StageView::Registering,
            SyncStage::ReadingUsn => StageView::ReadingUsn,
            SyncStage::Beginning { client_usn } => StageView::Beginning { client_usn },
            SyncStage::FetchingRecords { last_usn } => StageView::FetchingRecords { last_usn },
            SyncStage::LookingUp { records } => StageView::LookingUp {
                records: records.deep_view(),
            },
            SyncStage::RemovingFiles { batch } => StageView::RemovingFiles { batch: batch@ },
            SyncStage::FetchingZip { batch, waiting } => StageView::FetchingZip {
                batch: batch@,
                waiting: waiting.deep_view(),
            },
            SyncStage::SavingFiles { batch, waiting, extraction } => StageView::SavingFiles {
                batch: batch@,
                waiting: waiting.deep_view(),
                extraction: extraction@,
            },
            SyncStage::Recording { batch } => StageView::Recording { batch: batch@ },
            SyncStage::CheckingPending { acted } => StageView::CheckingPending { acted },
            SyncStage::ListingPending => StageView::ListingPending,
            SyncStage::CheckingName { pending, upload } => StageView::CheckingName {
                pending: pending.deep_view(),
                upload: upload@,
            },
            SyncStage::ReadingFile { pending, upload } => StageView::ReadingFile {
                pending: pending.deep_view(),
                upload: upload@,
            },
            SyncStage::Sending { fnames, packed } => StageView::Sending {
                fnames: fnames.deep_view(),
                packed: packed@,
            },
            SyncStage::MarkingClean { fnames } => StageView::MarkingClean {
                fnames: fnames.deep_view(),
            },
            SyncStage::Counting => StageView::Counting,
            SyncStage::Finalizing { local } => StageView::Finalizing { local },
            SyncStage::Complete => StageView::Complete,
        }
    }
}

/// A sync under way.
pub struct SyncSession {
    hkey: String,
    sync_key: String,
    stage: SyncStage,
}

/// What contracts say of a [`SyncSession`]: the key that the user has for the
/// server, the key that the server gave for this sync, and the stage.
#[verifier::ext_equal]
pub struct SessionView {
    pub hkey: Seq<char>,
    pub sync_key: Seq<char>,
    pub stage: StageView,
}

impl View for SyncSession {
    type V = SessionView;

    closed spec fn view(&self) -> SessionView {
        SessionView { hkey: self.hkey@, sync_key: self.sync_key@, stage: self.stage@ }
    }
}

/// What came of an action.
#[derive(Debug)]
pub enum SyncEvent {
    /// The media database is up to date.
    Registered,
    /// The number of the last change that was synced.
    LastUsn { usn: i32 },
    /// The server's answer to the start of a sync.
    Began { reply: SyncBeginResult },
    /// The server's answer to the request for its changes.
    Records { answer: RecordBatchResult },
    /// The entries of the files that changed, as far as there are any.
    Found { ctx: MediaDatabaseContext },
    /// The files were removed.
    FilesRemoved,
    /// The archive with the requested files.
    ZipFetched { data: Vec<u8> },
    /// What became of each file that was saved, in the same order.
    FilesSaved { added: Vec<AddedFile> },
    /// The database was updated.
    Recorded,
    /// The files that wait for their upload.
    Pending { files: Vec<MediaEntry> },
    /// Whether normalizing the file name has changed it.
    NameChecked { changed: bool },
    /// The bytes of the file, or nothing where the file is not there.
    FileRead { bytes: Option<Vec<u8>> },
    /// The archive was sent.
    Sent,
    /// The number of files.
    Counted { count: u32 },
    /// The server's answer to the comparison.
    Finalized { verdict: FinalizeResponse },
}

/// What contracts say of a [`SyncEvent`].
#[verifier::ext_equal]
pub enum EventView {
    Registered,
    LastUsn { usn: i32 },
    Began { reply: BeginView },
    Records { answer: BatchView },
    Found { entries: Entries },
    FilesRemoved,
    ZipFetched { data: Seq<u8> },
    FilesSaved { added: Seq<AddedFileView> },
    Recorded,
    Pending { files: Seq<EntryView> },
    NameChecked { changed: bool },
    FileRead { bytes: Option<Seq<u8>> },
    Sent,
    Counted { count: u32 },
    Finalized { verdict: FinalizeView },
}

impl View for SyncEvent {
    type V = EventView;

    open spec fn view(&self) -> EventView {
        match *self {
            SyncEvent::Registered => EventView::Registered,
            SyncEvent::LastUsn { usn } => EventView::LastUsn { usn },
            SyncEvent::Began { reply } => EventView::Began { reply: reply@ },
            SyncEvent::Records { answer } => EventView::Records { answer: answer@ },
            SyncEvent::Found { ctx } => EventView::Found { entries: ctx@ },
            SyncEvent::FilesRemoved => EventView::FilesRemoved,
            SyncEvent::ZipFetched { data } => EventView::ZipFetched { data: data@ },
            SyncEvent::FilesSaved { added } => EventView::FilesSaved { added: added.deep_view() },
            SyncEvent::Recorded => EventView::Recorded,
            SyncEvent::Pending { files } => EventView::Pending { files: files.deep_view() },
            SyncEvent::NameChecked { changed } => EventView::NameChecked { changed },
            SyncEvent::FileRead { bytes } => EventView::FileRead { bytes: bytes_of(bytes) },
            SyncEvent::Sent => EventView::Sent,
            SyncEvent::Counted { count } => EventView::Counted { count },
            SyncEvent::Finalized { verdict } => EventView::Finalized { verdict: verdict@ },
        }
    }
}

/// What holds of every stage that a sync comes to. A batch that is looked up is
/// not empty; the files that are still waited for are those at the end of the
/// list, after as many as were added; a batch is recorded when all its files were
/// added; a file is packed only where one waits and there is room; and what is sent
/// is as much of what waits as there was room for.
pub open spec fn sound(stage: StageView) -> bool {
    match stage {
        StageView::LookingUp { records } => records.len() > 0,
        StageView::RemovingFiles { batch } => batch.added.len() == 0,
        StageView::FetchingZip { batch, waiting } => still_waiting(batch, waiting),
        StageView::SavingFiles { batch, waiting, .. } => still_waiting(batch, waiting),
        StageView::Recording { batch } => batch.added.len() == batch.changes.to_download.len(),
        StageView::CheckingName { pending, upload } => packs_more(entry_names(pending), upload),
        StageView::ReadingFile { pending, upload } => packs_more(entry_names(pending), upload),
        StageView::Sending { fnames, packed } => packs_enough(fnames, packed),
        _ => true,
    }
}

/// The upload holds the first of the files that wait, none of them empty or too
/// large for an archive.
pub open spec fn packs_first(fnames: Seq<Seq<char>>, upload: Seq<UploadFile>) -> bool {
    &&& upload.len() <= fnames.len()
    &&& forall|i: int|
        #![trigger upload[i]]
        0 <= i < upload.len() ==> upload[i].fname == fnames[i] && (upload[i].data is Some ==> 0
            < upload[i].data->0.len() <= MAX_FILE_BYTES)
}

/// The upload holds the first of the files that wait, and takes another one.
pub open spec fn packs_more(fnames: Seq<Seq<char>>, upload: Seq<UploadFile>) -> bool {
    &&& packs_first(fnames, upload)
    &&& upload.len() < fnames.len()
    &&& total_bytes(upload) <= SYNC_MAX_BYTES
}

/// The upload holds the first of the files that wait: at least one of them, and all
/// of them or as many as it takes to pass the size limit.
pub open spec fn packs_enough(fnames: Seq<Seq<char>>, upload: Seq<UploadFile>) -> bool {
    &&& packs_first(fnames, upload)
    &&& 0 < upload.len()
    &&& total_bytes(upload.drop_last()) <= SYNC_MAX_BYTES
    &&& upload.len() == fnames.len() || total_bytes(upload) > SYNC_MAX_BYTES
}

/// Some files are still to be downloaded, namely `waiting`: all but the first, as
/// many as were added.
pub open spec fn still_waiting(batch: ProgressView, waiting: Seq<Seq<char>>) -> bool {
    &&& batch.added.len() < batch.changes.to_download.len()
    &&& waiting == batch.changes.to_download.skip(batch.added.len() as int)
}

/// Whether `event` can have come of the action of `stage`. For each file that was
/// unpacked there is one that was saved, and an archive unpacked whole has no
/// more files than are still waited for.
pub open spec fn accepts(stage: StageView, event: EventView) -> bool {
    match (stage, event) {
        (StageView::Registering, EventView::Registered) => true,
        (StageView::ReadingUsn, EventView::LastUsn { .. }) => true,
        (StageView::Beginning { .. }, EventView::Began { .. }) => true,
        (StageView::FetchingRecords { .. }, EventView::Records { .. }) => true,
        (StageView::LookingUp { .. }, EventView::Found { .. }) => true,
        (StageView::RemovingFiles { .. }, EventView::FilesRemoved) => true,
        (StageView::FetchingZip { .. }, EventView::ZipFetched { .. }) => true,
        (
            StageView::SavingFiles { batch: _, waiting, extraction },
            EventView::FilesSaved { added },
        ) => {
            &&& added.len() == extraction.files.len()
            &&& extraction.failure is None ==> added.len() <= waiting.len()
        },
        (StageView::Recording { .. }, EventView::Recorded) => true,
        (StageView::CheckingPending { .. }, EventView::Pending { .. }) => true,
        (StageView::ListingPending, EventView::Pending { .. }) => true,
        (StageView::CheckingName { .. }, EventView::NameChecked { .. }) => true,
        (StageView::ReadingFile { .. }, EventView::FileRead { .. }) => true,
        (StageView::Sending { .. }, EventView::Sent) => true,
        (StageView::MarkingClean { .. }, EventView::Recorded) => true,
        (StageView::Counting, EventView::Counted { .. }) => true,
        (StageView::Finalizing { .. }, EventView::Finalized { .. }) => true,
        _ => false,
    }
}

/// The stage in which the files in `waiting` are downloaded, or the one after it
/// where none are left.
pub open spec fn downloading(batch: ProgressView, waiting: Seq<Seq<char>>) -> StageView {
    if waiting.len() == 0 {
        StageView::Recording { batch }
    } else {
        StageView::FetchingZip { batch, waiting }
    }
}

/// The stage after the upload, or in place of it: the two sides are compared
/// where anything was done.
pub open spec fn closing(acted: bool) -> StageView {
    if acted {
        StageView::Counting
    } else {
        StageView::Complete
    }
}

/// The upload with the next of the files that wait.
pub open spec fn with_next_file(
    pending: Seq<EntryView>,
    upload: Seq<UploadFile>,
    bytes: Option<Seq<u8>>,
) -> Seq<UploadFile> {
    upload.push(UploadFile { fname: pending[upload.len() as int].fname, data: bytes })
}

/// The stage in which the upload is packed further, or the one after it where all
/// files are in it or it has grown past the size limit. It is then recorded of all
/// files that waited that they were sent. The list of the files may be too large
/// for an archive.
pub open spec fn packing(pending: Seq<EntryView>, upload: Seq<UploadFile>) -> Result<
    StageView,
    ErrorView,
> {
    if upload.len() < pending.len() && total_bytes(upload) <= SYNC_MAX_BYTES {
        Ok(StageView::CheckingName { pending, upload })
    } else if list_fits(upload) {
        Ok(StageView::Sending { fnames: entry_names(pending), packed: upload })
    } else {
        Err(ErrorView::Io)
    }
}

/// The names of the entries' files.
pub open spec fn entry_names(entries: Seq<EntryView>) -> Seq<Seq<char>> {
    entries.map_values(|entry: EntryView| entry.fname)
}

/// The stage that an accepted event leads to, or the error that ends the sync.
pub open spec fn next_stage(stage: StageView, event: EventView) -> Result<StageView, ErrorView> {
    match (stage, event) {
        (StageView::Registering, _) => Ok(StageView::ReadingUsn),
        (StageView::ReadingUsn, EventView::LastUsn { usn }) => Ok(
            StageView::Beginning { client_usn: usn },
        ),
        (StageView::Beginning { client_usn }, EventView::Began { reply }) => match begun(reply) {
            Err(err) => Err(err),
            Ok((_, server_usn)) => if client_usn != server_usn {
                Ok(StageView::FetchingRecords { last_usn: client_usn })
            } else {
                Ok(StageView::CheckingPending { acted: false })
            },
        },
        (StageView::FetchingRecords { .. }, EventView::Records { answer }) => match batch_of(answer) {
            Err(err) => Err(err),
            Ok(records) => if records.len() == 0 {
                Ok(StageView::CheckingPending { acted: true })
            } else {
                Ok(StageView::LookingUp { records })
            },
        },
        (StageView::LookingUp { records }, EventView::Found { entries }) => Ok(
            StageView::RemovingFiles {
                batch: ProgressView {
                    changes: changes_for(entries, records),
                    added: Seq::empty(),
                    last_usn: records.last().usn,
                },
            },
        ),
        (StageView::RemovingFiles { batch }, _) => Ok(
            downloading(batch, batch.changes.to_download),
        ),
        (StageView::FetchingZip { batch, waiting }, EventView::ZipFetched { data }) => Ok(
            StageView::SavingFiles { batch, waiting, extraction: extraction(data) },
        ),
        (
            StageView::SavingFiles { batch, waiting, extraction },
            EventView::FilesSaved { added },
        ) => match extraction.failure {
            Some(err) => Err(err),
            None => Ok(
                downloading(
                    ProgressView { added: batch.added + added, ..batch },
                    waiting.skip(added.len() as int),
                ),
            ),
        },
        (StageView::Recording { batch }, _) => Ok(
            StageView::FetchingRecords { last_usn: batch.last_usn },
        ),
        (StageView::CheckingPending { acted }, EventView::Pending { files }) => if files.len()
            == 0 {
            Ok(closing(acted))
        } else {
            Ok(StageView::ListingPending)
        },
        (StageView::ListingPending, EventView::Pending { files }) => if files.len() == 0 {
            Ok(closing(true))
        } else {
            Ok(StageView::CheckingName { pending: files, upload: Seq::empty() })
        },
        (StageView::CheckingName { pending, upload }, EventView::NameChecked { changed }) => {
            if changed {
                Err(invalid_filename())
            } else {
                Ok(StageView::ReadingFile { pending, upload })
            }
        },
        (StageView::ReadingFile { pending, upload }, EventView::FileRead { bytes }) => {
            if bytes is Some && bytes->0.len() == 0 {
                Err(empty_file())
            } else if bytes is Some && bytes->0.len() > MAX_FILE_BYTES {
                Err(ErrorView::Io)
            } else {
                packing(pending, with_next_file(pending, upload, bytes))
            }
        },
        (StageView::Sending { fnames, .. }, _) => Ok(StageView::MarkingClean { fnames }),
        (StageView::MarkingClean { .. }, _) => Ok(StageView::ListingPending),
        (StageView::Counting, EventView::Counted { count }) => Ok(
            StageView::Finalizing { local: count },
        ),
        (StageView::Finalizing { .. }, EventView::Finalized { verdict }) => match finalized(verdict) {
            Err(err) => Err(err),
            Ok(()) => Ok(StageView::Complete),
        },
        (stage, _) => Ok(stage),
    }
}

/// The key of the sync after an event.
pub open spec fn next_key(session: SessionView, event: EventView) -> Seq<char> {
    match event {
        EventView::Began { reply } => match begun(reply) {
            Ok((sync_key, _)) => sync_key,
            Err(_) => session.sync_key,
        },
        _ => session.sync_key,
    }
}

/// The session that an accepted event leads to, or the error that ends the sync.
pub open spec fn next_session(session: SessionView, event: EventView) -> Result<
    SessionView,
    ErrorView,
> {
    match next_stage(session.stage, event) {
        Err(err) => Err(err),
        Ok(stage) => Ok(SessionView { sync_key: next_key(session, event), stage, ..session }),
    }
}

/// A sync that has not begun.
pub open spec fn new_session(hkey: Seq<char>) -> SessionView {
    SessionView { hkey, sync_key: Seq::empty(), stage: StageView::Registering }
}

/// The first files that wait, as many as fit in one request.
pub open spec fn next_files(waiting: Seq<Seq<char>>) -> Seq<Seq<char>> {
    if waiting.len() <= SYNC_MAX_FILES {
        waiting
    } else {
        waiting.take(SYNC_MAX_FILES as int)
    }
}

/// Copies the names from `from` up to `to`.
fn copied(names: &Vec<String>, from: usize, to: usize) -> (copy: Vec<String>)
    requires
        from <= to <= names.len(),
    ensures
        copy.deep_view() == names.deep_view().subrange(from as int, to as int),
{
    let mut copy: Vec<String> = Vec::new();
    let mut i: usize = from;
    assert(copy.deep_view() =~= names.deep_view().subrange(from as int, i as int));
    while i < to
        invariant
            from <= i <= to <= names.len(),
            copy.deep_view() == names.deep_view().subrange(from as int, i as int),
        decreases to - i,
    {
        let ghost before = copy.deep_view();
        copy.push(names[i].clone());
        proof {
            assert(copy.deep_view() =~= before.push(names[i as int]@));
            assert(copy.deep_view() =~= names.deep_view().subrange(from as int, i + 1));
        }
        i += 1;
    }
    copy
}

/// Copies the first of the files that wait.
fn first_files(waiting: &Vec<String>) -> (files: Vec<String>)
    ensures
        files.deep_view() == next_files(waiting.deep_view()),
{
    let len = waiting.len();
    let files = copied(waiting, 0, if len < SYNC_MAX_FILES { len } else { SYNC_MAX_FILES });
    assert(files.deep_view() =~= next_files(waiting.deep_view()));
    files
}

/// Copies the files that still wait after the first `count` were delivered.
fn files_after(waiting: &Vec<String>, count: usize) -> (files: Vec<String>)
    requires
        count <= waiting.len(),
    ensures
        files.deep_view() == waiting.deep_view().skip(count as int),
{
    let files = copied(waiting, count, waiting.len());
    assert(files.deep_view() =~= waiting.deep_view().skip(count as int));
    files
}

/// Copies the names of the entries' files.
fn names_of(entries: &Vec<MediaEntry>) -> (names: Vec<String>)
    ensures
        names.deep_view() == entry_names(entries.deep_view()),
{
    let mut names: Vec<String> = Vec::new();
    let mut i: usize = 0;
    while i < entries.len()
        invariant
            i <= entries.len(),
            names.deep_view() == entry_names(entries.deep_view()).take(i as int),
        decreases entries.len() - i,
    {
        let ghost before = names.deep_view();
        names.push(entries[i].fname.clone());
        proof {
            assert(names.deep_view() =~= before.push(entries[i as int].fname@));
            assert(names.deep_view() =~= entry_names(entries.deep_view()).take(i + 1));
        }
        i += 1;
    }
    assert(names.deep_view() =~= entry_names(entries.deep_view()));
    names
}

/// Goes on with the files in `waiting`.
fn download(batch: Batch, waiting: Vec<String>) -> (stage: SyncStage)
    ensures
        stage@ == downloading(batch@, waiting.deep_view()),
{
    assert(waiting.deep_view().len() == waiting.len());
    if waiting.len() == 0 {
        SyncStage::Recording { batch }
    } else {
        SyncStage::FetchingZip { batch, waiting }
    }
}

/// The name of the next file to upload.
fn next_fname<'a>(pending: &'a Vec<MediaEntry>, upload: &UploadZip) -> (fname: &'a String)
    requires
        upload@.len() < pending.len(),
        total_bytes(upload@) <= SYNC_MAX_BYTES,
    ensures
        fname@ == pending.deep_view()[upload@.len() as int].fname,
{
    match upload.next_index(pending.len()) {
        Some(index) => &pending[index].fname,
        None => vstd::pervasive::unreached(),
    }
}

/// Goes on with the upload.
fn pack(pending: Vec<MediaEntry>, upload: UploadZip) -> (stage: Result<SyncStage, AnkiError>)
    ensures
        match stage {
            Ok(stage) => packing(pending.deep_view(), upload@) == Ok::<
                _,
                ErrorView,
            >(stage@),
            Err(err) => packing(pending.deep_view(), upload@) == Err::<StageView, _>(err@),
        },
{
    assert(pending.deep_view().len() == pending.len());
    if upload.next_index(pending.len()).is_some() {
        return Ok(SyncStage::CheckingName { pending, upload });
    }
    match upload.finish() {
        Ok(packed) => Ok(SyncStage::Sending { fnames: names_of(&pending), packed }),
        Err(err) => Err(err),
    }
}

fn close(acted: bool) -> (stage: SyncStage)
    ensures
        stage@ == closing(acted),
{
    if acted {
        SyncStage::Counting
    } else {
        SyncStage::Complete
    }
}

/// What has to be done next.
pub enum SyncAction<'a> {
    /// Bring the media database up to date with the media folder.
    RegisterChanges,
    /// Read the number of the last change that was synced.
    ReadLastUsn,
    /// Tell the server that a sync begins.
    Begin { hkey: &'a String },
    /// Ask the server for its changes after `last_usn`.
    FetchRecords { sync_key: &'a String, last_usn: i32 },
    /// Look up the entries of the records' files.
    LookUp { records: &'a Vec<ServerMediaRecord> },
    /// Remove files from the media folder.
    RemoveFiles { fnames: &'a Vec<String> },
    /// Ask the server for an archive with files.
    FetchZip { sync_key: &'a String, requested: Vec<String> },
    /// Save files in the media folder.
    SaveFiles { files: &'a Vec<ExtractedFile> },
    /// Record a batch of changes in the database, all or nothing.
    RecordBatch { changes: &'a RequiredChanges, added: &'a Vec<AddedFile> },
    /// List the files that wait for their upload, at most `limit` of them.
    ListPending { limit: usize },
    /// Normalize the name of a file.
    CheckName { fname: &'a String },
    /// Read a file in the media folder.
    ReadFile { fname: &'a String },
    /// Send an archive with files to the server.
    SendZip { sync_key: &'a String, packed: &'a PackedUpload },
    /// Mark files in the database as having nothing left to tell the server, all
    /// or nothing.
    MarkClean { fnames: &'a Vec<String> },
    /// Count the files.
    CountFiles,
    /// Have the server compare the number of files with its own.
    Finalize { sync_key: &'a String, local: u32 },
    /// Nothing: the sync is complete.
    Done,
}

/// What contracts say of a [`SyncAction`].
#[verifier::ext_equal]
pub enum ActionView {
    RegisterChanges,
    ReadLastUsn,
    Begin { hkey: Seq<char> },
    FetchRecords { sync_key: Seq<char>, last_usn: i32 },
    LookUp { records: Seq<RecordView> },
    RemoveFiles { fnames: Seq<Seq<char>> },
    FetchZip { sync_key: Seq<char>, requested: Seq<Seq<char>> },
    SaveFiles { files: Seq<ExtractedFileView> },
    RecordBatch { changes: ChangesView, added: Seq<AddedFileView> },
    ListPending { limit: usize },
    CheckName { fname: Seq<char> },
    ReadFile { fname: Seq<char> },
    SendZip { sync_key: Seq<char>, packed: Seq<UploadFile> },
    MarkClean { fnames: Seq<Seq<char>> },
    CountFiles,
    Finalize { sync_key: Seq<char>, local: u32 },
    Done,
}

impl<'a> View for SyncAction<'a> {
    type V = ActionView;

    open spec fn view(&self) -> ActionView {
        match *self {
            SyncAction::RegisterChanges => ActionView::RegisterChanges,
            SyncAction::ReadLastUsn => ActionView::ReadLastUsn,
            SyncAction::Begin { hkey } => ActionView::Begin { hkey: hkey@ },
            SyncAction::FetchRecords { sync_key, last_usn } => ActionView::FetchRecords {
                sync_key: sync_key@,
                last_usn,
            },
            SyncAction::LookUp { records } => ActionView::LookUp { records: records.deep_view() },
            SyncAction::RemoveFiles { fnames } => ActionView::RemoveFiles {
                fnames: fnames.deep_view(),
            },
            SyncAction::FetchZip { sync_key, requested } => ActionView::FetchZip {
                sync_key: sync_key@,
                requested: requested.deep_view(),
            },
            SyncAction::SaveFiles { files } => ActionView::SaveFiles { files: files.deep_view() },
            SyncAction::RecordBatch { changes, added } => ActionView::RecordBatch {
                changes: changes@,
                added: added.deep_view(),
            },
            SyncAction::ListPending { limit } => ActionView::ListPending { limit },
            SyncAction::CheckName { fname } => ActionView::CheckName { fname: fname@ },
            SyncAction::ReadFile { fname } => ActionView::ReadFile { fname: fname@ },
            SyncAction::SendZip { sync_key, packed } => ActionView::SendZip {
                sync_key: sync_key@,
                packed: packed@,
            },
            SyncAction::MarkClean { fnames } => ActionView::MarkClean {
                fnames: fnames.deep_view(),
            },
            SyncAction::CountFiles => ActionView::CountFiles,
            SyncAction::Finalize { sync_key, local } => ActionView::Finalize {
                sync_key: sync_key@,
                local,
            },
            SyncAction::Done => ActionView::Done,
        }
    }
}

/// Where on the server an action is addressed to, if it is addressed to the
/// server.
pub open spec fn addressed_to(action: ActionView) -> Option<Endpoint> {
    match action {
        ActionView::Begin { .. } => Some(Endpoint::Begin),
        ActionView::FetchRecords { .. } => Some(Endpoint::MediaChanges),
        ActionView::FetchZip { .. } => Some(Endpoint::DownloadFiles),
        ActionView::SendZip { .. } => Some(Endpoint::UploadChanges),
        ActionView::Finalize { .. } => Some(Endpoint::MediaSanity),
        _ => None,
    }
}

impl<'a> SyncAction<'a> {
    /// Where on the server the action is addressed to, if it is addressed to the
    /// server.
    pub fn endpoint(&self) -> (endpoint: Option<Endpoint>)
        ensures
            endpoint == addressed_to(self@),
    {
        match self {
            SyncAction::Begin { .. } => Some(Endpoint::Begin),
            SyncAction::FetchRecords { .. } => Some(Endpoint::MediaChanges),
            SyncAction::FetchZip { .. } => Some(Endpoint::DownloadFiles),
            SyncAction::SendZip { .. } => Some(Endpoint::UploadChanges),
            SyncAction::Finalize { .. } => Some(Endpoint::MediaSanity),
            _ => None,
        }
    }
}

/// The action of a session's stage.
pub open spec fn action_of(session: SessionView) -> ActionView {
    let sync_key = session.sync_key;
    match session.stage {
        StageView::Registering => ActionView::RegisterChanges,
        StageView::ReadingUsn => ActionView::ReadLastUsn,
        StageView::Beginning { .. } => ActionView::Begin { hkey: session.hkey },
        StageView::FetchingRecords { last_usn } => ActionView::FetchRecords { sync_key, last_usn },
        StageView::LookingUp { records } => ActionView::LookUp { records },
        StageView::RemovingFiles { batch } => ActionView::RemoveFiles {
            fnames: batch.changes.to_delete,
        },
        StageView::FetchingZip { batch: _, waiting } => ActionView::FetchZip {
            sync_key,
            requested: next_files(waiting),
        },
        StageView::SavingFiles { batch: _, waiting: _, extraction } => ActionView::SaveFiles {
            files: extraction.files,
        },
        StageView::Recording { batch } => ActionView::RecordBatch {
            changes: batch.changes,
            added: batch.added,
        },
        StageView::CheckingPending { .. } => ActionView::ListPending { limit: 1 },
        StageView::ListingPending => ActionView::ListPending { limit: SYNC_MAX_FILES },
        StageView::CheckingName { pending, upload } => ActionView::CheckName {
            fname: pending[upload.len() as int].fname,
        },
        StageView::ReadingFile { pending, upload } => ActionView::ReadFile {
            fname: pending[upload.len() as int].fname,
        },
        StageView::Sending { fnames: _, packed } => ActionView::SendZip { sync_key, packed },
        StageView::MarkingClean { fnames } => ActionView::MarkClean { fnames },
        StageView::Counting => ActionView::CountFiles,
        StageView::Finalizing { local } => ActionView::Finalize { sync_key, local },
        StageView::Complete => ActionView::Done,
    }
}

impl SyncSession {
    #[verifier::type_invariant]
    spec fn consistent(self) -> bool {
        sound(self.stage@)
    }

    /// A sync for the user with this key.
    pub fn new(hkey: String) -> (session: SyncSession)
        ensures
            session@ == new_session(hkey@),
    {
        let session = SyncSession { hkey, sync_key: String::new(), stage: SyncStage::Registering };
        assert(session.sync_key@ =~= Seq::empty());
        session
    }

    /// What has to be done next.
    pub fn next_action<'a>(&'a self) -> (action: SyncAction<'a>)
        ensures
            action@ == action_of(self@),
    {
        proof {
            use_type_invariant(self);
        }
        let sync_key = &self.sync_key;
        match &self.stage {
            SyncStage::Registering => SyncAction::RegisterChanges,
            SyncStage::ReadingUsn => SyncAction::ReadLastUsn,
            SyncStage::Beginning { .. } => SyncAction::Begin { hkey: &self.hkey },
            SyncStage::FetchingRecords { last_usn } => SyncAction::FetchRecords {
                sync_key,
                last_usn: *last_usn,
            },
            SyncStage::LookingUp { records } => SyncAction::LookUp { records },
            SyncStage::RemovingFiles { batch } => SyncAction::RemoveFiles {
                fnames: &batch.changes.to_delete,
            },
            SyncStage::FetchingZip { batch: _, waiting } => SyncAction::FetchZip {
                sync_key,
                requested: first_files(waiting),
            },
            SyncStage::SavingFiles { batch: _, waiting: _, extraction } => SyncAction::SaveFiles {
                files: &extraction.files,
            },
            SyncStage::Recording { batch } => SyncAction::RecordBatch {
                changes: &batch.changes,
                added: &batch.added,
            },
            SyncStage::CheckingPending { .. } => SyncAction::ListPending { limit: 1 },
            SyncStage::ListingPending => SyncAction::ListPending { limit: SYNC_MAX_FILES },
            SyncStage::CheckingName { pending, upload } => SyncAction::CheckName {
                fname: next_fname(pending, upload),
            },
            SyncStage::ReadingFile { pending, upload } => SyncAction::ReadFile {
                fname: next_fname(pending, upload),
            },
            SyncStage::Sending { fnames: _, packed } => SyncAction::SendZip { sync_key, packed },
            SyncStage::MarkingClean { fnames } => SyncAction::MarkClean { fnames },
            SyncStage::Counting => SyncAction::CountFiles,
            SyncStage::Finalizing { local } => SyncAction::Finalize { sync_key, local: *local },
            SyncStage::Complete => SyncAction::Done,
        }
    }

    /// Whether the sync is complete.
    pub fn is_complete(&self) -> (complete: bool)
        ensures
            complete == (self@.stage is Complete),
    {
        matches!(self.stage, SyncStage::Complete)
    }

    /// Whether `event` can have come of the action that has to be done next.
    pub fn accepts(&self, event: &SyncEvent) -> (accepted: bool)
        ensures
            accepted == accepts(self@.stage, event@),
    {
        match (&self.stage, event) {
            (SyncStage::Registering, SyncEvent::Registered) => true,
            (SyncStage::ReadingUsn, SyncEvent::LastUsn { .. }) => true,
            (SyncStage::Beginning { .. }, SyncEvent::Began { .. }) => true,
            (SyncStage::FetchingRecords { .. }, SyncEvent::Records { .. }) => true,
            (SyncStage::LookingUp { .. }, SyncEvent::Found { .. }) => true,
            (SyncStage::RemovingFiles { .. }, SyncEvent::FilesRemoved) => true,
            (SyncStage::FetchingZip { .. }, SyncEvent::ZipFetched { .. }) => true,
            (
                SyncStage::SavingFiles { batch: _, waiting, extraction },
                SyncEvent::FilesSaved { added },
            ) => {
                proof {
                    assert(added.deep_view().len() == added.len());
                    assert(extraction@.files.len() == extraction.files.len());
                    assert(waiting.deep_view().len() == waiting.len());
                }
                added.len() == extraction.files.len() && (extraction.failure.is_some()
                    || added.len() <= waiting.len())
            },
            (SyncStage::Recording { .. }, SyncEvent::Recorded) => true,
            (SyncStage::CheckingPending { .. }, SyncEvent::Pending { .. }) => true,
            (SyncStage::ListingPending, SyncEvent::Pending { .. }) => true,
            (SyncStage::CheckingName { .. }, SyncEvent::NameChecked { .. }) => true,
            (SyncStage::ReadingFile { .. }, SyncEvent::FileRead { .. }) => true,
            (SyncStage::Sending { .. }, SyncEvent::Sent) => true,
            (SyncStage::MarkingClean { .. }, SyncEvent::Recorded) => true,
            (SyncStage::Counting, SyncEvent::Counted { .. }) => true,
            (SyncStage::Finalizing { .. }, SyncEvent::Finalized { .. }) => true,
            _ => false,
        }
    }

    /// Moves on after an action was done. The session is over where this gives an
    /// error.
    pub fn advance(self, event: SyncEvent) -> (moved: Result<SyncSession, AnkiError>)
        requires
            accepts(self@.stage, event@),
        ensures
            match moved {
                Ok(session) => next_session(self@, event@) == Ok::<_, ErrorView>(session@),
                Err(err) => next_session(self@, event@) == Err::<SessionView, _>(err@),
            },
    {
        proof {
            use_type_invariant(&self);
            lemma_stays_sound(self@, event@);
        }
        let SyncSession { hkey, mut sync_key, stage } = self;
        let stage = match (stage, event) {
            (SyncStage::Registering, SyncEvent::Registered) => SyncStage::ReadingUsn,
            (SyncStage::ReadingUsn, SyncEvent::LastUsn { usn }) => SyncStage::Beginning {
                client_usn: usn,
            },
            (SyncStage::Beginning { client_usn }, SyncEvent::Began { reply }) => {
                match read_begin_reply(reply) {
                    Err(err) => return Err(err),
                    Ok((key, server_usn)) => {
                        sync_key = key;
                        // need to fetch changes from server?
                        if client_usn != server_usn {
                            SyncStage::FetchingRecords { last_usn: client_usn }
                        } else {
                            SyncStage::CheckingPending { acted: false }
                        }
                    },
                }
            },
            (SyncStage::FetchingRecords { .. }, SyncEvent::Records { answer }) => {
                match read_record_batch_reply(answer) {
                    Err(err) => return Err(err),
                    Ok(records) => {
                        assert(records.deep_view().len() == records.len());
                        if records.len() == 0 {
                            SyncStage::CheckingPending { acted: true }
                        } else {
                            SyncStage::LookingUp { records }
                        }
                    },
                }
            },
            (SyncStage::LookingUp { records }, SyncEvent::Found { ctx }) => {
                assert(records.deep_view().len() == records.len());
                let last_usn = records[records.len() - 1].usn;
                let changes = determine_required_changes(&ctx, &records);
                let added: Vec<AddedFile> = Vec::new();
                assert(added.deep_view() =~= Seq::empty());
                SyncStage::RemovingFiles { batch: Batch { changes, added, last_usn } }
            },
            (SyncStage::RemovingFiles { batch }, SyncEvent::FilesRemoved) => {
                let waiting = files_after(&batch.changes.to_download, 0);
                assert(waiting.deep_view() =~= batch@.changes.to_download);
                download(batch, waiting)
            },
            (SyncStage::FetchingZip { batch, waiting }, SyncEvent::ZipFetched { data }) => {
                SyncStage::SavingFiles { batch, waiting, extraction: extract_files(data) }
            },
            (
                SyncStage::SavingFiles { batch, waiting, extraction },
                SyncEvent::FilesSaved { added },
            ) => {
                match extraction.failure {
                    Some(err) => return Err(err),
                    None => {
                        proof {
                            assert(added.deep_view().len() == added.len());
                            assert(waiting.deep_view().len() == waiting.len());
                        }
                        let waiting = files_after(&waiting, added.len());
                        let ghost sum = batch.added.deep_view() + added.deep_view();
                        let mut batch = batch;
                        let mut added = added;
                        batch.added.append(&mut added);
                        assert(batch.added.deep_view() =~= sum);
                        download(batch, waiting)
                    },
                }
            },
            (SyncStage::Recording { batch }, SyncEvent::Recorded) => SyncStage::FetchingRecords {
                last_usn: batch.last_usn,
            },
            (SyncStage::CheckingPending { acted }, SyncEvent::Pending { files }) => {
                assert(files.deep_view().len() == files.len());
                // need to send changes to server?
                if files.len() == 0 {
                    close(acted)
                } else {
                    SyncStage::ListingPending
                }
            },
            (SyncStage::ListingPending, SyncEvent::Pending { files }) => {
                assert(files.deep_view().len() == files.len());
                if files.len() == 0 {
                    close(true)
                } else {
                    SyncStage::CheckingName { pending: files, upload: UploadZip::new() }
                }
            },
            (SyncStage::CheckingName { pending, upload }, SyncEvent::NameChecked { changed }) => {
                match check_filename(changed) {
                    Err(err) => return Err(err),
                    Ok(()) => SyncStage::ReadingFile { pending, upload },
                }
            },
            (SyncStage::ReadingFile { pending, upload }, SyncEvent::FileRead { bytes }) => {
                let ghost before = upload@;
                let fname = next_fname(&pending, &upload);
                let upload = match upload.add_file(fname.as_str(), bytes) {
                    Ok(upload) => upload,
                    Err(err) => return Err(err),
                };
                assert(upload@ == with_next_file(pending.deep_view(), before, bytes_of(bytes)));
                match pack(pending, upload) {
                    Ok(stage) => stage,
                    Err(err) => return Err(err),
                }
            },
            (SyncStage::Sending { fnames, .. }, SyncEvent::Sent) => SyncStage::MarkingClean {
                fnames,
            },
            (SyncStage::MarkingClean { .. }, SyncEvent::Recorded) => SyncStage::ListingPending,
            (SyncStage::Counting, SyncEvent::Counted { count }) => SyncStage::Finalizing {
                local: count,
            },
            (SyncStage::Finalizing { .. }, SyncEvent::Finalized { verdict }) => {
                match read_finalize_reply(verdict) {
                    Err(err) => return Err(err),
                    Ok(()) => SyncStage::Complete,
                }
            },
            _ => vstd::pervasive::unreached(),
        };
        Ok(SyncSession { hkey, sync_key, stage })
    }
}

/// Every stage that a sync comes to is sound: an accepted event leads from a
/// sound stage to a sound one.
pub proof fn lemma_stays_sound(session: SessionView, event: EventView)
    requires
        sound(session.stage),
        accepts(session.stage, event),
    ensures
        next_session(session, event) is Ok ==> sound(next_session(session, event)->Ok_0.stage),
{
    match (session.stage, event) {
        (StageView::RemovingFiles { batch }, _) => {
            let all = batch.changes.to_download;
            assert(all.skip(0) =~= all);
        },
        (
            StageView::SavingFiles { batch, waiting, extraction: _ },
            EventView::FilesSaved { added },
        ) => {
            let all = batch.changes.to_download;
            assert(waiting.len() == all.len() - batch.added.len());
            if added.len() <= waiting.len() {
                assert(waiting.skip(added.len() as int) =~= all.skip(
                    (batch.added + added).len() as int,
                ));
            }
        },
        (StageView::ReadingFile { pending, upload }, EventView::FileRead { bytes }) => {
            let fnames = entry_names(pending);
            let after = with_next_file(pending, upload, bytes);
            assert(after.drop_last() =~= upload);
            assert forall|i: int|
                #![trigger after[i]]
                0 <= i < after.len() && (bytes is Some ==> 0 < bytes->0.len()
                    <= MAX_FILE_BYTES) implies after[i].fname == fnames[i] && (
            after[i].data is Some ==> 0 < after[i].data->0.len() <= MAX_FILE_BYTES) by {
                if i < upload.len() {
                    assert(after[i] == upload[i]);
                }
            }
        },
        _ => {},
    }
}

} // verus!
