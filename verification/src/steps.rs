//! What each answer leads to: the next request of a sync, or the error that ends it.

use crate::changes::{changes_for, RecordView};
use crate::database::EntryView;
use crate::error::ErrorView;
use crate::extract::extraction;
use crate::json::json_list;
use crate::protocol::{BatchView, BeginView, Endpoint, FinalizeView};
use crate::records::{AddedFileView, Entries};
use crate::session::{
    accepts, action_of, addressed_to, new_session, next_session, ActionView, EventView,
    SessionView, StageView, SyncAction, SyncEvent,
};
use crate::upload::{
    lemma_total_bytes_bounded, lemma_total_bytes_is_sum, total_bytes, upload_entries, UploadFile,
};
use vstd::prelude::*;
use vstd::utf8::encode_utf8;

verus! {

/// The event is accepted and the session goes on.
pub open spec fn goes_on(session: SessionView, event: EventView) -> bool {
    accepts(session.stage, event) && next_session(session, event) is Ok
}

/// The session after an event with which it goes on.
pub open spec fn after(session: SessionView, event: EventView) -> SessionView {
    next_session(session, event)->Ok_0
}

/// The event is accepted, and what has to be done next is `action`.
pub open spec fn leads_to(session: SessionView, event: EventView, action: ActionView) -> bool {
    goes_on(session, event) && action_of(after(session, event)) == action
}

/// The event is accepted and ends the sync with `err`.
pub open spec fn fails_with(session: SessionView, event: EventView, err: ErrorView) -> bool {
    accepts(session.stage, event) && next_session(session, event) == Err::<SessionView, _>(err)
}

/// A sync brings the database up to date, reads the number of the last change that was
/// synced, and begins with the user's key.
pub proof fn lemma_first_steps(hkey: Seq<char>, usn: i32)
    ensures
        ({
            let start = new_session(hkey);
            let registered = after(start, EventView::Registered);
            &&& action_of(start) == ActionView::RegisterChanges
            &&& leads_to(start, EventView::Registered, ActionView::ReadLastUsn)
            &&& leads_to(registered, EventView::LastUsn { usn }, ActionView::Begin { hkey })
        }),
{
}

/// Once the server has answered the start of a sync, its changes are fetched from the
/// client's number on, with the key that the server gave, just where the two numbers
/// differ. Where they are the same, it is looked for something to upload, and the sync
/// is over where there is nothing. A refusal ends the sync with the server's words.
pub proof fn lemma_changes_are_fetched_where_numbers_differ(
    hkey: Seq<char>,
    usn: i32,
    reply: BeginView,
    files: Seq<EntryView>,
)
    ensures
        ({
            let beginning = after(
                after(new_session(hkey), EventView::Registered),
                EventView::LastUsn { usn },
            );
            let began = EventView::Began { reply };
            match reply.data {
                None => fails_with(beginning, began, ErrorView::Misc { info: reply.err }),
                Some((sync_key, server_usn)) => {
                    &&& usn != server_usn ==> leads_to(
                        beginning,
                        began,
                        ActionView::FetchRecords { sync_key, last_usn: usn },
                    )
                    &&& usn == server_usn ==> {
                        &&& leads_to(beginning, began, ActionView::ListPending { limit: 1 })
                        &&& leads_to(
                            after(beginning, began),
                            EventView::Pending { files },
                            if files.len() == 0 {
                                ActionView::Done
                            } else {
                                ActionView::ListPending { limit: 25 }
                            },
                        )
                        &&& after(beginning, began).sync_key == sync_key
                    }
                },
            }
        }),
{
}

/// The same, of any session that waits for the answer to the start of a sync.
pub proof fn lemma_begin_reply_decides(session: SessionView, reply: BeginView)
    requires
        session.stage is Beginning,
    ensures
        ({
            let began = EventView::Began { reply };
            let client_usn = session.stage->client_usn;
            match reply.data {
                None => fails_with(session, began, ErrorView::Misc { info: reply.err }),
                Some((sync_key, server_usn)) => {
                    &&& client_usn != server_usn ==> leads_to(
                        session,
                        began,
                        ActionView::FetchRecords { sync_key, last_usn: client_usn },
                    )
                    &&& client_usn == server_usn ==> leads_to(
                        session,
                        began,
                        ActionView::ListPending { limit: 1 },
                    )
                },
            }
        }),
{
}

/// Records that the server sends are looked up; where it sends none, it is looked for
/// something to upload, and where there is nothing, the files are counted. A refusal
/// ends the sync with the server's words.
pub proof fn lemma_records_are_looked_up(
    session: SessionView,
    answer: BatchView,
    files: Seq<EntryView>,
)
    requires
        session.stage is FetchingRecords,
    ensures
        action_of(session) == (ActionView::FetchRecords {
            sync_key: session.sync_key,
            last_usn: session.stage->FetchingRecords_last_usn,
        }),
        ({
            let event = EventView::Records { answer };
            match answer.data {
                None => fails_with(session, event, ErrorView::Misc { info: answer.err }),
                Some(records) => if records.len() > 0 {
                    leads_to(session, event, ActionView::LookUp { records })
                } else {
                    &&& leads_to(session, event, ActionView::ListPending { limit: 1 })
                    &&& leads_to(
                        after(session, event),
                        EventView::Pending { files },
                        if files.len() == 0 {
                            ActionView::CountFiles
                        } else {
                            ActionView::ListPending { limit: 25 }
                        },
                    )
                },
            }
        }),
{
}

/// After the lookup, the files that the server deleted are removed. Then the first 25
/// of those to download are asked for, or all where there are fewer; where there are
/// none, the batch is recorded, and the changes after its last record are fetched.
pub proof fn lemma_batch_is_begun(
    session: SessionView,
    records: Seq<RecordView>,
    entries: Entries,
)
    requires
        session.stage == (StageView::LookingUp { records }),
        records.len() > 0,
    ensures
        ({
            let changes = changes_for(entries, records);
            let found = EventView::Found { entries };
            let removing = after(session, found);
            let wanted = changes.to_download;
            let sync_key = session.sync_key;
            let recording = after(removing, EventView::FilesRemoved);
            &&& leads_to(session, found, ActionView::RemoveFiles { fnames: changes.to_delete })
            &&& 0 < wanted.len() <= 25 ==> leads_to(
                removing,
                EventView::FilesRemoved,
                ActionView::FetchZip { sync_key, requested: wanted },
            )
            &&& 25 < wanted.len() ==> leads_to(
                removing,
                EventView::FilesRemoved,
                ActionView::FetchZip { sync_key, requested: wanted.subrange(0, 25) },
            )
            &&& wanted.len() == 0 ==> {
                &&& leads_to(
                    removing,
                    EventView::FilesRemoved,
                    ActionView::RecordBatch { changes, added: Seq::empty() },
                )
                &&& leads_to(
                    recording,
                    EventView::Recorded,
                    ActionView::FetchRecords {
                        sync_key,
                        last_usn: records[records.len() - 1].usn,
                    },
                )
            }
        }),
{
    let wanted = changes_for(entries, records).to_download;
    if wanted.len() > 25 {
        assert(wanted.take(25) =~= wanted.subrange(0, 25));
    }
}

/// An archive that comes is unpacked, and what came out of it is saved. Where unpacking
/// failed, the sync ends with that error. Else as many files as were saved are no
/// longer waited for: the next 25 are asked for, or all that are left; and where none
/// are left, the batch is recorded with all files that were added, and the changes
/// after its last record are fetched. More files than were waited for are not accepted.
pub proof fn lemma_downloads_go_on(
    session: SessionView,
    data: Seq<u8>,
    added: Seq<AddedFileView>,
)
    requires
        session.stage is FetchingZip,
        added.len() == extraction(data).files.len(),
    ensures
        ({
            let batch = session.stage->FetchingZip_batch;
            let waiting = session.stage->FetchingZip_waiting;
            let fetched = EventView::ZipFetched { data };
            let saved = EventView::FilesSaved { added };
            let saving = after(session, fetched);
            let sync_key = session.sync_key;
            let n = added.len() as int;
            &&& leads_to(session, fetched, ActionView::SaveFiles { files: extraction(data).files })
            &&& match extraction(data).failure {
                Some(err) => fails_with(saving, saved, err),
                None => {
                    &&& n > waiting.len() ==> !accepts(saving.stage, saved)
                    &&& n < waiting.len() <= n + 25 ==> leads_to(
                        saving,
                        saved,
                        ActionView::FetchZip {
                            sync_key,
                            requested: waiting.subrange(n, waiting.len() as int),
                        },
                    )
                    &&& waiting.len() > n + 25 ==> leads_to(
                        saving,
                        saved,
                        ActionView::FetchZip {
                            sync_key,
                            requested: waiting.subrange(n, n + 25),
                        },
                    )
                    &&& n == waiting.len() ==> {
                        &&& leads_to(
                            saving,
                            saved,
                            ActionView::RecordBatch {
                                changes: batch.changes,
                                added: batch.added + added,
                            },
                        )
                        &&& leads_to(
                            after(saving, saved),
                            EventView::Recorded,
                            ActionView::FetchRecords { sync_key, last_usn: batch.last_usn },
                        )
                    }
                    &&& n < waiting.len() ==> {
                        let on = after(saving, saved).stage;
                        &&& on is FetchingZip
                        &&& on->FetchingZip_batch.changes == batch.changes
                        &&& on->FetchingZip_batch.added == batch.added + added
                        &&& on->FetchingZip_batch.last_usn == batch.last_usn
                        &&& on->FetchingZip_waiting == waiting.subrange(n, waiting.len() as int)
                    }
                },
            }
        }),
{
    let waiting = session.stage->FetchingZip_waiting;
    let n = added.len() as int;
    if n <= waiting.len() {
        assert(waiting.skip(n) =~= waiting.subrange(n, waiting.len() as int));
        if waiting.len() > n + 25 {
            assert(waiting.skip(n).take(25) =~= waiting.subrange(n, n + 25));
        }
    }
}

/// Where files are to be downloaded, the batch that is worked on is the one that the
/// records call for, nothing of it is added yet, and all of it is waited for.
pub proof fn lemma_downloads_start(session: SessionView, records: Seq<RecordView>, entries: Entries)
    requires
        session.stage == (StageView::LookingUp { records }),
        records.len() > 0,
        changes_for(entries, records).to_download.len() > 0,
    ensures
        ({
            let on = after(
                after(session, EventView::Found { entries }),
                EventView::FilesRemoved,
            ).stage;
            &&& on is FetchingZip
            &&& on->FetchingZip_batch.changes == changes_for(entries, records)
            &&& on->FetchingZip_batch.added.len() == 0
            &&& on->FetchingZip_batch.last_usn == records[records.len() - 1].usn
            &&& on->FetchingZip_waiting == changes_for(entries, records).to_download
        }),
{
}

/// The files that wait for their upload are taken one by one, beginning with the first;
/// where none wait, the files are counted.
pub proof fn lemma_uploads_start(session: SessionView, files: Seq<EntryView>)
    requires
        session.stage is ListingPending,
    ensures
        action_of(session) == (ActionView::ListPending { limit: 25 }),
        ({
            let listed = EventView::Pending { files };
            &&& files.len() == 0 ==> leads_to(session, listed, ActionView::CountFiles)
            &&& files.len() > 0 ==> {
                &&& leads_to(session, listed, ActionView::CheckName { fname: files[0].fname })
                &&& after(session, listed).stage == (StageView::CheckingName {
                    pending: files,
                    upload: Seq::empty(),
                })
            }
        }),
{
}

/// A file whose name is in its normal form is read; a name out of normal form ends the
/// sync.
pub proof fn lemma_names_are_checked(session: SessionView, changed: bool)
    requires
        session.stage is CheckingName,
    ensures
        ({
            let pending = session.stage->CheckingName_pending;
            let upload = session.stage->CheckingName_upload;
            let event = EventView::NameChecked { changed };
            let fname = pending[upload.len() as int].fname;
            &&& action_of(session) == (ActionView::CheckName { fname })
            &&& changed ==> fails_with(
                session,
                event,
                ErrorView::Misc {
                    info: "Invalid filename found. Please use the Check Media function."@,
                },
            )
            &&& !changed ==> leads_to(session, event, ActionView::ReadFile { fname })
            &&& !changed ==> after(session, event).stage == (StageView::ReadingFile {
                pending,
                upload,
            })
        }),
{
}

/// A file that was read joins the upload, with its name and bytes; one without bytes,
/// or with more than an archive can hold, ends the sync. The next file is taken as long
/// as one waits and the files hold no more than 2621440 bytes together. Else the upload
/// is sent, unless its list is larger than an archive can hold; and then all files that
/// waited are marked clean, and the next ones listed.
pub proof fn lemma_files_are_packed(session: SessionView, bytes: Option<Seq<u8>>)
    requires
        session.stage is ReadingFile,
        session.stage->ReadingFile_upload.len() < session.stage->ReadingFile_pending.len(),
    ensures
        ({
            let pending = session.stage->ReadingFile_pending;
            let upload = session.stage->ReadingFile_upload;
            let event = EventView::FileRead { bytes };
            let sync_key = session.sync_key;
            let fname = pending[upload.len() as int].fname;
            let packed = upload.push(UploadFile { fname, data: bytes });
            let empty = bytes is Some && bytes->0.len() == 0;
            let large = bytes is Some && bytes->0.len() > 0xffff_ffff;
            let more = packed.len() < pending.len() && total_bytes(packed) <= 2_621_440;
            let fits = encode_utf8(json_list(upload_entries(packed))).len() <= 0xffff_ffff;
            let fnames = Seq::new(pending.len(), |i: int| pending[i].fname);
            let sending = after(session, event);
            &&& action_of(session) == (ActionView::ReadFile { fname })
            &&& empty ==> fails_with(
                session,
                event,
                ErrorView::Misc { info: "0 byte file found"@ },
            )
            &&& large ==> fails_with(session, event, ErrorView::Io)
            &&& !empty && !large && more ==> {
                &&& leads_to(
                    session,
                    event,
                    ActionView::CheckName { fname: pending[packed.len() as int].fname },
                )
                &&& after(session, event).stage == (StageView::CheckingName {
                    pending,
                    upload: packed,
                })
            }
            &&& !empty && !large && !more && !fits ==> fails_with(session, event, ErrorView::Io)
            &&& !empty && !large && !more && fits ==> {
                &&& leads_to(session, event, ActionView::SendZip { sync_key, packed })
                &&& leads_to(sending, EventView::Sent, ActionView::MarkClean { fnames })
                &&& leads_to(
                    after(sending, EventView::Sent),
                    EventView::Recorded,
                    ActionView::ListPending { limit: 25 },
                )
            }
        }),
{
    let pending = session.stage->ReadingFile_pending;
    assert(crate::session::entry_names(pending) =~= Seq::new(
        pending.len(),
        |i: int| pending[i].fname,
    ));
}

/// As long as a file waits, and the files of the upload are so few that they hold no
/// more than 2621440 bytes even where each has `most`, the next one is taken.
pub proof fn lemma_small_files_are_all_packed(
    session: SessionView,
    bytes: Option<Seq<u8>>,
    most: nat,
)
    requires
        session.stage is ReadingFile,
        session.stage->ReadingFile_upload.len() + 1 < session.stage->ReadingFile_pending.len(),
        (session.stage->ReadingFile_upload.len() + 1) * most <= 2_621_440,
        forall|i: int|
            #![trigger session.stage->ReadingFile_upload[i]]
            0 <= i < session.stage->ReadingFile_upload.len()
                && session.stage->ReadingFile_upload[i].data is Some
                ==> session.stage->ReadingFile_upload[i].data->0.len() <= most,
        bytes is Some ==> 0 < bytes->0.len() <= most,
    ensures
        leads_to(
            session,
            EventView::FileRead { bytes },
            ActionView::CheckName {
                fname: session.stage->ReadingFile_pending[(
                session.stage->ReadingFile_upload.len() + 1) as int].fname,
            },
        ),
{
    let pending = session.stage->ReadingFile_pending;
    let upload = session.stage->ReadingFile_upload;
    let file = UploadFile { fname: pending[upload.len() as int].fname, data: bytes };
    let packed = upload.push(file);
    assert forall|i: int|
        #![trigger packed[i]]
        0 <= i < packed.len() && packed[i].data is Some implies packed[i].data->0.len() <= most by {
        if i < upload.len() {
            assert(packed[i] == upload[i]);
        }
    }
    lemma_total_bytes_bounded(packed, most);
    if bytes is Some {
        assert(most <= (upload.len() + 1) * most) by (nonlinear_arith);
    }
    lemma_files_are_packed(session, bytes);
}

/// A file more makes the upload larger by its own bytes, and by nothing else.
pub proof fn lemma_upload_grows_by_the_file(upload: Seq<UploadFile>, file: UploadFile)
    ensures
        total_bytes(upload.push(file)) == total_bytes(upload) + match file.data {
            Some(bytes) => bytes.len(),
            None => 0,
        },
{
    lemma_total_bytes_is_sum(upload, seq![file], file);
    assert(upload + seq![file] =~= upload.push(file));
}

/// The number of files that was counted is the number that the server is asked to
/// compare, and the sync is over where it says `OK`; else it ends with an error.
pub proof fn lemma_count_is_compared(session: SessionView, count: u32, verdict: FinalizeView)
    requires
        session.stage is Counting,
    ensures
        ({
            let counted = EventView::Counted { count };
            let event = EventView::Finalized { verdict };
            let finalizing = after(session, counted);
            &&& action_of(session) == ActionView::CountFiles
            &&& leads_to(
                session,
                counted,
                ActionView::Finalize { sync_key: session.sync_key, local: count },
            )
            &&& match verdict.data {
                Some(data) => if data == "OK"@ {
                    leads_to(finalizing, event, ActionView::Done)
                } else {
                    fails_with(finalizing, event, ErrorView::Misc { info: "resync required "@ })
                },
                None => fails_with(
                    finalizing,
                    event,
                    ErrorView::Misc { info: "finalize failed: "@ + verdict.err },
                ),
            }
        }),
{
}

/// Just the events are accepted that answer what has to be done.
pub proof fn lemma_answers_are_accepted(session: SessionView, event: EventView)
    ensures
        accepts(session.stage, event) <==> match action_of(session) {
            ActionView::RegisterChanges => event is Registered,
            ActionView::ReadLastUsn => event is LastUsn,
            ActionView::Begin { .. } => event is Began,
            ActionView::FetchRecords { .. } => event is Records,
            ActionView::LookUp { .. } => event is Found,
            ActionView::RemoveFiles { .. } => event is FilesRemoved,
            ActionView::FetchZip { .. } => event is ZipFetched,
            ActionView::SaveFiles { files } => event is FilesSaved && event->added.len()
                == files.len() && (session.stage->extraction.failure is None ==> event->added.len()
                <= session.stage->SavingFiles_waiting.len()),
            ActionView::RecordBatch { .. } => event is Recorded,
            ActionView::ListPending { .. } => event is Pending,
            ActionView::CheckName { .. } => event is NameChecked,
            ActionView::ReadFile { .. } => event is FileRead,
            ActionView::SendZip { .. } => event is Sent,
            ActionView::MarkClean { .. } => event is Recorded,
            ActionView::CountFiles => event is Counted,
            ActionView::Finalize { .. } => event is Finalized,
            ActionView::Done => false,
        },
        action_of(session) is Done <==> session.stage is Complete,
{
}

/// The user's key stays, and the sync's key is the one that the server gave last.
pub proof fn lemma_keys_stay(session: SessionView, event: EventView)
    requires
        next_session(session, event) is Ok,
    ensures
        after(session, event).hkey == session.hkey,
        match event {
            EventView::Began { reply } => match reply.data {
                Some((sync_key, _)) => after(session, event).sync_key == sync_key,
                None => true,
            },
            _ => after(session, event).sync_key == session.sync_key,
        },
{
}

/// Each request goes to its own endpoint, and nothing else is addressed to the server.
pub proof fn lemma_requests_have_endpoints(action: ActionView)
    ensures
        addressed_to(action) == Some(Endpoint::Begin) <==> action is Begin,
        addressed_to(action) == Some(Endpoint::MediaChanges) <==> action is FetchRecords,
        addressed_to(action) == Some(Endpoint::DownloadFiles) <==> action is FetchZip,
        addressed_to(action) == Some(Endpoint::UploadChanges) <==> action is SendZip,
        addressed_to(action) == Some(Endpoint::MediaSanity) <==> action is Finalize,
{
}

/// An event says all that it holds.
pub proof fn lemma_event_says(event: SyncEvent)
    ensures
        match event {
            SyncEvent::Registered => event@ is Registered,
            SyncEvent::LastUsn { usn } => event@ == (EventView::LastUsn { usn }),
            SyncEvent::Began { reply } => event@ == (EventView::Began { reply: reply@ }),
            SyncEvent::Records { answer } => event@ == (EventView::Records { answer: answer@ }),
            SyncEvent::Found { ctx } => event@ == (EventView::Found { entries: ctx@ }),
            SyncEvent::FilesRemoved => event@ is FilesRemoved,
            SyncEvent::ZipFetched { data } => event@ == (EventView::ZipFetched { data: data@ }),
            SyncEvent::FilesSaved { added } => event@ == (EventView::FilesSaved {
                added: added.deep_view(),
            }),
            SyncEvent::Recorded => event@ is Recorded,
            SyncEvent::Pending { files } => event@ == (EventView::Pending {
                files: files.deep_view(),
            }),
            SyncEvent::NameChecked { changed } => event@ == (EventView::NameChecked { changed }),
            SyncEvent::FileRead { bytes } => event@ is FileRead && (event@->FileRead_bytes is Some
                <==> bytes is Some) && (bytes is Some ==> event@->FileRead_bytes->0 == bytes->0@),
            SyncEvent::Sent => event@ is Sent,
            SyncEvent::Counted { count } => event@ == (EventView::Counted { count }),
            SyncEvent::Finalized { verdict } => event@ == (EventView::Finalized {
                verdict: verdict@,
            }),
        },
{
}

/// An action says all that it holds.
pub proof fn lemma_action_says(action: SyncAction<'_>)
    ensures
        match action {
            SyncAction::RegisterChanges => action@ is RegisterChanges,
            SyncAction::ReadLastUsn => action@ is ReadLastUsn,
            SyncAction::Begin { hkey } => action@ == (ActionView::Begin { hkey: hkey@ }),
            SyncAction::FetchRecords { sync_key, last_usn } => action@ == (
            ActionView::FetchRecords { sync_key: sync_key@, last_usn }),
            SyncAction::LookUp { records } => action@ == (ActionView::LookUp {
                records: records.deep_view(),
            }),
            SyncAction::RemoveFiles { fnames } => action@ == (ActionView::RemoveFiles {
                fnames: fnames.deep_view(),
            }),
            SyncAction::FetchZip { sync_key, requested } => action@ == (ActionView::FetchZip {
                sync_key: sync_key@,
                requested: requested.deep_view(),
            }),
            SyncAction::SaveFiles { files } => action@ == (ActionView::SaveFiles {
                files: files.deep_view(),
            }),
            SyncAction::RecordBatch { changes, added } => action@ == (ActionView::RecordBatch {
                changes: changes@,
                added: added.deep_view(),
            }),
            SyncAction::ListPending { limit } => action@ == (ActionView::ListPending { limit }),
            SyncAction::CheckName { fname } => action@ == (ActionView::CheckName {
                fname: fname@,
            }),
            SyncAction::ReadFile { fname } => action@ == (ActionView::ReadFile { fname: fname@ }),
            SyncAction::SendZip { sync_key, packed } => action@ == (ActionView::SendZip {
                sync_key: sync_key@,
                packed: packed@,
            }),
            SyncAction::MarkClean { fnames } => action@ == (ActionView::MarkClean {
                fnames: fnames.deep_view(),
            }),
            SyncAction::CountFiles => action@ is CountFiles,
            SyncAction::Finalize { sync_key, local } => action@ == (ActionView::Finalize {
                sync_key: sync_key@,
                local,
            }),
            SyncAction::Done => action@ is Done,
        },
{
}

} // verus!
