//! What holds of a sync as a whole, whatever the server, the media folder and the
//! database answer.

use crate::changes::{changes_for, RecordView};
use crate::database::EntryView;
use crate::protocol::finalized;
use crate::reconcile::{delivered, lemma_settled_batch_is_empty, one_per_file, recorded};
use crate::records::{
    lemma_sending_makes_progress, pending, with_clean, AddedFileView, Entries,
};
use crate::session::{
    accepts, action_of, addressed_to, entry_names, lemma_stays_sound, new_session,
    next_files, next_session, sound, ActionView, EventView, ProgressView, SessionView, StageView,
    SYNC_MAX_FILES,
};
use crate::upload::UploadFile;
use vstd::prelude::*;

verus! {

/// The session after the events, one after the other, or `None` where one of them
/// is not accepted or ends the sync with an error.
pub open spec fn run(session: SessionView, events: Seq<EventView>) -> Option<SessionView>
    decreases events.len(),
{
    if events.len() == 0 {
        Some(session)
    } else {
        match run(session, events.drop_last()) {
            None => None,
            Some(before) => if !accepts(before.stage, events.last()) {
                None
            } else {
                match next_session(before, events.last()) {
                    Ok(after) => Some(after),
                    Err(_) => None,
                }
            },
        }
    }
}

/// Every stage that a sync comes to is sound.
pub proof fn lemma_run_is_sound(hkey: Seq<char>, events: Seq<EventView>)
    ensures
        run(new_session(hkey), events) is Some ==> sound(run(new_session(hkey), events)->0.stage),
    decreases events.len(),
{
    if events.len() > 0 {
        lemma_run_is_sound(hkey, events.drop_last());
        match run(new_session(hkey), events.drop_last()) {
            Some(before) => {
                if accepts(before.stage, events.last()) {
                    lemma_stays_sound(before, events.last());
                }
            },
            None => {},
        }
    }
}

/// Whether the server has given the sync its key.
pub open spec fn has_key(stage: StageView) -> bool {
    !(stage is Registering || stage is ReadingUsn || stage is Beginning)
}

/// The key with which an action turns to the server, after the sync has begun.
pub open spec fn key_of(action: ActionView) -> Option<Seq<char>> {
    match action {
        ActionView::FetchRecords { sync_key, .. } => Some(sync_key),
        ActionView::FetchZip { sync_key, .. } => Some(sync_key),
        ActionView::SendZip { sync_key, .. } => Some(sync_key),
        ActionView::Finalize { sync_key, .. } => Some(sync_key),
        _ => None,
    }
}

/// Once the server has given the sync a key, every later request carries that
/// key.
pub proof fn lemma_requests_carry_key(session: SessionView, events: Seq<EventView>)
    requires
        has_key(session.stage),
        run(session, events) is Some,
    ensures
        ({
            let after = run(session, events)->0;
            &&& has_key(after.stage)
            &&& after.sync_key == session.sync_key
            &&& addressed_to(action_of(after)) is Some ==> key_of(action_of(after)) == Some(
                session.sync_key,
            )
        }),
    decreases events.len(),
{
    if events.len() > 0 {
        lemma_requests_carry_key(session, events.drop_last());
    }
}

/// Whether changes were fetched from the server, or there was something to upload.
pub open spec fn acted(events: Seq<EventView>) -> bool {
    exists|i: int|
        #![trigger events[i]]
        0 <= i < events.len() && (events[i] is Records || (events[i] is Pending
            && events[i]->files.len() > 0))
}

/// Whether the server was asked to compare the number of files, and was content.
pub open spec fn compared(events: Seq<EventView>) -> bool {
    exists|i: int|
        #![trigger events[i]]
        0 <= i < events.len() && events[i] is Finalized && finalized(events[i]->verdict) is Ok
}

proof fn lemma_acted_step(events: Seq<EventView>)
    requires
        events.len() > 0,
    ensures
        acted(events) == (acted(events.drop_last()) || events.last() is Records || (
        events.last() is Pending && events.last()->files.len() > 0)),
        compared(events) == (compared(events.drop_last()) || (events.last() is Finalized
            && finalized(events.last()->verdict) is Ok)),
{
    let before = events.drop_last();
    assert(events[events.len() - 1] == events.last());
    assert forall|i: int| 0 <= i < before.len() implies #[trigger] before[i] == events[i] by {}
    if acted(before) {
        let i = choose|i: int|
            #![trigger before[i]]
            0 <= i < before.len() && (before[i] is Records || (before[i] is Pending
                && before[i]->files.len() > 0));
        assert(events[i] == before[i]);
    }
    if compared(before) {
        let i = choose|i: int|
            #![trigger before[i]]
            0 <= i < before.len() && before[i] is Finalized && finalized(
                before[i]->verdict,
            ) is Ok;
        assert(events[i] == before[i]);
    }
    if acted(events) {
        let i = choose|i: int|
            #![trigger events[i]]
            0 <= i < events.len() && (events[i] is Records || (events[i] is Pending
                && events[i]->files.len() > 0));
        if i < before.len() {
            assert(before[i] == events[i]);
        }
    }
    if compared(events) {
        let i = choose|i: int|
            #![trigger events[i]]
            0 <= i < events.len() && events[i] is Finalized && finalized(
                events[i]->verdict,
            ) is Ok;
        if i < before.len() {
            assert(before[i] == events[i]);
        }
    }
}

proof fn lemma_acted_so_far(hkey: Seq<char>, events: Seq<EventView>)
    ensures
        match run(new_session(hkey), events) {
            None => true,
            Some(session) => match session.stage {
                StageView::Registering | StageView::ReadingUsn | StageView::Beginning { .. } => {
                    !acted(events) && !compared(events)
                },
                StageView::FetchingRecords { .. } => !compared(events),
                StageView::CheckingPending { acted: so_far } => {
                    acted(events) == so_far && !compared(events)
                },
                StageView::Complete => acted(events) == compared(events),
                _ => acted(events) && !compared(events),
            },
        },
    decreases events.len(),
{
    if events.len() > 0 {
        lemma_acted_so_far(hkey, events.drop_last());
        lemma_acted_step(events);
    }
}

/// A sync that is complete had the server compare the number of files, and the
/// server was content, just where changes were fetched or there was something
/// to upload.
pub proof fn lemma_compared_just_where_acted(hkey: Seq<char>, events: Seq<EventView>)
    requires
        run(new_session(hkey), events) is Some,
        run(new_session(hkey), events)->0.stage is Complete,
    ensures
        compared(events) <==> acted(events),
{
    lemma_acted_so_far(hkey, events);
}

/// Nothing comes after a complete sync.
pub proof fn lemma_complete_is_final(session: SessionView, events: Seq<EventView>)
    requires
        session.stage is Complete,
        events.len() > 0,
    ensures
        run(session, events) is None,
    decreases events.len(),
{
    if events.len() > 1 {
        lemma_complete_is_final(session, events.drop_last());
    } else {
        assert(run(session, events.drop_last()) == Some(session));
    }
}

/// Whether an archive that was unpacked whole has more files than are waited for.
pub open spec fn oversupplied(stage: StageView) -> bool {
    match stage {
        StageView::SavingFiles { batch: _, waiting, extraction } => extraction.failure is None
            && extraction.files.len() > waiting.len(),
        _ => false,
    }
}

/// A sync that is not complete waits for something that can come, unless the
/// server sent more files than were asked for.
pub proof fn lemma_never_stuck(stage: StageView)
    requires
        stage !is Complete,
        !oversupplied(stage),
    ensures
        exists|event: EventView| #[trigger] accepts(stage, event),
{
    let event = match stage {
        StageView::Registering => EventView::Registered,
        StageView::ReadingUsn => EventView::LastUsn { usn: 0 },
        StageView::Beginning { .. } => EventView::Began { reply: arbitrary() },
        StageView::FetchingRecords { .. } => EventView::Records { answer: arbitrary() },
        StageView::LookingUp { .. } => EventView::Found { entries: arbitrary() },
        StageView::RemovingFiles { .. } => EventView::FilesRemoved,
        StageView::FetchingZip { .. } => EventView::ZipFetched { data: arbitrary() },
        StageView::SavingFiles { batch: _, waiting: _, extraction } => EventView::FilesSaved {
            added: Seq::new(extraction.files.len(), |i: int| arbitrary()),
        },
        StageView::Recording { .. } => EventView::Recorded,
        StageView::CheckingPending { .. } => EventView::Pending { files: arbitrary() },
        StageView::ListingPending => EventView::Pending { files: arbitrary() },
        StageView::CheckingName { .. } => EventView::NameChecked { changed: false },
        StageView::ReadingFile { .. } => EventView::FileRead { bytes: None },
        StageView::Sending { .. } => EventView::Sent,
        StageView::MarkingClean { .. } => EventView::Recorded,
        StageView::Counting => EventView::Counted { count: 0 },
        StageView::Finalizing { .. } => EventView::Finalized { verdict: arbitrary() },
        StageView::Complete => arbitrary(),
    };
    assert(accepts(stage, event));
}

/// A request for files names at least one and at most [`SYNC_MAX_FILES`] of them:
/// those of the batch that come next after the ones that were added.
pub proof fn lemma_requests_take_turns(session: SessionView)
    requires
        sound(session.stage),
        session.stage is FetchingZip,
    ensures
        ({
            let batch = session.stage->FetchingZip_batch;
            let requested = action_of(session)->requested;
            let from = batch.added.len() as int;
            &&& action_of(session) is FetchZip
            &&& 1 <= requested.len() <= SYNC_MAX_FILES
            &&& from + requested.len() <= batch.changes.to_download.len()
            &&& requested == batch.changes.to_download.subrange(from, from + requested.len())
        }),
{
    let batch = session.stage->FetchingZip_batch;
    let all = batch.changes.to_download;
    let from = batch.added.len() as int;
    let requested = next_files(session.stage->FetchingZip_waiting);
    assert(requested =~= all.subrange(from, from + requested.len()));
}

/// How many files of a batch are still to be downloaded.
pub open spec fn left_to_download(stage: StageView) -> nat {
    match stage {
        StageView::FetchingZip { batch: _, waiting } => waiting.len(),
        StageView::SavingFiles { batch: _, waiting, extraction: _ } => waiting.len(),
        _ => 0,
    }
}

/// An archive with at least one file leaves fewer files to download, so a batch
/// comes to an end as long as the server sends any of its files.
pub proof fn lemma_download_makes_progress(session: SessionView, event: EventView)
    requires
        sound(session.stage),
        session.stage is SavingFiles,
        accepts(session.stage, event),
        session.stage->extraction.files.len() > 0,
        next_session(session, event) is Ok,
    ensures
        left_to_download(next_session(session, event)->Ok_0.stage) < left_to_download(
            session.stage,
        ),
{
}

/// The batch that a stage is about.
pub open spec fn progress_of(stage: StageView) -> Option<ProgressView> {
    match stage {
        StageView::RemovingFiles { batch } => Some(batch),
        StageView::FetchingZip { batch, .. } => Some(batch),
        StageView::SavingFiles { batch, .. } => Some(batch),
        StageView::Recording { batch } => Some(batch),
        _ => None,
    }
}

/// All files that were saved, in order.
pub open spec fn saved(events: Seq<EventView>) -> Seq<AddedFileView>
    decreases events.len(),
{
    if events.len() == 0 {
        Seq::empty()
    } else {
        let before = saved(events.drop_last());
        match events.last() {
            EventView::FilesSaved { added } => before + added,
            _ => before,
        }
    }
}

/// From the lookup of a batch until it is recorded, what is done is what the
/// batch's records call for, and what was added is what was saved.
pub proof fn lemma_batch_is_carried_out(
    session: SessionView,
    records: Seq<RecordView>,
    entries: Entries,
    events: Seq<EventView>,
)
    requires
        session.stage == (StageView::LookingUp { records }),
        events.len() > 0,
        events[0] == (EventView::Found { entries }),
        forall|i: int| #![trigger events[i]] 0 <= i < events.len() ==> events[i] !is Recorded,
        run(session, events) is Some,
    ensures
        progress_of(run(session, events)->0.stage) == Some(
            ProgressView {
                changes: changes_for(entries, records),
                added: saved(events),
                last_usn: records.last().usn,
            },
        ),
    decreases events.len(),
{
    let earlier = events.drop_last();
    if events.len() == 1 {
        assert(run(session, earlier) == Some(session));
        assert(saved(earlier) =~= Seq::empty());
    } else {
        assert(earlier[0] == events[0]);
        assert forall|i: int| #![trigger earlier[i]] 0 <= i < earlier.len() implies earlier[i]
            !is Recorded by {
            assert(earlier[i] == events[i]);
        }
        lemma_batch_is_carried_out(session, records, entries, earlier);
        assert(events[events.len() - 1] == events.last());
    }
}

/// A batch that comes to be recorded, and whose files the server sent as it had
/// announced them, is settled: after it is recorded, its records call for nothing
/// more.
pub proof fn lemma_fetched_batch_is_settled(
    session: SessionView,
    records: Seq<RecordView>,
    entries: Entries,
    events: Seq<EventView>,
)
    requires
        session.stage == (StageView::LookingUp { records }),
        events.len() > 0,
        events[0] == (EventView::Found { entries }),
        forall|i: int| #![trigger events[i]] 0 <= i < events.len() ==> events[i] !is Recorded,
        run(session, events) is Some,
        run(session, events)->0.stage is Recording,
        one_per_file(records),
        delivered(entries, records, saved(events)),
    ensures
        action_of(run(session, events)->0) == (ActionView::RecordBatch {
            changes: changes_for(entries, records),
            added: saved(events),
        }),
        ({
            let after = recorded(entries, changes_for(entries, records), saved(events));
            &&& changes_for(after, records).to_download.len() == 0
            &&& changes_for(after, records).to_delete.len() == 0
            &&& changes_for(after, records).to_remove_pending.len() == 0
        }),
{
    lemma_batch_is_carried_out(session, records, entries, events);
    lemma_settled_batch_is_empty(entries, records, saved(events));
}

/// After a batch is recorded, the changes that come after its last record are
/// fetched.
pub proof fn lemma_fetching_goes_on_after_batch(
    session: SessionView,
    records: Seq<RecordView>,
    entries: Entries,
    events: Seq<EventView>,
)
    requires
        session.stage == (StageView::LookingUp { records }),
        events.len() > 0,
        events[0] == (EventView::Found { entries }),
        forall|i: int| #![trigger events[i]] 0 <= i < events.len() ==> events[i] !is Recorded,
        run(session, events) is Some,
        run(session, events)->0.stage is Recording,
    ensures
        ({
            let after = run(session, events.push(EventView::Recorded));
            &&& after is Some
            &&& action_of(after->0) == (ActionView::FetchRecords {
                sync_key: session.sync_key,
                last_usn: records.last().usn,
            })
        }),
{
    lemma_batch_is_carried_out(session, records, entries, events);
    lemma_requests_carry_key(session, events);
    assert(events.push(EventView::Recorded).drop_last() =~= events);
}

/// What was read of the files to upload, in order.
pub open spec fn reads(events: Seq<EventView>) -> Seq<Option<Seq<u8>>>
    decreases events.len(),
{
    if events.len() == 0 {
        Seq::empty()
    } else {
        let before = reads(events.drop_last());
        match events.last() {
            EventView::FileRead { bytes } => before.push(bytes),
            _ => before,
        }
    }
}

/// The upload of the first files, as many as were read.
pub open spec fn upload_of(files: Seq<EntryView>, read: Seq<Option<Seq<u8>>>) -> Seq<UploadFile> {
    Seq::new(read.len(), |i: int| UploadFile { fname: files[i].fname, data: read[i] })
}

/// The names of the files that wait, and the upload, in the stages that have one.
pub open spec fn upload_in(stage: StageView) -> Option<(Seq<Seq<char>>, Seq<UploadFile>)> {
    match stage {
        StageView::CheckingName { pending, upload } => Some((entry_names(pending), upload)),
        StageView::ReadingFile { pending, upload } => Some((entry_names(pending), upload)),
        StageView::Sending { fnames, packed } => Some((fnames, packed)),
        _ => None,
    }
}

/// From the listing of the files that wait until they are sent, the upload is made
/// of those files, in their order and under their names, with the bytes that were
/// read of them.
pub proof fn lemma_upload_is_what_was_read(
    session: SessionView,
    files: Seq<EntryView>,
    events: Seq<EventView>,
)
    requires
        session.stage is ListingPending,
        files.len() > 0,
        events.len() > 0,
        events[0] == (EventView::Pending { files }),
        forall|i: int| #![trigger events[i]] 0 <= i < events.len() ==> events[i] !is Sent,
        run(session, events) is Some,
    ensures
        upload_in(run(session, events)->0.stage) == Some(
            (entry_names(files), upload_of(files, reads(events))),
        ),
    decreases events.len(),
{
    let earlier = events.drop_last();
    if events.len() == 1 {
        assert(run(session, earlier) == Some(session));
        assert(upload_of(files, reads(events)) =~= Seq::empty());
    } else {
        assert(earlier[0] == events[0]);
        assert forall|i: int| #![trigger earlier[i]] 0 <= i < earlier.len() implies earlier[i]
            !is Sent by {
            assert(earlier[i] == events[i]);
        }
        lemma_upload_is_what_was_read(session, files, earlier);
        assert(events[events.len() - 1] == events.last());
        lemma_same_names(session, files, earlier);
        let before = upload_of(files, reads(earlier));
        match events.last() {
            EventView::FileRead { bytes } => {
                assert(upload_of(files, reads(events)) =~= before.push(
                    UploadFile { fname: files[before.len() as int].fname, data: bytes },
                ));
            },
            _ => {},
        }
    }
}

/// While the upload is packed, the files that wait are the ones that were listed.
proof fn lemma_same_names(session: SessionView, files: Seq<EntryView>, events: Seq<EventView>)
    requires
        session.stage is ListingPending,
        files.len() > 0,
        events.len() > 0,
        events[0] == (EventView::Pending { files }),
        forall|i: int| #![trigger events[i]] 0 <= i < events.len() ==> events[i] !is Sent,
        run(session, events) is Some,
    ensures
        match run(session, events)->0.stage {
            StageView::CheckingName { pending, .. } => pending == files,
            StageView::ReadingFile { pending, .. } => pending == files,
            StageView::Sending { .. } => true,
            _ => false,
        },
    decreases events.len(),
{
    let earlier = events.drop_last();
    if events.len() == 1 {
        assert(run(session, earlier) == Some(session));
    } else {
        assert(earlier[0] == events[0]);
        assert forall|i: int| #![trigger earlier[i]] 0 <= i < earlier.len() implies earlier[i]
            !is Sent by {
            assert(earlier[i] == events[i]);
        }
        lemma_same_names(session, files, earlier);
        assert(events[events.len() - 1] == events.last());
    }
}

/// Once an upload is sent, all files that waited are marked clean, also those for
/// which it had no room. Where one of them was pending, fewer files are pending
/// afterwards, so sending comes to an end.
pub proof fn lemma_sent_files_are_marked(session: SessionView, entries: Entries, at: int)
    requires
        session.stage is Sending,
        entries.dom().finite(),
        0 <= at < session.stage->Sending_fnames.len(),
        pending(entries).contains(session.stage->Sending_fnames[at]),
    ensures
        ({
            let fnames = session.stage->Sending_fnames;
            let after = next_session(session, EventView::Sent);
            &&& accepts(session.stage, EventView::Sent)
            &&& after is Ok
            &&& action_of(after->Ok_0) == (ActionView::MarkClean { fnames })
            &&& pending(with_clean(entries, fnames)).len() < pending(entries).len()
        }),
{
    lemma_sending_makes_progress(entries, session.stage->Sending_fnames, at);
}

/// Whether two stages differ at most in what the database says of the files that
/// are being packed, besides their names.
pub open spec fn alike(a: StageView, b: StageView) -> bool {
    match (a, b) {
        (
            StageView::CheckingName { pending: f, upload: u },
            StageView::CheckingName { pending: g, upload: v },
        ) => entry_names(f) == entry_names(g) && u == v,
        (
            StageView::ReadingFile { pending: f, upload: u },
            StageView::ReadingFile { pending: g, upload: v },
        ) => entry_names(f) == entry_names(g) && u == v,
        _ => a == b,
    }
}

/// What is packed is decided by the names of the files and by what is read of them,
/// not by what the database says of them: alike sessions ask for the same, accept
/// the same events, and go on to alike sessions or fail with the same error.
pub proof fn lemma_packing_goes_by_names(a: SessionView, b: SessionView, event: EventView)
    requires
        sound(a.stage),
        sound(b.stage),
        alike(a.stage, b.stage),
        a.hkey == b.hkey,
        a.sync_key == b.sync_key,
    ensures
        action_of(a) == action_of(b),
        accepts(a.stage, event) == accepts(b.stage, event),
        accepts(a.stage, event) ==> match (next_session(a, event), next_session(b, event)) {
            (Ok(c), Ok(d)) => alike(c.stage, d.stage) && c.hkey == d.hkey && c.sync_key
                == d.sync_key,
            (Err(c), Err(d)) => c == d,
            _ => false,
        },
{
    match (a.stage, b.stage) {
        (
            StageView::CheckingName { pending: f, upload },
            StageView::CheckingName { pending: g, .. },
        ) => {
            lemma_same_name_at(f, g, upload.len() as int);
        },
        (
            StageView::ReadingFile { pending: f, upload },
            StageView::ReadingFile { pending: g, .. },
        ) => {
            lemma_same_name_at(f, g, upload.len() as int);
        },
        _ => {},
    }
}

proof fn lemma_same_name_at(f: Seq<EntryView>, g: Seq<EntryView>, at: int)
    requires
        entry_names(f) == entry_names(g),
        0 <= at < f.len(),
    ensures
        f.len() == g.len(),
        f[at].fname == g[at].fname,
{
    assert(f.len() == entry_names(f).len() && g.len() == entry_names(g).len());
    assert(f[at].fname == entry_names(f)[at] && g[at].fname == entry_names(g)[at]);
}

/// Packing and sending files of the same names, of which the same is read, comes to
/// the same: two syncs that were told of them go on alike, or fail alike, whatever
/// else the database says of the files.
pub proof fn lemma_uploads_go_by_names(
    session: SessionView,
    f: Seq<EntryView>,
    g: Seq<EntryView>,
    events: Seq<EventView>,
)
    requires
        session.stage is ListingPending,
        entry_names(f) == entry_names(g),
    ensures
        ({
            let first = run(session, seq![EventView::Pending { files: f }] + events);
            let second = run(session, seq![EventView::Pending { files: g }] + events);
            match (first, second) {
                (Some(a), Some(b)) => alike(a.stage, b.stage) && action_of(a) == action_of(b)
                    && upload_in(a.stage) == upload_in(b.stage),
                (None, None) => true,
                _ => false,
            }
        }),
{
    let told_f = seq![EventView::Pending { files: f }];
    let told_g = seq![EventView::Pending { files: g }];
    assert(f.len() == entry_names(f).len() && g.len() == entry_names(g).len());
    lemma_alike_runs(session, f, g, events);
    match (run(session, told_f + events), run(session, told_g + events)) {
        (Some(a), Some(b)) => {
            lemma_packing_goes_by_names(a, b, EventView::Sent);
        },
        _ => {},
    }
}

proof fn lemma_alike_runs(
    session: SessionView,
    f: Seq<EntryView>,
    g: Seq<EntryView>,
    events: Seq<EventView>,
)
    requires
        session.stage is ListingPending,
        entry_names(f) == entry_names(g),
        f.len() == g.len(),
    ensures
        ({
            let first = run(session, seq![EventView::Pending { files: f }] + events);
            let second = run(session, seq![EventView::Pending { files: g }] + events);
            match (first, second) {
                (Some(a), Some(b)) => {
                    &&& sound(a.stage)
                    &&& sound(b.stage)
                    &&& alike(a.stage, b.stage)
                    &&& a.hkey == b.hkey
                    &&& a.sync_key == b.sync_key
                },
                (None, None) => true,
                _ => false,
            }
        }),
    decreases events.len(),
{
    let told_f = seq![EventView::Pending { files: f }];
    let told_g = seq![EventView::Pending { files: g }];
    if events.len() == 0 {
        assert(told_f + events =~= told_f);
        assert(told_g + events =~= told_g);
        assert(told_f.drop_last() =~= Seq::empty());
        assert(told_g.drop_last() =~= Seq::empty());
        reveal_with_fuel(run, 2);
        lemma_stays_sound(session, told_f[0]);
        lemma_stays_sound(session, told_g[0]);
    } else {
        let earlier = events.drop_last();
        lemma_alike_runs(session, f, g, earlier);
        assert((told_f + events).drop_last() =~= told_f + earlier);
        assert((told_g + events).drop_last() =~= told_g + earlier);
        match (run(session, told_f + earlier), run(session, told_g + earlier)) {
            (Some(a), Some(b)) => {
                lemma_packing_goes_by_names(a, b, events.last());
                if accepts(a.stage, events.last()) {
                    lemma_stays_sound(a, events.last());
                    lemma_stays_sound(b, events.last());
                }
            },
            _ => {},
        }
    }
}

/// While an upload is packed, nothing is asked for but to normalize the name of a
/// file and to read it, so the media folder stays as it is.
pub proof fn lemma_packing_only_reads(session: SessionView)
    requires
        session.stage is CheckingName || session.stage is ReadingFile,
    ensures
        action_of(session) is CheckName || action_of(session) is ReadFile,
{
}

/// Whether the last listing of the files that wait for their upload was empty.
pub open spec fn none_pending(events: Seq<EventView>) -> bool {
    exists|i: int|
        #![trigger events[i]]
        0 <= i < events.len() && events[i] is Pending && events[i]->files.len() == 0 && (forall|
            j: int,
        |
            #![trigger events[j]]
            i < j < events.len() ==> events[j] !is Pending)
}

proof fn lemma_none_pending_step(events: Seq<EventView>)
    requires
        events.len() > 0,
    ensures
        events.last() is Pending && events.last()->files.len() == 0 ==> none_pending(events),
        events.last() !is Pending && none_pending(events.drop_last()) ==> none_pending(events),
{
    let before = events.drop_last();
    let last = events.len() - 1;
    assert(events[last] == events.last());
    if events.last() !is Pending && none_pending(before) {
        let i = choose|i: int|
            #![trigger before[i]]
            0 <= i < before.len() && before[i] is Pending && before[i]->files.len() == 0 && (
            forall|j: int|
                #![trigger before[j]]
                i < j < before.len() ==> before[j] !is Pending);
        assert(events[i] == before[i]);
        assert forall|j: int| #![trigger events[j]] i < j < events.len() implies events[j]
            !is Pending by {
            if j < last {
                assert(events[j] == before[j]);
            }
        }
    }
}

/// Once the files are counted, and when the sync is complete, the last listing of
/// the files that wait for their upload was empty.
pub proof fn lemma_nothing_left_to_upload(hkey: Seq<char>, events: Seq<EventView>)
    ensures
        match run(new_session(hkey), events) {
            None => true,
            Some(session) => session.stage is Counting || session.stage is Finalizing
                || session.stage is Complete ==> none_pending(events),
        },
    decreases events.len(),
{
    if events.len() > 0 {
        lemma_nothing_left_to_upload(hkey, events.drop_last());
        lemma_none_pending_step(events);
    }
}

} // verus!
