//! What a change on the server means for the client's copy of a file.

use crate::database::{MediaDatabaseContext, SHA1_LEN};
use crate::records::Entries;
use crate::text::same_text;
use vstd::prelude::*;

verus! {

/// What the client knows of a file that changed on the server.
#[derive(Debug, Clone, Copy, PartialEq, Eq, Structural)]
pub enum LocalState {
    NotInDB,
    InDBNotPending,
    InDBAndPending,
}

/// What the client has to do about a file that changed on the server.
#[derive(Debug, Clone, Copy, PartialEq, Eq, Structural)]
pub enum RequiredChange {
    /// Nothing, or nothing yet: the file may be uploaded later.
    Nothing,
    Download,
    Delete,
    RemovePending,
}

/// A file that changed on the server. The checksum is empty where the file was
/// deleted.
#[derive(Debug)]
pub struct ServerMediaRecord {
    pub fname: String,
    pub usn: i32,
    pub sha1: String,
}

/// What contracts say of a [`ServerMediaRecord`].
#[verifier::ext_equal]
pub struct RecordView {
    pub fname: Seq<char>,
    pub usn: i32,
    pub sha1: Seq<char>,
}

impl View for ServerMediaRecord {
    type V = RecordView;

    open spec fn view(&self) -> RecordView {
        RecordView { fname: self.fname@, usn: self.usn, sha1: self.sha1@ }
    }
}

impl DeepView for ServerMediaRecord {
    type V = RecordView;

    open spec fn deep_view(&self) -> RecordView {
        self@
    }
}

/// The lower-case hexadecimal digit for `d`.
pub open spec fn hex_digit(d: int) -> char {
    "0123456789abcdef"@[d]
}

/// The bytes in hexadecimal, two lower-case digits for each.
pub open spec fn hex_digits(bytes: Seq<u8>) -> Seq<char> {
    Seq::new(
        2 * bytes.len(),
        |i: int|
            if i % 2 == 0 {
                hex_digit(bytes[i / 2] as int / 16)
            } else {
                hex_digit(bytes[i / 2] as int % 16)
            },
    )
}

/// A checksum in hexadecimal.
///
/// Calls `hex::encode`, which writes each byte as two lower-case digits, the high
/// half first.
#[verifier::external_body]
fn hex_encode(sha1: &[u8; SHA1_LEN]) -> (text: String)
    ensures
        text@ == hex_digits(sha1@),
{
    hex::encode(sha1)
}

/// What has to be done about a file, given both checksums (empty for a file that
/// is not there) and what the client knows of the file.
///
/// The server wins where both have the file. A file that the server deleted is
/// kept where the client's own copy is still to be uploaded.
pub open spec fn required_change(
    local_sha1: Seq<char>,
    remote_sha1: Seq<char>,
    local_state: LocalState,
) -> RequiredChange {
    let on_client = local_sha1.len() > 0;
    let on_server = remote_sha1.len() > 0;
    let pending = local_state is InDBAndPending;
    if on_server && local_sha1 != remote_sha1 {
        RequiredChange::Download
    } else if on_server && pending {
        RequiredChange::RemovePending
    } else if !on_server && (if on_client { !pending } else { local_state !is NotInDB }) {
        RequiredChange::Delete
    } else {
        RequiredChange::Nothing
    }
}

/// Decides what has to be done about a file that changed on the server.
pub fn determine_required_change(
    local_sha1: &str,
    remote_sha1: &str,
    local_state: LocalState,
) -> (change: RequiredChange)
    ensures
        change == required_change(local_sha1@, remote_sha1@, local_state),
        change == RequiredChange::Download <==> remote_sha1@.len() > 0 && remote_sha1@
            != local_sha1@,
        change == RequiredChange::RemovePending <==> remote_sha1@.len() > 0 && remote_sha1@
            == local_sha1@ && local_state == LocalState::InDBAndPending,
        change == RequiredChange::Delete <==> remote_sha1@.len() == 0 && (local_state
            == LocalState::InDBNotPending || (local_state == LocalState::InDBAndPending
            && local_sha1@.len() == 0) || (local_state == LocalState::NotInDB && local_sha1@.len()
            > 0)),
{
    let same = same_text(local_sha1, remote_sha1);
    match (local_sha1.is_empty(), remote_sha1.is_empty(), local_state) {
        // both deleted, not in local DB
        (true, true, LocalState::NotInDB) => RequiredChange::Nothing,
        // both deleted, in local DB
        (true, true, _) => RequiredChange::Delete,
        // added on server, add even if local deletion pending
        (true, false, _) => RequiredChange::Download,
        // deleted on server but added locally; upload later
        (false, true, LocalState::InDBAndPending) => RequiredChange::Nothing,
        // deleted on server and not pending sync
        (false, true, _) => RequiredChange::Delete,
        // if pending but the same as server, don't need to upload
        (false, false, LocalState::InDBAndPending) if same => RequiredChange::RemovePending,
        (false, false, _) => {
            if same {
                // not pending and same as server, nothing to do
                RequiredChange::Nothing
            } else {
                // differs from server, favour server
                RequiredChange::Download
            }
        },
    }
}

/// The checksum that the client has of a file: empty where it has none.
pub open spec fn local_sha1(entries: Entries, fname: Seq<char>) -> Seq<char> {
    if entries.contains_key(fname) {
        match entries[fname].sha1 {
            Some(sum) => hex_digits(sum),
            None => Seq::empty(),
        }
    } else {
        Seq::empty()
    }
}

/// What the client knows of a file.
pub open spec fn local_state(entries: Entries, fname: Seq<char>) -> LocalState {
    if !entries.contains_key(fname) {
        LocalState::NotInDB
    } else if entries[fname].sync_required {
        LocalState::InDBAndPending
    } else {
        LocalState::InDBNotPending
    }
}

/// What has to be done about a record of the server.
pub open spec fn change_for(entries: Entries, record: RecordView) -> RequiredChange {
    required_change(
        local_sha1(entries, record.fname),
        record.sha1,
        local_state(entries, record.fname),
    )
}

/// The files of the records that call for `change`, in the records' order.
pub open spec fn files_to(
    change: RequiredChange,
    entries: Entries,
    records: Seq<RecordView>,
) -> Seq<Seq<char>> {
    records.filter(|record: RecordView| change_for(entries, record) == change).map_values(
        |record: RecordView| record.fname,
    )
}

/// The files that a batch of records calls on the client to do something about.
#[derive(Debug)]
pub struct RequiredChanges {
    pub to_download: Vec<String>,
    pub to_delete: Vec<String>,
    pub to_remove_pending: Vec<String>,
}

/// What contracts say of [`RequiredChanges`].
#[verifier::ext_equal]
pub struct ChangesView {
    pub to_download: Seq<Seq<char>>,
    pub to_delete: Seq<Seq<char>>,
    pub to_remove_pending: Seq<Seq<char>>,
}

impl View for RequiredChanges {
    type V = ChangesView;

    open spec fn view(&self) -> ChangesView {
        ChangesView {
            to_download: self.to_download.deep_view(),
            to_delete: self.to_delete.deep_view(),
            to_remove_pending: self.to_remove_pending.deep_view(),
        }
    }
}

/// What a batch of records calls for.
pub open spec fn changes_for(entries: Entries, records: Seq<RecordView>) -> ChangesView {
    ChangesView {
        to_download: files_to(RequiredChange::Download, entries, records),
        to_delete: files_to(RequiredChange::Delete, entries, records),
        to_remove_pending: files_to(RequiredChange::RemovePending, entries, records),
    }
}

pub(crate) proof fn lemma_files_to_push(
    change: RequiredChange,
    entries: Entries,
    records: Seq<RecordView>,
    record: RecordView,
)
    ensures
        files_to(change, entries, records.push(record)) == (if change_for(entries, record)
            == change {
            files_to(change, entries, records).push(record.fname)
        } else {
            files_to(change, entries, records)
        }),
{
    let wanted = |record: RecordView| change_for(entries, record) == change;
    let fname = |record: RecordView| record.fname;
    reveal(Seq::filter);
    assert(records.push(record).drop_last() =~= records);
    if wanted(record) {
        assert(records.push(record).filter(wanted).map_values(fname) =~= records.filter(
            wanted,
        ).map_values(fname).push(record.fname));
    }
}

/// The client's side of a comparison: the checksum that it has of a file, empty where
/// it has none, and what it knows of the file.
pub fn local_copy(ctx: &MediaDatabaseContext, fname: &String) -> (copy: (String, LocalState))
    ensures
        copy.0@ == local_sha1(ctx@, fname@),
        copy.1 == local_state(ctx@, fname@),
{
    match ctx.get_entry(fname) {
        Some(entry) => (
            match entry.sha1 {
                Some(sum) => hex_encode(&sum),
                None => String::new(),
            },
            if entry.sync_required {
                LocalState::InDBAndPending
            } else {
                LocalState::InDBNotPending
            },
        ),
        None => (String::new(), LocalState::NotInDB),
    }
}

/// Sorts the files of a batch of records by what has to be done about them.
pub fn determine_required_changes(
    ctx: &MediaDatabaseContext,
    records: &Vec<ServerMediaRecord>,
) -> (changes: RequiredChanges)
    ensures
        changes@ == changes_for(ctx@, records.deep_view()),
{
    let ghost all = records.deep_view();
    let mut to_download: Vec<String> = Vec::new();
    let mut to_delete: Vec<String> = Vec::new();
    let mut to_remove_pending: Vec<String> = Vec::new();
    let mut i: usize = 0;
    proof {
        reveal(Seq::filter);
        assert(to_download.deep_view() =~= changes_for(ctx@, all.take(0)).to_download);
        assert(to_delete.deep_view() =~= changes_for(ctx@, all.take(0)).to_delete);
        assert(to_remove_pending.deep_view() =~= changes_for(
            ctx@,
            all.take(0),
        ).to_remove_pending);
    }
    while i < records.len()
        invariant
            i <= records.len(),
            all == records.deep_view(),
            changes_for(ctx@, all.take(i as int)) == (ChangesView {
                to_download: to_download.deep_view(),
                to_delete: to_delete.deep_view(),
                to_remove_pending: to_remove_pending.deep_view(),
            }),
        decreases records.len() - i,
    {
        let remote = &records[i];
        let (sha1, state) = local_copy(ctx, &remote.fname);
        let change = determine_required_change(sha1.as_str(), remote.sha1.as_str(), state);
        let ghost so_far = changes_for(ctx@, all.take(i as int));
        let ghost record = all[i as int];
        proof {
            assert(change == change_for(ctx@, record));
            assert(all.take(i + 1) =~= all.take(i as int).push(record));
            lemma_files_to_push(RequiredChange::Download, ctx@, all.take(i as int), record);
            lemma_files_to_push(RequiredChange::Delete, ctx@, all.take(i as int), record);
            lemma_files_to_push(RequiredChange::RemovePending, ctx@, all.take(i as int), record);
        }
        match change {
            RequiredChange::Download => {
                to_download.push(remote.fname.clone());
                assert(to_download.deep_view() =~= so_far.to_download.push(record.fname));
            },
            RequiredChange::Delete => {
                to_delete.push(remote.fname.clone());
                assert(to_delete.deep_view() =~= so_far.to_delete.push(record.fname));
            },
            RequiredChange::RemovePending => {
                to_remove_pending.push(remote.fname.clone());
                assert(to_remove_pending.deep_view() =~= so_far.to_remove_pending.push(
                    record.fname,
                ));
            },
            RequiredChange::Nothing => {},
        }
        i += 1;
    }
    assert(all.take(records.len() as int) =~= all);
    RequiredChanges { to_download, to_delete, to_remove_pending }
}

/// A file is downloaded just where the server has it and it differs from the
/// client's copy, whatever else the client knows of it.
pub proof fn lemma_download_where_server_differs(
    local_sha1: Seq<char>,
    remote_sha1: Seq<char>,
    state: LocalState,
)
    ensures
        required_change(local_sha1, remote_sha1, state) == RequiredChange::Download
            <==> remote_sha1.len() > 0 && remote_sha1 != local_sha1,
{
}

/// A pending mark is taken off just where both sides have the same file.
pub proof fn lemma_remove_pending_where_same(
    local_sha1: Seq<char>,
    remote_sha1: Seq<char>,
    state: LocalState,
)
    ensures
        required_change(local_sha1, remote_sha1, state) == RequiredChange::RemovePending
            <==> remote_sha1.len() > 0 && remote_sha1 == local_sha1 && state
            == LocalState::InDBAndPending,
{
}

/// A file that the server deleted is deleted just where the client knows of it and has
/// no copy of its own that is still to be uploaded.
pub proof fn lemma_delete_where_server_deleted(
    local_sha1: Seq<char>,
    remote_sha1: Seq<char>,
    state: LocalState,
)
    ensures
        required_change(local_sha1, remote_sha1, state) == RequiredChange::Delete
            <==> remote_sha1.len() == 0 && (state == LocalState::InDBNotPending || (state
            == LocalState::InDBAndPending && local_sha1.len() == 0) || (state
            == LocalState::NotInDB && local_sha1.len() > 0)),
{
}

/// The digits of a byte, in the place of that byte: they have its value, and are
/// lower-case.
pub proof fn lemma_hex_digits(bytes: Seq<u8>, i: int)
    requires
        0 <= i < bytes.len(),
    ensures
        hex_digits(bytes).len() == 2 * bytes.len(),
        ({
            let high = hex_digits(bytes)[2 * i] as int;
            let low = hex_digits(bytes)[2 * i + 1] as int;
            let value = |c: int| if c <= '9' as int { c - '0' as int } else { c - 'a' as int + 10 };
            &&& '0' as int <= high <= '9' as int || 'a' as int <= high <= 'f' as int
            &&& '0' as int <= low <= '9' as int || 'a' as int <= low <= 'f' as int
            &&& bytes[i] == 16 * value(high) + value(low)
        }),
{
    reveal_strlit("0123456789abcdef");
    assert((2 * i) / 2 == i && (2 * i) % 2 == 0);
    assert((2 * i + 1) / 2 == i && (2 * i + 1) % 2 == 1);
    let high = bytes[i] as int / 16;
    let low = bytes[i] as int % 16;
    assert(hex_digit(high) as int == if high < 10 { '0' as int + high } else { 'a' as int + high - 10 });
    assert(hex_digit(low) as int == if low < 10 { '0' as int + low } else { 'a' as int + low - 10 });
}

/// What the client has of a file is what its entry says: the checksum in
/// hexadecimal, and whether the file is pending.
pub proof fn lemma_local_copy(entries: Entries, fname: Seq<char>)
    ensures
        !entries.contains_key(fname) ==> local_sha1(entries, fname).len() == 0 && local_state(
            entries,
            fname,
        ) == LocalState::NotInDB,
        entries.contains_key(fname) && entries[fname].sha1 is None ==> local_sha1(
            entries,
            fname,
        ).len() == 0,
        entries.contains_key(fname) && entries[fname].sha1 is Some ==> local_sha1(entries, fname)
            == hex_digits(entries[fname].sha1->0),
        entries.contains_key(fname) && entries[fname].sync_required ==> local_state(entries, fname)
            == LocalState::InDBAndPending,
        entries.contains_key(fname) && !entries[fname].sync_required ==> local_state(entries, fname)
            == LocalState::InDBNotPending,
{
}

/// No records call for nothing.
pub proof fn lemma_no_records_no_changes(entries: Entries, records: Seq<RecordView>)
    requires
        records.len() == 0,
    ensures
        changes_for(entries, records).to_download.len() == 0,
        changes_for(entries, records).to_delete.len() == 0,
        changes_for(entries, records).to_remove_pending.len() == 0,
{
    reveal(Seq::filter);
}

/// One record more puts its file at the end of the list that it calls for, and leaves
/// the other lists alone: to be downloaded where the server has another file than the
/// client, to be taken off the pending ones where both have the same and it is
/// pending, and to be deleted where the server deleted it and the client knows of it
/// and has nothing of its own to upload.
pub proof fn lemma_one_more_record(entries: Entries, records: Seq<RecordView>, record: RecordView)
    ensures
        ({
            let before = changes_for(entries, records);
            let after = changes_for(entries, records.push(record));
            let fname = record.fname;
            let known = entries.contains_key(fname);
            let pending = known && entries[fname].sync_required;
            let has_file = known && entries[fname].sha1 is Some && entries[fname].sha1->0.len() > 0;
            let on_server = record.sha1.len() > 0;
            let same = has_file && hex_digits(entries[fname].sha1->0) == record.sha1;
            &&& after.to_download == if on_server && !same {
                before.to_download.push(fname)
            } else {
                before.to_download
            }
            &&& after.to_remove_pending == if on_server && same && pending {
                before.to_remove_pending.push(fname)
            } else {
                before.to_remove_pending
            }
            &&& after.to_delete == if !on_server && known && !(has_file && pending) {
                before.to_delete.push(fname)
            } else {
                before.to_delete
            }
        }),
{
    lemma_files_to_push(RequiredChange::Download, entries, records, record);
    lemma_files_to_push(RequiredChange::Delete, entries, records, record);
    lemma_files_to_push(RequiredChange::RemovePending, entries, records, record);
    lemma_local_copy(entries, record.fname);
}

/// A record says its file's name, its number and its checksum, and nothing is lost of
/// them.
pub proof fn lemma_record_says(record: ServerMediaRecord)
    ensures
        record@.fname == record.fname@,
        record@.usn == record.usn,
        record@.sha1 == record.sha1@,
        record.deep_view() == record@,
{
}

/// The three lists of changes are told apart.
pub proof fn lemma_changes_say(changes: RequiredChanges)
    ensures
        changes@.to_download == changes.to_download.deep_view(),
        changes@.to_delete == changes.to_delete.deep_view(),
        changes@.to_remove_pending == changes.to_remove_pending.deep_view(),
{
}

} // verus!
