//! Recording a batch of the server's changes once they have been carried out.

use crate::changes::{
    change_for, changes_for, files_to, hex_digits, lemma_files_to_push, local_sha1, local_state,
    ChangesView, RecordView, RequiredChange, RequiredChanges,
};
use crate::database::{MediaDatabaseContext, MediaEntry};
use crate::records::{
    added_entry, record_additions, record_clean, record_removals, with_added, with_clean, without,
    AddedFile, AddedFileView, Entries,
};
use vstd::prelude::*;

verus! {

/// The entries after a batch: those of deleted files are gone, those of the
/// added files are there, and nothing is pending for files that turned out to be
/// the same on both sides.
pub open spec fn recorded(
    entries: Entries,
    changes: ChangesView,
    added: Seq<AddedFileView>,
) -> Entries {
    with_clean(
        with_added(without(entries, changes.to_delete), added),
        changes.to_remove_pending,
    )
}

/// Records a batch: what was deleted, what was added, what needs no upload.
pub fn record_batch(
    ctx: &mut MediaDatabaseContext,
    changes: &RequiredChanges,
    added: &Vec<AddedFile>,
)
    ensures
        final(ctx)@ == recorded(old(ctx)@, changes@, added.deep_view()),
{
    record_removals(ctx, &changes.to_delete);
    record_additions(ctx, added);
    record_clean(ctx, &changes.to_remove_pending);
}

/// The files that recording a batch is about: those that were deleted, those that
/// were added, and those that need no upload.
pub open spec fn batch_names(changes: ChangesView, added: Seq<AddedFileView>) -> Seq<Seq<char>> {
    changes.to_delete + added.map_values(|file: AddedFileView| file.fname)
        + changes.to_remove_pending
}

/// Whether recording a batch is about a file.
pub open spec fn in_batch(
    changes: ChangesView,
    added: Seq<AddedFileView>,
    fname: Seq<char>,
) -> bool {
    ||| changes.to_delete.contains(fname)
    ||| changes.to_remove_pending.contains(fname)
    ||| exists|k: int| #![trigger added[k]] 0 <= k < added.len() && added[k].fname == fname
}

proof fn lemma_batch_names(changes: ChangesView, added: Seq<AddedFileView>, fname: Seq<char>)
    ensures
        batch_names(changes, added).contains(fname) == in_batch(changes, added, fname),
{
    let all = batch_names(changes, added);
    let names = added.map_values(|file: AddedFileView| file.fname);
    let first = changes.to_delete.len() as int;
    let second = first + names.len();
    if changes.to_delete.contains(fname) {
        let k = choose|k: int| 0 <= k < first && changes.to_delete[k] == fname;
        assert(all[k] == fname);
    }
    if exists|k: int| #![trigger added[k]] 0 <= k < added.len() && added[k].fname == fname {
        let k = choose|k: int|
            #![trigger added[k]]
            0 <= k < added.len() && added[k].fname == fname;
        assert(all[first + k] == fname);
    }
    if changes.to_remove_pending.contains(fname) {
        let k = choose|k: int|
            0 <= k < changes.to_remove_pending.len() && changes.to_remove_pending[k] == fname;
        assert(all[second + k] == fname);
    }
    if all.contains(fname) {
        let k = choose|k: int| 0 <= k < all.len() && all[k] == fname;
        if k < first {
            assert(changes.to_delete[k] == fname);
        } else if k < second {
            assert(added[k - first].fname == fname);
        } else {
            assert(changes.to_remove_pending[k - second] == fname);
        }
    }
}

/// Adds copies of `more` to the names.
fn extend_names(names: &mut Vec<String>, more: &Vec<String>)
    ensures
        final(names).deep_view() == old(names).deep_view() + more.deep_view(),
{
    let ghost before = names.deep_view();
    let mut i: usize = 0;
    assert(names.deep_view() =~= before + more.deep_view().take(0));
    while i < more.len()
        invariant
            i <= more.len(),
            names.deep_view() == before + more.deep_view().take(i as int),
        decreases more.len() - i,
    {
        let ghost so_far = names.deep_view();
        names.push(more[i].clone());
        proof {
            assert(names.deep_view() =~= so_far.push(more[i as int]@));
            assert(names.deep_view() =~= before + more.deep_view().take(i + 1));
        }
        i += 1;
    }
    assert(more.deep_view().take(i as int) =~= more.deep_view());
}

/// The files whose entries recording a batch may change. A database need not look at
/// any others.
pub fn batch_files(changes: &RequiredChanges, added: &Vec<AddedFile>) -> (fnames: Vec<String>)
    ensures
        fnames.deep_view() == batch_names(changes@, added.deep_view()),
        forall|fname: Seq<char>| #[trigger]
            fnames.deep_view().contains(fname) <==> in_batch(changes@, added.deep_view(), fname),
        fnames.deep_view() == changes.to_delete.deep_view() + Seq::new(
            added@.len(),
            |i: int| added@[i].fname@,
        ) + changes.to_remove_pending.deep_view(),
{
    let ghost names = added.deep_view().map_values(|file: AddedFileView| file.fname);
    let mut fnames: Vec<String> = Vec::new();
    extend_names(&mut fnames, &changes.to_delete);
    let ghost before = fnames.deep_view();
    assert(before =~= changes@.to_delete);
    let mut i: usize = 0;
    assert(fnames.deep_view() =~= before + names.take(0));
    while i < added.len()
        invariant
            i <= added.len(),
            names == added.deep_view().map_values(|file: AddedFileView| file.fname),
            fnames.deep_view() == before + names.take(i as int),
        decreases added.len() - i,
    {
        let ghost so_far = fnames.deep_view();
        fnames.push(added[i].fname.clone());
        proof {
            assert(fnames.deep_view() =~= so_far.push(names[i as int]));
            assert(fnames.deep_view() =~= before + names.take(i + 1));
        }
        i += 1;
    }
    assert(names.take(i as int) =~= names);
    extend_names(&mut fnames, &changes.to_remove_pending);
    proof {
        assert(names =~= Seq::new(added@.len(), |i: int| added@[i].fname@));
        assert forall|fname: Seq<char>| #[trigger]
            fnames.deep_view().contains(fname) <==> in_batch(changes@, added.deep_view(), fname) by {
            lemma_batch_names(changes@, added.deep_view(), fname);
        }
    }
    fnames
}

/// What has to be done about a file's entry so that a database comes to say what
/// another one says of the file.
#[derive(Debug)]
pub enum EntryChange {
    /// Nothing: both say the same.
    Keep,
    /// Write this entry.
    Write { entry: MediaEntry },
    /// Remove the entry.
    Remove,
}

/// Compares what two databases say of a file.
pub fn entry_change(
    before: &MediaDatabaseContext,
    after: &MediaDatabaseContext,
    fname: &String,
) -> (change: EntryChange)
    ensures
        match change {
            EntryChange::Keep => agree_on(before@, after@, fname@),
            EntryChange::Write { entry } => {
                &&& !agree_on(before@, after@, fname@)
                &&& after@.contains_pair(fname@, entry@)
                &&& entry@.fname == fname@
            },
            EntryChange::Remove => before@.contains_key(fname@) && !after@.contains_key(fname@),
        },
        change is Keep <==> before@.contains_key(fname@) == after@.contains_key(fname@) && (
        after@.contains_key(fname@) ==> before@[fname@] == after@[fname@]),
{
    match (before.get_entry(fname), after.get_entry(fname)) {
        (None, None) => EntryChange::Keep,
        (Some(_), None) => EntryChange::Remove,
        (None, Some(entry)) => EntryChange::Write { entry },
        (Some(old_entry), Some(entry)) => {
            if old_entry.same_as(&entry) {
                EntryChange::Keep
            } else {
                EntryChange::Write { entry }
            }
        },
    }
}

/// No two records of the batch are about the same file.
pub open spec fn one_per_file(records: Seq<RecordView>) -> bool {
    forall|i: int, j: int|
        #![trigger records[i], records[j]]
        0 <= i < records.len() && 0 <= j < records.len() && records[i].fname == records[j].fname
            ==> i == j
}

/// The records that call for a download.
pub open spec fn downloads(entries: Entries, records: Seq<RecordView>) -> Seq<RecordView> {
    records.filter(
        |record: RecordView| change_for(entries, record) == RequiredChange::Download,
    )
}

/// The added files are the ones that were to be downloaded, under the names and
/// with the checksums that the server gave.
pub open spec fn delivered(
    entries: Entries,
    records: Seq<RecordView>,
    added: Seq<AddedFileView>,
) -> bool {
    let wanted = downloads(entries, records);
    &&& added.len() == wanted.len()
    &&& forall|i: int|
        #![trigger added[i]]
        0 <= i < added.len() ==> added[i].fname == wanted[i].fname && hex_digits(added[i].sha1)
            == wanted[i].sha1
}

proof fn lemma_filtered_from(
    records: Seq<RecordView>,
    pred: spec_fn(RecordView) -> bool,
    at: int,
)
    requires
        0 <= at < records.filter(pred).len(),
    ensures
        exists|i: int|
            #![trigger records[i]]
            0 <= i < records.len() && records[i] == records.filter(pred)[at] && pred(records[i]),
    decreases records.len(),
{
    reveal(Seq::filter);
    let rest = records.drop_last();
    if at < rest.filter(pred).len() {
        lemma_filtered_from(rest, pred, at);
        let i = choose|i: int|
            #![trigger rest[i]]
            0 <= i < rest.len() && rest[i] == rest.filter(pred)[at] && pred(rest[i]);
        assert(records[i] == rest[i]);
    } else {
        assert(records[records.len() - 1] == records.last());
    }
}

proof fn lemma_listed_to(
    change: RequiredChange,
    entries: Entries,
    records: Seq<RecordView>,
    at: int,
)
    requires
        one_per_file(records),
        0 <= at < records.len(),
    ensures
        files_to(change, entries, records).contains(records[at].fname) <==> change_for(
            entries,
            records[at],
        ) == change,
{
    let wanted = |record: RecordView| change_for(entries, record) == change;
    let fname = |record: RecordView| record.fname;
    let chosen = records.filter(wanted);
    let files = files_to(change, entries, records);
    assert(files =~= chosen.map_values(fname));
    if files.contains(records[at].fname) {
        let k = choose|k: int| 0 <= k < files.len() && files[k] == records[at].fname;
        lemma_filtered_from(records, wanted, k);
        let i = choose|i: int|
            #![trigger records[i]]
            0 <= i < records.len() && records[i] == chosen[k] && wanted(records[i]);
        assert(records[i].fname == records[at].fname);
    }
    if wanted(records[at]) {
        records.lemma_filter_contains(wanted, at);
        let k = choose|k: int| 0 <= k < chosen.len() && chosen[k] == records[at];
        assert(files[k] == records[at].fname);
    }
}

proof fn lemma_added_lookup(entries: Entries, added: Seq<AddedFileView>, fname: Seq<char>)
    ensures
        (exists|k: int|
            #![trigger added[k]]
            0 <= k < added.len() && added[k].fname == fname && with_added(
                entries,
                added,
            ).contains_pair(fname, added_entry(added[k]))) || {
            &&& forall|k: int| #![trigger added[k]] 0 <= k < added.len() ==> added[k].fname != fname
            &&& with_added(entries, added).contains_key(fname) == entries.contains_key(fname)
            &&& with_added(entries, added)[fname] == entries[fname]
        },
    decreases added.len(),
{
    if added.len() > 0 {
        let rest = added.drop_last();
        let last = added.len() - 1;
        lemma_added_lookup(entries, rest, fname);
        if added[last].fname == fname {
            assert(with_added(entries, added).contains_pair(fname, added_entry(added[last])));
        } else if exists|k: int|
            #![trigger rest[k]]
            0 <= k < rest.len() && rest[k].fname == fname && with_added(
                entries,
                rest,
            ).contains_pair(fname, added_entry(rest[k])) {
            let k = choose|k: int|
                #![trigger rest[k]]
                0 <= k < rest.len() && rest[k].fname == fname && with_added(
                    entries,
                    rest,
                ).contains_pair(fname, added_entry(rest[k]));
            assert(added[k] == rest[k]);
        } else {
            assert forall|k: int| #![trigger added[k]] 0 <= k < added.len() implies added[k].fname
                != fname by {
                if k < last {
                    assert(rest[k] == added[k]);
                }
            }
        }
    }
}

/// After a batch was carried out as the server described it, and recorded, none
/// of its records calls for anything more.
pub proof fn lemma_batch_settles(
    entries: Entries,
    records: Seq<RecordView>,
    added: Seq<AddedFileView>,
    at: int,
)
    requires
        one_per_file(records),
        delivered(entries, records, added),
        0 <= at < records.len(),
    ensures
        change_for(
            recorded(entries, changes_for(entries, records), added),
            records[at],
        ) == RequiredChange::Nothing,
{
    let record = records[at];
    let fname = record.fname;
    let change = change_for(entries, record);
    let changes = changes_for(entries, records);
    let kept = without(entries, changes.to_delete);
    let grown = with_added(kept, added);
    let after = recorded(entries, changes, added);
    let wanted = |record: RecordView| change_for(entries, record) == RequiredChange::Download;
    lemma_listed_to(RequiredChange::Delete, entries, records, at);
    lemma_listed_to(RequiredChange::RemovePending, entries, records, at);
    lemma_added_lookup(kept, added, fname);
    assert(changes.to_delete.to_set().contains(fname) == changes.to_delete.contains(fname));
    // an added file of this name was downloaded for this very record
    assert forall|k: int|
        #![trigger added[k]]
        0 <= k < added.len() && added[k].fname == fname implies change == RequiredChange::Download
        && hex_digits(added[k].sha1) == record.sha1 by {
        assert(downloads(entries, records) =~= records.filter(wanted));
        lemma_filtered_from(records, wanted, k);
        let i = choose|i: int|
            #![trigger records[i]]
            0 <= i < records.len() && records[i] == records.filter(wanted)[k] && wanted(records[i]);
        assert(records[i].fname == records[at].fname);
    }
    if change == RequiredChange::Download {
        assert(downloads(entries, records) =~= records.filter(wanted));
        records.lemma_filter_contains(wanted, at);
        let k = choose|k: int|
            0 <= k < records.filter(wanted).len() && records.filter(wanted)[k] == record;
        assert(added[k].fname == fname);
        assert(after.contains_key(fname));
        assert(local_sha1(after, fname) == record.sha1);
        assert(local_state(after, fname) == crate::changes::LocalState::InDBNotPending);
    } else {
        assert(grown.contains_key(fname) == kept.contains_key(fname));
    }
}

/// A batch that was carried out and recorded calls for nothing more as a whole.
pub proof fn lemma_settled_batch_is_empty(
    entries: Entries,
    records: Seq<RecordView>,
    added: Seq<AddedFileView>,
)
    requires
        one_per_file(records),
        delivered(entries, records, added),
    ensures
        ({
            let after = recorded(entries, changes_for(entries, records), added);
            &&& changes_for(after, records).to_download.len() == 0
            &&& changes_for(after, records).to_delete.len() == 0
            &&& changes_for(after, records).to_remove_pending.len() == 0
        }),
{
    let after = recorded(entries, changes_for(entries, records), added);
    assert forall|change: RequiredChange| change != RequiredChange::Nothing implies #[trigger]
        files_to(change, after, records).len() == 0 by {
        let wanted = |record: RecordView| change_for(after, record) == change;
        if records.filter(wanted).len() > 0 {
            lemma_filtered_from(records, wanted, 0);
            let i = choose|i: int|
                #![trigger records[i]]
                0 <= i < records.len() && records[i] == records.filter(wanted)[0] && wanted(
                    records[i],
                );
            lemma_batch_settles(entries, records, added, i);
        }
    }
}

/// Recording a batch leaves alone every file that it is not about.
pub proof fn lemma_batch_leaves_others_alone(
    entries: Entries,
    changes: ChangesView,
    added: Seq<AddedFileView>,
    fname: Seq<char>,
)
    requires
        !in_batch(changes, added, fname),
    ensures
        agree_on(recorded(entries, changes, added), entries, fname),
{
    let kept = without(entries, changes.to_delete);
    lemma_added_lookup(kept, added, fname);
    assert(changes.to_delete.to_set().contains(fname) == changes.to_delete.contains(fname));
}

/// Whether two databases know the same of a file.
pub open spec fn agree_on(a: Entries, b: Entries, fname: Seq<char>) -> bool {
    &&& a.contains_key(fname) == b.contains_key(fname)
    &&& a.contains_key(fname) ==> a[fname] == b[fname]
}

/// What a batch calls for depends on the entries of its own files alone.
pub proof fn lemma_batch_needs_own_entries(a: Entries, b: Entries, records: Seq<RecordView>)
    requires
        forall|i: int|
            #![trigger records[i]]
            0 <= i < records.len() ==> agree_on(a, b, records[i].fname),
    ensures
        changes_for(a, records) == changes_for(b, records),
{
    lemma_files_need_own_entries(RequiredChange::Download, a, b, records);
    lemma_files_need_own_entries(RequiredChange::Delete, a, b, records);
    lemma_files_need_own_entries(RequiredChange::RemovePending, a, b, records);
}

proof fn lemma_files_need_own_entries(
    change: RequiredChange,
    a: Entries,
    b: Entries,
    records: Seq<RecordView>,
)
    requires
        forall|i: int|
            #![trigger records[i]]
            0 <= i < records.len() ==> agree_on(a, b, records[i].fname),
    ensures
        files_to(change, a, records) == files_to(change, b, records),
    decreases records.len(),
{
    reveal(Seq::filter);
    if records.len() > 0 {
        let rest = records.drop_last();
        let last = records.last();
        assert forall|i: int| #![trigger rest[i]] 0 <= i < rest.len() implies agree_on(
            a,
            b,
            rest[i].fname,
        ) by {
            assert(rest[i] == records[i]);
        }
        lemma_files_need_own_entries(change, a, b, rest);
        assert(agree_on(a, b, records[records.len() - 1].fname));
        assert(records =~= rest.push(last));
        lemma_files_to_push(change, a, rest, last);
        lemma_files_to_push(change, b, rest, last);
    } else {
        assert(files_to(change, a, records) =~= files_to(change, b, records));
    }
}

/// What recording a batch makes of a file's entry depends on that entry alone.
pub proof fn lemma_recorded_file_by_file(
    a: Entries,
    b: Entries,
    changes: ChangesView,
    added: Seq<AddedFileView>,
    fname: Seq<char>,
)
    requires
        agree_on(a, b, fname),
    ensures
        agree_on(recorded(a, changes, added), recorded(b, changes, added), fname),
{
    lemma_added_file_by_file(
        without(a, changes.to_delete),
        without(b, changes.to_delete),
        added,
        fname,
    );
}

proof fn lemma_added_file_by_file(
    a: Entries,
    b: Entries,
    added: Seq<AddedFileView>,
    fname: Seq<char>,
)
    requires
        agree_on(a, b, fname),
    ensures
        agree_on(with_added(a, added), with_added(b, added), fname),
    decreases added.len(),
{
    if added.len() > 0 {
        lemma_added_file_by_file(a, b, added.drop_last(), fname);
    }
}

/// A batch never has a file deleted that the client has and still has to upload.
pub proof fn lemma_unsent_files_are_kept(entries: Entries, records: Seq<RecordView>, at: int)
    requires
        0 <= at < changes_for(entries, records).to_delete.len(),
    ensures
        ({
            let fname = changes_for(entries, records).to_delete[at];
            !(entries.contains_key(fname) && entries[fname].sync_required && local_sha1(
                entries,
                fname,
            ).len() > 0)
        }),
{
    let wanted = |record: RecordView| change_for(entries, record) == RequiredChange::Delete;
    let fname = |record: RecordView| record.fname;
    assert(changes_for(entries, records).to_delete =~= records.filter(wanted).map_values(fname));
    lemma_filtered_from(records, wanted, at);
}

/// A file that was added in a batch has its checksum and time in its entry afterwards,
/// and is not pending. The last of two files of the same name counts.
pub proof fn lemma_added_files_are_recorded(
    entries: Entries,
    changes: ChangesView,
    added: Seq<AddedFileView>,
    k: int,
)
    requires
        0 <= k < added.len(),
        forall|j: int| #![trigger added[j]] k < j < added.len() ==> added[j].fname != added[k].fname,
    ensures
        ({
            let after = recorded(entries, changes, added);
            let fname = added[k].fname;
            &&& after.contains_key(fname)
            &&& after[fname].fname == fname
            &&& after[fname].sha1 == Some(added[k].sha1)
            &&& after[fname].mtime == added[k].mtime
            &&& !after[fname].sync_required
        }),
{
    lemma_last_added(without(entries, changes.to_delete), added, k);
}

proof fn lemma_last_added(entries: Entries, added: Seq<AddedFileView>, k: int)
    requires
        0 <= k < added.len(),
        forall|j: int| #![trigger added[j]] k < j < added.len() ==> added[j].fname != added[k].fname,
    ensures
        with_added(entries, added).contains_pair(added[k].fname, added_entry(added[k])),
    decreases added.len(),
{
    if k < added.len() - 1 {
        let rest = added.drop_last();
        assert forall|j: int| #![trigger rest[j]] k < j < rest.len() implies rest[j].fname
            != rest[k].fname by {
            assert(rest[j] == added[j]);
        }
        lemma_last_added(entries, rest, k);
        assert(added[added.len() - 1].fname != added[k].fname);
    }
}

/// Of the files that were not added in a batch, those that were deleted have no entry
/// afterwards; those to be taken off the pending ones are not pending, and keep all
/// else; and the rest is as it was.
pub proof fn lemma_other_files_are_recorded(
    entries: Entries,
    changes: ChangesView,
    added: Seq<AddedFileView>,
    fname: Seq<char>,
)
    requires
        forall|k: int| #![trigger added[k]] 0 <= k < added.len() ==> added[k].fname != fname,
    ensures
        ({
            let after = recorded(entries, changes, added);
            &&& after.contains_key(fname) <==> entries.contains_key(fname)
                && !changes.to_delete.contains(fname)
            &&& after.contains_key(fname) ==> {
                &&& after[fname].fname == entries[fname].fname
                &&& after[fname].sha1 == entries[fname].sha1
                &&& after[fname].mtime == entries[fname].mtime
                &&& after[fname].sync_required <==> entries[fname].sync_required
                    && !changes.to_remove_pending.contains(fname)
            }
        }),
{
    let kept = without(entries, changes.to_delete);
    lemma_added_lookup(kept, added, fname);
    assert(changes.to_delete.to_set().contains(fname) == changes.to_delete.contains(fname));
}

/// Two databases agree on a file where both have no entry of it, or the same.
pub proof fn lemma_agreement(a: Entries, b: Entries, fname: Seq<char>)
    ensures
        agree_on(a, b, fname) <==> (a.contains_key(fname) <==> b.contains_key(fname)) && (
        a.contains_key(fname) ==> a[fname] == b[fname]),
{
}

} // verus!
