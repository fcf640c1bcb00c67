//! Writing down what a sync did: the entries of the files it removed, added or
//! found unchanged.

use crate::database::{EntryView, MediaDatabaseContext, MediaEntry, SHA1_LEN};
use vstd::prelude::*;

verus! {

/// A file that was added to the media folder.
#[derive(Debug)]
pub struct AddedFile {
    pub fname: String,
    pub sha1: [u8; SHA1_LEN],
    pub mtime: i64,
}

/// What contracts say of an [`AddedFile`].
#[verifier::ext_equal]
pub struct AddedFileView {
    pub fname: Seq<char>,
    pub sha1: Seq<u8>,
    pub mtime: i64,
}

impl View for AddedFile {
    type V = AddedFileView;

    open spec fn view(&self) -> AddedFileView {
        AddedFileView { fname: self.fname@, sha1: self.sha1@, mtime: self.mtime }
    }
}

impl DeepView for AddedFile {
    type V = AddedFileView;

    open spec fn deep_view(&self) -> AddedFileView {
        self@
    }
}

/// The entries by file name.
pub type Entries = Map<Seq<char>, EntryView>;

/// The entries without those of the files in `fnames`.
pub open spec fn without(entries: Entries, fnames: Seq<Seq<char>>) -> Entries {
    entries.remove_keys(fnames.to_set())
}

/// The entry of a file that has just been added: the server knows of it.
pub open spec fn added_entry(file: AddedFileView) -> EntryView {
    EntryView {
        fname: file.fname,
        sha1: Some(file.sha1),
        mtime: file.mtime,
        sync_required: false,
    }
}

/// The entries after the files were added, one after the other.
pub open spec fn with_added(entries: Entries, files: Seq<AddedFileView>) -> Entries
    decreases files.len(),
{
    if files.len() == 0 {
        entries
    } else {
        with_added(entries, files.drop_last()).insert(
            files.last().fname,
            added_entry(files.last()),
        )
    }
}

/// The entries, those of the files in `fnames` with nothing left to tell the
/// server.
pub open spec fn with_clean(entries: Entries, fnames: Seq<Seq<char>>) -> Entries {
    Map::new(
        |fname: Seq<char>| entries.contains_key(fname),
        |fname: Seq<char>|
            if fnames.contains(fname) {
                EntryView { sync_required: false, ..entries[fname] }
            } else {
                entries[fname]
            },
    )
}

/// Forgets the files that were removed.
pub fn record_removals(ctx: &mut MediaDatabaseContext, removals: &Vec<String>)
    ensures
        final(ctx)@ == without(old(ctx)@, removals.deep_view()),
{
    let ghost before = ctx@;
    let ghost fnames = removals.deep_view();
    let mut i: usize = 0;
    assert(without(before, fnames.take(0)) =~= before);
    while i < removals.len()
        invariant
            i <= removals.len(),
            fnames == removals.deep_view(),
            ctx@ == without(before, fnames.take(i as int)),
        decreases removals.len() - i,
    {
        ctx.remove_entry(&removals[i]);
        proof {
            let next = fnames.take(i + 1);
            assert(next =~= fnames.take(i as int).push(removals[i as int]@));
            assert(next.to_set() =~= fnames.take(i as int).to_set().insert(removals[i as int]@))
                by {
                lemma_pushed_to_set(fnames.take(i as int), removals[i as int]@);
            }
            assert(ctx@ =~= without(before, next));
        }
        i += 1;
    }
    assert(fnames.take(removals.len() as int) =~= fnames);
}

proof fn lemma_pushed_to_set(fnames: Seq<Seq<char>>, fname: Seq<char>)
    ensures
        fnames.push(fname).to_set() == fnames.to_set().insert(fname),
{
    let next = fnames.push(fname);
    assert forall|name: Seq<char>|
        next.to_set().contains(name) == fnames.to_set().insert(fname).contains(name) by {
        if fnames.contains(name) {
            let i = choose|i: int| 0 <= i < fnames.len() && fnames[i] == name;
            assert(next[i] == name);
        }
        assert(next[fnames.len() as int] == fname);
        if next.contains(name) && name != fname {
            let i = choose|i: int| 0 <= i < next.len() && next[i] == name;
            assert(fnames[i] == name);
        }
    }
    assert(next.to_set() =~= fnames.to_set().insert(fname));
}

/// Writes an entry for each file that was added.
pub fn record_additions(ctx: &mut MediaDatabaseContext, additions: &Vec<AddedFile>)
    ensures
        final(ctx)@ == with_added(old(ctx)@, additions.deep_view()),
{
    let ghost before = ctx@;
    let ghost files = additions.deep_view();
    let mut i: usize = 0;
    while i < additions.len()
        invariant
            i <= additions.len(),
            files == additions.deep_view(),
            ctx@ == with_added(before, files.take(i as int)),
        decreases additions.len() - i,
    {
        let file = &additions[i];
        let entry = MediaEntry {
            fname: file.fname.clone(),
            sha1: Some(file.sha1),
            mtime: file.mtime,
            sync_required: false,
        };
        assert(entry@ == added_entry(files[i as int]));
        ctx.set_entry(entry);
        assert(files.take(i + 1).drop_last() =~= files.take(i as int));
        i += 1;
    }
    assert(files.take(additions.len() as int) =~= files);
}

/// Marks the files as having nothing left to tell the server.
pub fn record_clean(ctx: &mut MediaDatabaseContext, clean: &Vec<String>)
    ensures
        final(ctx)@ == with_clean(old(ctx)@, clean.deep_view()),
{
    let ghost before = ctx@;
    let ghost fnames = clean.deep_view();
    let mut i: usize = 0;
    assert(with_clean(before, fnames.take(0)) =~= before);
    while i < clean.len()
        invariant
            i <= clean.len(),
            fnames == clean.deep_view(),
            ctx@ == with_clean(before, fnames.take(i as int)),
        decreases clean.len() - i,
    {
        let ghost done = fnames.take(i as int);
        let ghost fname = clean[i as int]@;
        if let Some(mut entry) = ctx.get_entry(&clean[i]) {
            if entry.sync_required {
                entry.sync_required = false;
                ctx.set_entry(entry);
            }
        }
        proof {
            let next = fnames.take(i + 1);
            assert(next =~= done.push(fname));
            lemma_pushed_to_set(done, fname);
            assert forall|name: Seq<char>| next.contains(name) == (done.contains(name) || name
                == fname) by {
                assert(next.to_set().contains(name) == done.to_set().insert(fname).contains(name));
            }
            assert(ctx@ =~= with_clean(before, next));
        }
        i += 1;
    }
    assert(fnames.take(clean.len() as int) =~= fnames);
}

/// The files whose last change the server does not know of.
pub open spec fn pending(entries: Entries) -> Set<Seq<char>> {
    entries.dom().filter(|fname: Seq<char>| entries[fname].sync_required)
}

/// Marking files clean takes them, and no others, off the pending files.
pub proof fn lemma_clean_is_not_pending(entries: Entries, fnames: Seq<Seq<char>>)
    ensures
        pending(with_clean(entries, fnames)) == pending(entries).difference(fnames.to_set()),
{
    assert(pending(with_clean(entries, fnames)) =~= pending(entries).difference(fnames.to_set()));
}

/// Marking clean a list of files of which one is pending leaves fewer pending
/// files, so sending the pending files batch after batch comes to an end.
pub proof fn lemma_sending_makes_progress(entries: Entries, fnames: Seq<Seq<char>>, at: int)
    requires
        entries.dom().finite(),
        0 <= at < fnames.len(),
        pending(entries).contains(fnames[at]),
    ensures
        pending(with_clean(entries, fnames)).len() < pending(entries).len(),
{
    let before = pending(entries);
    let after = pending(with_clean(entries, fnames));
    lemma_clean_is_not_pending(entries, fnames);
    entries.dom().lemma_len_filter(|fname: Seq<char>| entries[fname].sync_required);
    assert(fnames.to_set().contains(fnames[at]));
    assert(after.subset_of(before.remove(fnames[at])));
    vstd::set_lib::lemma_len_subset(after, before.remove(fnames[at]));
}

/// An added file says all that it holds.
pub proof fn lemma_added_file_says(file: AddedFile)
    ensures
        file@.fname == file.fname@,
        file@.sha1 == file.sha1@,
        file@.mtime == file.mtime,
        file.deep_view() == file@,
{
}

/// A file has an entry after removals just where it had one and was not removed, and
/// the entry is as it was.
pub proof fn lemma_removals_forget(entries: Entries, fnames: Seq<Seq<char>>, fname: Seq<char>)
    ensures
        without(entries, fnames).contains_key(fname) <==> entries.contains_key(fname)
            && !fnames.contains(fname),
        without(entries, fnames).contains_key(fname) ==> without(entries, fnames)[fname]
            == entries[fname],
{
    assert(fnames.to_set().contains(fname) == fnames.contains(fname));
}

/// Each file that is added gets an entry with its checksum and time that is not
/// pending, in place of the one it had, and no other entry changes.
pub proof fn lemma_one_more_addition(
    entries: Entries,
    files: Seq<AddedFileView>,
    file: AddedFileView,
)
    ensures
        files.len() == 0 ==> with_added(entries, files) == entries,
        with_added(entries, files.push(file)) == with_added(entries, files).insert(
            file.fname,
            EntryView {
                fname: file.fname,
                sha1: Some(file.sha1),
                mtime: file.mtime,
                sync_required: false,
            },
        ),
{
    assert(files.push(file).drop_last() =~= files);
}

/// Marking files clean takes off their pending marks, keeps all else of their entries,
/// and leaves other entries alone.
pub proof fn lemma_clean_keeps_the_rest(entries: Entries, fnames: Seq<Seq<char>>, fname: Seq<char>)
    ensures
        ({
            let after = with_clean(entries, fnames);
            &&& after.contains_key(fname) <==> entries.contains_key(fname)
            &&& entries.contains_key(fname) ==> {
                &&& after[fname].fname == entries[fname].fname
                &&& after[fname].sha1 == entries[fname].sha1
                &&& after[fname].mtime == entries[fname].mtime
                &&& after[fname].sync_required <==> entries[fname].sync_required
                    && !fnames.contains(fname)
            }
        }),
{
}

/// A file is pending just where its entry is marked so.
pub proof fn lemma_pending_files(entries: Entries, fname: Seq<char>)
    ensures
        pending(entries).contains(fname) <==> entries.contains_key(fname)
            && entries[fname].sync_required,
{
}

} // verus!
