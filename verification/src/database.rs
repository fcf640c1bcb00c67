//! What the client knows about its media files: one entry for each file it has
//! or had since the last sync.

use vstd::prelude::*;

verus! {

/// The number of bytes in a SHA-1 checksum.
pub const SHA1_LEN: usize = 20;

/// What the client knows about one file.
#[derive(Debug)]
pub struct MediaEntry {
    pub fname: String,
    /// The checksum of the file, or `None` where it was deleted.
    pub sha1: Option<[u8; SHA1_LEN]>,
    /// When the file was last changed.
    pub mtime: i64,
    /// Whether the server still has to be told of the last change.
    pub sync_required: bool,
}

/// What contracts say of a [`MediaEntry`].
#[verifier::ext_equal]
pub struct EntryView {
    pub fname: Seq<char>,
    pub sha1: Option<Seq<u8>>,
    pub mtime: i64,
    pub sync_required: bool,
}

impl View for MediaEntry {
    type V = EntryView;

    open spec fn view(&self) -> EntryView {
        EntryView {
            fname: self.fname@,
            sha1: match self.sha1 {
                Some(sum) => Some(sum@),
                None => None,
            },
            mtime: self.mtime,
            sync_required: self.sync_required,
        }
    }
}

impl DeepView for MediaEntry {
    type V = EntryView;

    open spec fn deep_view(&self) -> EntryView {
        self@
    }
}

impl MediaEntry {
    /// Another entry that says the same.
    pub fn duplicate(&self) -> (copy: MediaEntry)
        ensures
            copy@ == self@,
    {
        MediaEntry {
            fname: self.fname.clone(),
            sha1: self.sha1,
            mtime: self.mtime,
            sync_required: self.sync_required,
        }
    }

    /// Whether another entry says the same.
    pub fn same_as(&self, other: &MediaEntry) -> (same: bool)
        ensures
            same == (self@ == other@),
    {
        let same_sum = match (&self.sha1, &other.sha1) {
            (Some(a), Some(b)) => same_sha1(a, b),
            (None, None) => true,
            _ => false,
        };
        self.fname == other.fname && same_sum && self.mtime == other.mtime && self.sync_required
            == other.sync_required
    }
}

/// Whether two checksums are the same.
fn same_sha1(a: &[u8; SHA1_LEN], b: &[u8; SHA1_LEN]) -> (same: bool)
    ensures
        same == (a@ == b@),
{
    let mut i: usize = 0;
    while i < SHA1_LEN
        invariant
            i <= SHA1_LEN,
            forall|j: int| 0 <= j < i ==> a@[j] == b@[j],
        decreases SHA1_LEN - i,
    {
        if a[i] != b[i] {
            return false;
        }
        i += 1;
    }
    assert(a@ =~= b@);
    true
}

/// The entries that a transaction works on. Its view is the entry of each file
/// that has one, by file name.
#[derive(Debug)]
pub struct MediaDatabaseContext {
    entries: Vec<MediaEntry>,
}

/// Whether there is an entry for `fname`.
spec fn has_entry(entries: Seq<EntryView>, fname: Seq<char>) -> bool {
    exists|i: int| #![trigger entries[i]] 0 <= i < entries.len() && entries[i].fname == fname
}

/// The entry for `fname`, where there is one.
spec fn entry_of(entries: Seq<EntryView>, fname: Seq<char>) -> EntryView {
    entries[choose|i: int|
        #![trigger entries[i]]
        0 <= i < entries.len() && entries[i].fname == fname]
}

/// The entries by file name.
spec fn by_fname(entries: Seq<EntryView>) -> Map<Seq<char>, EntryView> {
    Map::new(|fname: Seq<char>| has_entry(entries, fname), |fname: Seq<char>| entry_of(entries, fname))
}

/// No file has two entries.
spec fn one_per_file(entries: Seq<EntryView>) -> bool {
    forall|i: int, j: int|
        #![trigger entries[i], entries[j]]
        0 <= i < j < entries.len() ==> entries[i].fname != entries[j].fname
}

impl View for MediaDatabaseContext {
    type V = Map<Seq<char>, EntryView>;

    closed spec fn view(&self) -> Map<Seq<char>, EntryView> {
        by_fname(self.entries.deep_view())
    }
}

impl MediaDatabaseContext {
    /// No file has two entries.
    #[verifier::type_invariant]
    pub closed spec fn well_formed(&self) -> bool {
        one_per_file(self.entries.deep_view())
    }

    /// A context without entries.
    pub fn new() -> (ctx: MediaDatabaseContext)
        ensures
            ctx@ == Map::<Seq<char>, EntryView>::empty(),
    {
        let ctx = MediaDatabaseContext { entries: Vec::new() };
        assert(ctx@ =~= Map::empty());
        ctx
    }

    /// The position of the entry for `fname`.
    fn position(&self, fname: &String) -> (at: Option<usize>)
        ensures
            match at {
                Some(at) => at < self.entries.len() && self.entries[at as int].fname@ == fname@,
                None => !has_entry(self.entries.deep_view(), fname@),
            },
    {
        let mut i: usize = 0;
        while i < self.entries.len()
            invariant
                i <= self.entries.len(),
                forall|j: int|
                    #![trigger self.entries.deep_view()[j]]
                    0 <= j < i ==> self.entries.deep_view()[j].fname != fname@,
            decreases self.entries.len() - i,
        {
            assert(self.entries.deep_view()[i as int] == self.entries[i as int]@);
            if self.entries[i].fname == *fname {
                return Some(i);
            }
            i += 1;
        }
        None
    }

    /// The entry for `fname`, if there is one.
    pub fn get_entry(&self, fname: &String) -> (entry: Option<MediaEntry>)
        ensures
            match entry {
                Some(entry) => self@.contains_pair(fname@, entry@) && entry@.fname == fname@,
                None => !self@.contains_key(fname@),
            },
    {
        match self.position(fname) {
            Some(at) => {
                proof {
                    use_type_invariant(self);
                    lemma_entry_at(self.entries.deep_view(), at as int);
                }
                Some(self.entries[at].duplicate())
            },
            None => None,
        }
    }

    /// Adds an entry, in place of the one for the same file if there was one.
    pub fn set_entry(&mut self, entry: MediaEntry)
        ensures
            final(self)@ == old(self)@.insert(entry.fname@, entry@),
    {
        proof {
            use_type_invariant(&*self);
        }
        let ghost before = self.entries.deep_view();
        let ghost added = entry@;
        let at = self.position(&entry.fname);
        let mut entries: Vec<MediaEntry> = Vec::new();
        std::mem::swap(&mut entries, &mut self.entries);
        match at {
            Some(at) => {
                entries.set(at, entry);
                proof {
                    assert(entries.deep_view() =~= before.update(at as int, added));
                    lemma_replaced(before, at as int, added);
                }
            },
            None => {
                entries.push(entry);
                proof {
                    assert(entries.deep_view() =~= before.push(added));
                    lemma_added(before, added);
                }
            },
        }
        self.entries = entries;
    }

    /// Removes the entry for `fname`, if there is one.
    pub fn remove_entry(&mut self, fname: &String)
        ensures
            final(self)@ == old(self)@.remove(fname@),
    {
        proof {
            use_type_invariant(&*self);
        }
        let ghost before = self.entries.deep_view();
        match self.position(fname) {
            Some(at) => {
                let mut entries: Vec<MediaEntry> = Vec::new();
                std::mem::swap(&mut entries, &mut self.entries);
                entries.remove(at);
                proof {
                    assert(entries.deep_view() =~= before.remove(at as int));
                    lemma_removed(before, at as int);
                }
                self.entries = entries;
            },
            None => {
                assert(by_fname(before).remove(fname@) =~= by_fname(before));
            },
        }
    }
}

/// Each entry stands under the name of its own file.
pub proof fn lemma_entries_by_own_name(ctx: MediaDatabaseContext, fname: Seq<char>)
    requires
        ctx.well_formed(),
        ctx@.contains_key(fname),
    ensures
        ctx@[fname].fname == fname,
{
    let entries = ctx.entries.deep_view();
    assert(has_entry(entries, fname));
}

/// There are finitely many entries.
pub proof fn lemma_finitely_many_entries(ctx: MediaDatabaseContext)
    ensures
        ctx@.dom().finite(),
{
    let entries = ctx.entries.deep_view();
    let names = entries.map_values(|entry: EntryView| entry.fname);
    assert forall|fname: Seq<char>| ctx@.dom().contains(fname) implies names.to_set().contains(
        fname,
    ) by {
        let i = choose|i: int|
            #![trigger entries[i]]
            0 <= i < entries.len() && entries[i].fname == fname;
        assert(names[i] == fname);
    }
    vstd::seq_lib::seq_to_set_is_finite(names);
    vstd::set_lib::lemma_set_subset_finite(names.to_set(), ctx@.dom());
}

proof fn lemma_entry_at(entries: Seq<EntryView>, at: int)
    requires
        one_per_file(entries),
        0 <= at < entries.len(),
    ensures
        by_fname(entries).contains_pair(entries[at].fname, entries[at]),
{
    let fname = entries[at].fname;
    assert(has_entry(entries, fname));
    let i = choose|i: int|
        #![trigger entries[i]]
        0 <= i < entries.len() && entries[i].fname == fname;
    assert(i == at) by {
        if i < at {
            assert(entries[i].fname != entries[at].fname);
        } else if at < i {
            assert(entries[at].fname != entries[i].fname);
        }
    }
}

proof fn lemma_replaced(entries: Seq<EntryView>, at: int, entry: EntryView)
    requires
        one_per_file(entries),
        0 <= at < entries.len(),
        entries[at].fname == entry.fname,
    ensures
        one_per_file(entries.update(at, entry)),
        by_fname(entries.update(at, entry)) == by_fname(entries).insert(entry.fname, entry),
{
    let after = entries.update(at, entry);
    assert(one_per_file(after)) by {
        assert forall|i: int, j: int|
            #![trigger after[i], after[j]]
            0 <= i < j < after.len() implies after[i].fname != after[j].fname by {
            assert(entries[i].fname != entries[j].fname);
        }
    }
    assert forall|fname: Seq<char>| #[trigger] by_fname(after).contains_key(fname)
        == by_fname(entries).insert(entry.fname, entry).contains_key(fname) by {
        if has_entry(after, fname) {
            let i = choose|i: int|
                #![trigger after[i]]
                0 <= i < after.len() && after[i].fname == fname;
            assert(entries[i].fname == fname);
        }
        if has_entry(entries, fname) {
            let i = choose|i: int|
                #![trigger entries[i]]
                0 <= i < entries.len() && entries[i].fname == fname;
            assert(after[i].fname == fname);
        }
        assert(after[at] == entry);
    }
    assert forall|fname: Seq<char>| by_fname(after).contains_key(fname) implies #[trigger] by_fname(
        after,
    )[fname] == by_fname(entries).insert(entry.fname, entry)[fname] by {
        let i = choose|i: int| #![trigger after[i]] 0 <= i < after.len() && after[i].fname == fname;
        lemma_entry_at(after, i);
        lemma_entry_at(entries, i);
        lemma_entry_at(after, at);
    }
    assert(by_fname(after) =~= by_fname(entries).insert(entry.fname, entry));
}

proof fn lemma_added(entries: Seq<EntryView>, entry: EntryView)
    requires
        one_per_file(entries),
        !has_entry(entries, entry.fname),
    ensures
        one_per_file(entries.push(entry)),
        by_fname(entries.push(entry)) == by_fname(entries).insert(entry.fname, entry),
{
    let after = entries.push(entry);
    assert(one_per_file(after)) by {
        assert forall|i: int, j: int|
            #![trigger after[i], after[j]]
            0 <= i < j < after.len() implies after[i].fname != after[j].fname by {
            assert(entries[i].fname == after[i].fname);
            if j < entries.len() {
                assert(entries[j].fname == after[j].fname);
            }
        }
    }
    assert forall|fname: Seq<char>| #[trigger] by_fname(after).contains_key(fname)
        == by_fname(entries).insert(entry.fname, entry).contains_key(fname) by {
        if has_entry(after, fname) {
            let i = choose|i: int|
                #![trigger after[i]]
                0 <= i < after.len() && after[i].fname == fname;
            if i < entries.len() {
                assert(entries[i].fname == fname);
            }
        }
        if has_entry(entries, fname) {
            let i = choose|i: int|
                #![trigger entries[i]]
                0 <= i < entries.len() && entries[i].fname == fname;
            assert(after[i].fname == fname);
        }
        assert(after[entries.len() as int] == entry);
    }
    assert forall|fname: Seq<char>| by_fname(after).contains_key(fname) implies #[trigger] by_fname(
        after,
    )[fname] == by_fname(entries).insert(entry.fname, entry)[fname] by {
        let i = choose|i: int| #![trigger after[i]] 0 <= i < after.len() && after[i].fname == fname;
        lemma_entry_at(after, i);
        if i < entries.len() {
            lemma_entry_at(entries, i);
            assert(entries[i].fname == fname);
        }
    }
    assert(by_fname(after) =~= by_fname(entries).insert(entry.fname, entry));
}

proof fn lemma_removed(entries: Seq<EntryView>, at: int)
    requires
        one_per_file(entries),
        0 <= at < entries.len(),
    ensures
        one_per_file(entries.remove(at)),
        by_fname(entries.remove(at)) == by_fname(entries).remove(entries[at].fname),
{
    let after = entries.remove(at);
    let gone = entries[at].fname;
    assert(one_per_file(after)) by {
        assert forall|i: int, j: int|
            #![trigger after[i], after[j]]
            0 <= i < j < after.len() implies after[i].fname != after[j].fname by {
            let k = if i < at { i } else { i + 1 };
            let l = if j < at { j } else { j + 1 };
            assert(entries[k].fname != entries[l].fname);
        }
    }
    assert forall|fname: Seq<char>| #[trigger] by_fname(after).contains_key(fname) == by_fname(
        entries,
    ).remove(gone).contains_key(fname) by {
        if has_entry(after, fname) {
            let i = choose|i: int|
                #![trigger after[i]]
                0 <= i < after.len() && after[i].fname == fname;
            let k = if i < at { i } else { i + 1 };
            assert(entries[k].fname == fname);
            if k < at {
                assert(entries[k].fname != entries[at].fname);
            } else {
                assert(entries[at].fname != entries[k].fname);
            }
        }
        if has_entry(entries, fname) && fname != gone {
            let i = choose|i: int|
                #![trigger entries[i]]
                0 <= i < entries.len() && entries[i].fname == fname;
            let k = if i < at { i } else { i - 1 };
            assert(after[k].fname == fname);
        }
    }
    assert forall|fname: Seq<char>| by_fname(after).contains_key(fname) implies #[trigger] by_fname(
        after,
    )[fname] == by_fname(entries).remove(gone)[fname] by {
        let i = choose|i: int| #![trigger after[i]] 0 <= i < after.len() && after[i].fname == fname;
        let k = if i < at { i } else { i + 1 };
        lemma_entry_at(after, i);
        lemma_entry_at(entries, k);
        assert(entries[k] == after[i]);
    }
    assert(by_fname(after) =~= by_fname(entries).remove(gone));
}

/// An entry says all that it holds.
pub proof fn lemma_entry_says(entry: MediaEntry)
    ensures
        entry@.fname == entry.fname@,
        entry@.sha1 is Some <==> entry.sha1 is Some,
        entry.sha1 is Some ==> entry@.sha1->0 == entry.sha1->0@,
        entry@.mtime == entry.mtime,
        entry@.sync_required == entry.sync_required,
        entry.deep_view() == entry@,
{
}

} // verus!
