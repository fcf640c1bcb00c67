//! Packing the archives that the client sends.
//!
//! Such an archive holds each file under its position in the upload, written in
//! decimal, and a file `_meta` that lists the upload: for each file its real
//! name and the name it has in the archive, or `null` where the file was deleted.

use crate::archive::{
    all_stored, as_read, finish_sink, last_named, new_sink,
    read_back, sink_members, start_file, storable, with_bytes, write_bytes, write_pairs,
    zip_members, NewMember, ZipContent, ZipSink, MAX_FILE_BYTES, STORED,
};
use crate::error::{AnkiError, ErrorView};
use crate::extract::{lemma_last_named_in_range, meta_name};
use crate::json::json_list;
use crate::text::{
    decimal, decimal_digits, lemma_decimal_injective, lemma_decimal_is_digits,
    lemma_decimal_length,
};
use vstd::prelude::*;
use vstd::utf8::encode_utf8;
use vstd::utf8::is_ascii_chars;

verus! {

/// An upload takes no more files once it holds more than this many bytes.
pub const SYNC_MAX_BYTES: usize = 2_621_440;

/// What an upload says of one file: its name, and its bytes unless it was
/// deleted.
#[verifier::ext_equal]
pub struct UploadFile {
    pub fname: Seq<char>,
    pub data: Option<Seq<u8>>,
}

/// How many bytes the files hold together.
pub open spec fn total_bytes(files: Seq<UploadFile>) -> nat
    decreases files.len(),
{
    if files.len() == 0 {
        0
    } else {
        total_bytes(files.drop_last()) + match files.last().data {
            Some(bytes) => bytes.len(),
            None => 0,
        }
    }
}

/// The name in the archive of the file at `index`, if it has any bytes to store.
pub open spec fn in_zip_name(files: Seq<UploadFile>, index: int) -> Option<Seq<char>> {
    match files[index].data {
        Some(_) => Some(decimal_digits(index as nat)),
        None => None,
    }
}

/// No file is empty or larger than an archive can hold, and none was added after
/// the upload had grown past the limit.
pub open spec fn within_limits(files: Seq<UploadFile>) -> bool {
    &&& forall|i: int|
        #![trigger files[i]]
        0 <= i < files.len() && files[i].data is Some ==> 0 < files[i].data->0.len()
            <= MAX_FILE_BYTES
    &&& files.len() > 0 ==> total_bytes(files.drop_last()) <= SYNC_MAX_BYTES
}

/// An upload that is sure to be read back: its files are smaller than the largest
/// that an archive can hold, and so is what lists them.
pub open spec fn moderate(files: Seq<UploadFile>) -> bool {
    &&& files.len() <= u64::MAX
    &&& forall|i: int|
        #![trigger files[i]]
        0 <= i < files.len() && files[i].data is Some ==> files[i].data->0.len() < MAX_FILE_BYTES
    &&& encode_utf8(json_list(upload_entries(files))).len() < MAX_FILE_BYTES
}

/// Whether an archive can hold what lists the files.
pub open spec fn list_fits(files: Seq<UploadFile>) -> bool {
    encode_utf8(json_list(upload_entries(files))).len() <= MAX_FILE_BYTES
}

/// What `_meta` lists.
pub open spec fn upload_entries(files: Seq<UploadFile>) -> Seq<(Seq<char>, Option<Seq<char>>)> {
    Seq::new(files.len(), |i: int| (files[i].fname, in_zip_name(files, i)))
}

/// The stored files, in order.
pub open spec fn upload_members(files: Seq<UploadFile>) -> Seq<NewMember>
    decreases files.len(),
{
    if files.len() == 0 {
        Seq::empty()
    } else {
        let before = upload_members(files.drop_last());
        match files.last().data {
            Some(bytes) => before.push(
                NewMember {
                    name: decimal_digits((files.len() - 1) as nat),
                    method: STORED,
                    bytes,
                },
            ),
            None => before,
        }
    }
}

/// The member `_meta` with the text `meta`.
pub open spec fn meta_member(meta: Seq<char>) -> NewMember {
    NewMember { name: meta_name(), method: STORED, bytes: encode_utf8(meta) }
}

/// The error for a file without bytes.
pub open spec fn empty_file() -> ErrorView {
    ErrorView::Misc { info: "0 byte file found"@ }
}

/// The error for a file name that is not in its normal form.
pub open spec fn invalid_filename() -> ErrorView {
    ErrorView::Misc { info: "Invalid filename found. Please use the Check Media function."@ }
}

/// Refuses a file name that normalizing has changed.
pub fn check_filename(changed: bool) -> (checked: Result<(), AnkiError>)
    ensures
        match checked {
            Ok(()) => !changed,
            Err(err) => changed && err@ == invalid_filename(),
        },
{
    if changed {
        return Err(
            AnkiError::AnkiWebMiscError {
                info: "Invalid filename found. Please use the Check Media function.".to_owned(),
            },
        );
    }
    Ok(())
}

/// An upload that is being packed.
pub struct UploadZip {
    sink: ZipSink,
    entries: Vec<(String, Option<String>)>,
    accumulated_size: usize,
    files: Ghost<Seq<UploadFile>>,
}

impl View for UploadZip {
    type V = Seq<UploadFile>;

    /// The files added so far.
    closed spec fn view(&self) -> Seq<UploadFile> {
        self.files@
    }
}

impl UploadZip {
    /// The archive, the list and the size are those of the files added so far.
    #[verifier::type_invariant]
    pub closed spec fn well_formed(&self) -> bool {
        &&& sink_members(self.sink) == upload_members(self@)
        &&& self.entries.deep_view() == upload_entries(self@)
        &&& within_limits(self@)
        &&& self.accumulated_size == (if total_bytes(self@) <= usize::MAX {
            total_bytes(self@)
        } else {
            usize::MAX as nat
        })
    }

    /// An upload without files.
    pub fn new() -> (upload: UploadZip)
        ensures
            upload@ == Seq::<UploadFile>::empty(),
    {
        let entries: Vec<(String, Option<String>)> = Vec::new();
        assert(entries.deep_view() =~= upload_entries(Seq::empty()));
        UploadZip { sink: new_sink(), entries, accumulated_size: 0, files: Ghost(Seq::empty()) }
    }

    /// The position of the file to add next, out of `count` files that wait to be
    /// uploaded. None is added after the upload has grown past the limit.
    pub fn next_index(&self, count: usize) -> (index: Option<usize>)
        ensures
            index == (if self@.len() < count && total_bytes(self@) <= SYNC_MAX_BYTES {
                Some(self@.len() as usize)
            } else {
                None
            }),
    {
        proof {
            use_type_invariant(self);
            assert(self.entries.deep_view().len() == self@.len());
        }
        if self.accumulated_size > SYNC_MAX_BYTES || self.entries.len() >= count {
            None
        } else {
            Some(self.entries.len())
        }
    }

    /// Adds a file, or the deletion of one where there is no `data`. A file
    /// without bytes is refused, and so is one that is too large for an archive.
    pub fn add_file(self, fname: &str, data: Option<Vec<u8>>) -> (added: Result<
        UploadZip,
        AnkiError,
    >)
        requires
            total_bytes(self@) <= SYNC_MAX_BYTES,
        ensures
            match added {
                Ok(upload) => {
                    &&& upload@ == self@.push(new_file(fname@, data))
                    &&& data is Some ==> 0 < data->0@.len() <= MAX_FILE_BYTES
                    &&& upload@.len() == self@.len() + 1
                    &&& upload@.last().fname == fname@
                    &&& upload@.last().data is Some <==> data is Some
                    &&& data is Some ==> upload@.last().data->0 == data->0@
                },
                Err(err) => {
                    &&& data is Some
                    &&& if data->0@.len() == 0 {
                        err@ == empty_file()
                    } else {
                        data->0@.len() > MAX_FILE_BYTES && err@ is Io
                    }
                },
            },
    {
        proof {
            use_type_invariant(&self);
        }
        let UploadZip { sink, mut entries, accumulated_size, files: _ } = self;
        let ghost before = self@;
        let ghost file = new_file(fname@, data);
        let ghost after = before.push(file);
        let index = entries.len();
        proof {
            assert(entries.deep_view().len() == before.len());
            assert(after.drop_last() =~= before);
            lemma_members_are_stored(before);
        }
        let (sink, in_zip, size) = match data {
            None => (sink, None, 0),
            Some(data) => {
                if data.len() == 0 {
                    return Err(
                        AnkiError::AnkiWebMiscError { info: "0 byte file found".to_owned() },
                    );
                }
                let name = decimal(index);
                match store(sink, name.as_str(), data.as_slice()) {
                    Ok(sink) => (sink, Some(name), data.len()),
                    Err(err) => return Err(err),
                }
            },
        };
        let ghost listed = entries.deep_view();
        entries.push((fname.to_owned(), in_zip));
        proof {
            let entry = (fname@, in_zip.deep_view());
            assert(entries.deep_view() =~= listed.push(entry));
            assert(entry.1 == in_zip_name(after, before.len() as int));
            assert forall|i: int| 0 <= i < before.len() implies listed[i] == upload_entries(
                after,
            )[i] by {
                assert(listed[i] == upload_entries(before)[i]);
            }
            assert(entries.deep_view() =~= upload_entries(after));
        }
        Ok(
            UploadZip {
                sink,
                entries,
                accumulated_size: accumulated_size.saturating_add(size),
                files: Ghost(after),
            },
        )
    }

    /// Completes the upload: adds `_meta` with the text `meta` and gives the bytes
    /// of the archive. A text that is too large for an archive is refused.
    pub fn finish_with_meta(self, meta: &str) -> (bytes: Result<Vec<u8>, AnkiError>)
        ensures
            match bytes {
                Ok(bytes) => {
                    &&& encode_utf8(meta@).len() <= MAX_FILE_BYTES
                    &&& storable(upload_members(self@).push(meta_member(meta@))) ==> zip_members(
                        bytes@,
                    ) == Some(read_back(upload_members(self@).push(meta_member(meta@))))
                },
                Err(err) => encode_utf8(meta@).len() > MAX_FILE_BYTES && err@ is Io,
            },
    {
        proof {
            use_type_invariant(&self);
            reveal_strlit("_meta");
            lemma_members_are_stored(self@);
        }
        let sink = match store(self.sink, "_meta", meta.as_bytes()) {
            Ok(sink) => sink,
            Err(err) => return Err(err),
        };
        match finish_sink(sink) {
            Ok(bytes) => Ok(bytes),
            Err(err) => Err(AnkiError::Zip(err)),
        }
    }

    /// Completes the upload. Where the list of its files is too large for an archive,
    /// it is refused.
    pub fn finish(self) -> (upload: Result<PackedUpload, AnkiError>)
        ensures
            match upload {
                Ok(upload) => list_fits(self@) && upload@ == self@,
                Err(err) => !list_fits(self@) && err@ is Io,
            },
    {
        proof {
            use_type_invariant(&self);
        }
        let ghost files = self@;
        match write_pairs(&self.entries) {
            Ok(meta) => {
                match self.finish_with_meta(meta.as_str()) {
                    Ok(bytes) => Ok(PackedUpload { bytes, files: Ghost(files) }),
                    Err(err) => Err(err),
                }
            },
            Err(err) => Err(AnkiError::Json(err)),
        }
    }
}

/// Whether `bytes` are an archive of the upload: reading them gives back what went
/// in, uncompressed. Nothing is said of an upload that is not storable.
pub open spec fn holds_upload(bytes: Seq<u8>, files: Seq<UploadFile>) -> bool {
    storable(packed(files)) ==> zip_members(bytes) == Some(read_back(packed(files)))
}

/// A complete upload. Its view is the files in it.
pub struct PackedUpload {
    bytes: Vec<u8>,
    files: Ghost<Seq<UploadFile>>,
}

impl View for PackedUpload {
    type V = Seq<UploadFile>;

    closed spec fn view(&self) -> Seq<UploadFile> {
        self.files@
    }
}

impl PackedUpload {
    #[verifier::type_invariant]
    spec fn consistent(self) -> bool {
        holds_upload(self.bytes@, self.files@)
    }

    /// The bytes of the archive.
    pub fn bytes(&self) -> (bytes: &Vec<u8>)
        ensures
            holds_upload(bytes@, self@),
    {
        proof {
            use_type_invariant(self);
        }
        &self.bytes
    }
}

/// The files of the complete archive: the stored files, then the list of them.
pub open spec fn packed(files: Seq<UploadFile>) -> Seq<NewMember> {
    upload_members(files).push(meta_member(json_list(upload_entries(files))))
}

/// The file that [`UploadZip::add_file`] adds.
pub open spec fn new_file(fname: Seq<char>, data: Option<Vec<u8>>) -> UploadFile {
    UploadFile { fname, data: bytes_of(data) }
}

/// The bytes of a file, if there is one.
pub open spec fn bytes_of(data: Option<Vec<u8>>) -> Option<Seq<u8>> {
    match data {
        Some(data) => Some(data@),
        None => None,
    }
}

/// Stores one file without compression.
fn store(sink: ZipSink, name: &str, bytes: &[u8]) -> (stored: Result<ZipSink, AnkiError>)
    requires
        all_stored(sink_members(sink)),
    ensures
        match stored {
            Ok(stored) => {
                &&& bytes@.len() <= MAX_FILE_BYTES
                &&& all_stored(sink_members(stored))
                &&& sink_members(stored) == sink_members(sink).push(
                    NewMember { name: name@, method: STORED, bytes: bytes@ },
                )
            },
            Err(err) => bytes@.len() > MAX_FILE_BYTES && err@ is Io,
        },
{
    let ghost before = sink_members(sink);
    let sink = match start_file(sink, name, STORED) {
        Ok(sink) => sink,
        Err(err) => return Err(AnkiError::Zip(err)),
    };
    assert(with_bytes(sink_members(sink), bytes@) =~= before.push(
        NewMember { name: name@, method: STORED, bytes: bytes@ },
    )) by {
        assert(Seq::<u8>::empty() + bytes@ =~= bytes@);
    }
    match write_bytes(sink, bytes) {
        Ok(sink) => Ok(sink),
        Err(err) => Err(AnkiError::Io(err)),
    }
}

/// An upload holds no empty file and none that is too large for an archive, and at
/// most one file more than it takes to pass the size limit.
pub proof fn lemma_upload_within_limits(upload: UploadZip)
    requires
        upload.well_formed(),
    ensures
        within_limits(upload@),
{
}

/// Every stored file is one of the upload's, under its own position.
pub proof fn lemma_members_are_files(files: Seq<UploadFile>, at: int)
    requires
        0 <= at < upload_members(files).len(),
    ensures
        exists|i: int|
            #![trigger files[i]]
            0 <= i < files.len() && files[i].data is Some && upload_members(files)[at] == (
            NewMember {
                name: decimal_digits(i as nat),
                method: STORED,
                bytes: files[i].data->0,
            }),
    decreases files.len(),
{
    let rest = files.drop_last();
    if at < upload_members(rest).len() {
        lemma_members_are_files(rest, at);
        let i = choose|i: int|
            #![trigger rest[i]]
            0 <= i < rest.len() && rest[i].data is Some && upload_members(rest)[at] == (NewMember {
                name: decimal_digits(i as nat),
                method: STORED,
                bytes: rest[i].data->0,
            });
        assert(files[i] == rest[i]);
    } else {
        assert(files[files.len() - 1].data is Some);
    }
}

/// Every file of the upload that was not deleted is stored under its position.
pub proof fn lemma_files_are_members(files: Seq<UploadFile>, i: int)
    requires
        0 <= i < files.len(),
        files[i].data is Some,
    ensures
        upload_members(files).contains(
            NewMember {
                name: decimal_digits(i as nat),
                method: STORED,
                bytes: files[i].data->0,
            },
        ),
    decreases files.len(),
{
    let member = NewMember {
        name: decimal_digits(i as nat),
        method: STORED,
        bytes: files[i].data->0,
    };
    let rest = files.drop_last();
    if i < rest.len() {
        lemma_files_are_members(rest, i);
        let at = choose|at: int|
            0 <= at < upload_members(rest).len() && upload_members(rest)[at] == member;
        assert(upload_members(files)[at] == member);
    } else {
        assert(upload_members(files).last() == member);
        assert(upload_members(files)[upload_members(files).len() - 1] == member);
    }
}

/// No two files of the complete archive have the same name.
pub proof fn lemma_packed_names_distinct(files: Seq<UploadFile>, a: int, b: int)
    requires
        0 <= a < b < packed(files).len(),
    ensures
        packed(files)[a].name != packed(files)[b].name,
    decreases files.len(),
{
    let members = upload_members(files);
    lemma_members_are_files(files, a);
    let i = choose|i: int|
        #![trigger files[i]]
        0 <= i < files.len() && members[a].name == decimal_digits(i as nat);
    if b == members.len() {
        lemma_decimal_is_digits(i as nat);
        reveal_strlit("_meta");
        assert(decimal_digits(i as nat)[0] != meta_name()[0]);
    } else {
        let rest = files.drop_last();
        let earlier = upload_members(rest);
        if b < earlier.len() {
            lemma_packed_names_distinct(rest, a, b);
        } else {
            lemma_members_are_files(rest, a);
            let j = choose|j: int|
                #![trigger rest[j]]
                0 <= j < rest.len() && earlier[a].name == decimal_digits(j as nat);
            if members[a].name == members[b].name {
                lemma_decimal_injective(j as nat, (files.len() - 1) as nat);
            }
        }
    }
}

/// Whoever reads the complete archive back finds every file of the upload that was
/// not deleted, by the name that `_meta` lists for it, and finds `_meta`.
pub proof fn lemma_upload_reads_back(files: Seq<UploadFile>, i: int)
    requires
        0 <= i < files.len(),
    ensures
        ({
            let members = read_back(packed(files));
            let meta = json_list(upload_entries(files));
            &&& last_named(members, meta_name()) == Some(members.len() - 1)
            &&& members.last().content == (ZipContent::Data { bytes: encode_utf8(meta) })
            &&& upload_entries(files)[i].0 == files[i].fname
            &&& match (files[i].data, upload_entries(files)[i].1) {
                (Some(bytes), Some(name)) => {
                    let at = last_named(members, name);
                    at is Some && members[at->0].content == (ZipContent::Data { bytes })
                },
                (None, None) => true,
                _ => false,
            }
        }),
{
    let all = packed(files);
    let members = read_back(all);
    assert(members.last() == as_read(all.last()));
    if files[i].data is Some {
        let name = decimal_digits(i as nat);
        lemma_files_are_members(files, i);
        let stored = upload_members(files);
        let k = choose|k: int|
            0 <= k < stored.len() && stored[k] == (NewMember {
                name,
                method: STORED,
                bytes: files[i].data->0,
            });
        assert(members[k] == as_read(all[k]));
        lemma_last_named_in_range(members, name);
        let at = last_named(members, name)->0;
        assert(members[at] == as_read(all[at]));
        if at < k {
            lemma_packed_names_distinct(files, at, k);
        } else if k < at {
            lemma_packed_names_distinct(files, k, at);
        }
    }
}

/// Two archives of the same upload hold the same files, in the same order.
pub proof fn lemma_uploads_alike(a: Seq<u8>, b: Seq<u8>, files: Seq<UploadFile>)
    requires
        holds_upload(a, files),
        holds_upload(b, files),
        storable(packed(files)),
    ensures
        zip_members(a) is Some,
        zip_members(a) == zip_members(b),
{
}

/// The files of a complete archive that is read back are not compressed.
pub proof fn lemma_upload_is_not_compressed(bytes: Seq<u8>, files: Seq<UploadFile>, at: int)
    requires
        holds_upload(bytes, files),
        storable(packed(files)),
        0 <= at < packed(files).len(),
    ensures
        zip_members(bytes) is Some,
        zip_members(bytes)->0.len() == packed(files).len(),
        zip_members(bytes)->0[at].method == STORED,
{
    assert(packed(files)[at].method == STORED);
}

proof fn lemma_members_are_stored(files: Seq<UploadFile>)
    ensures
        all_stored(upload_members(files)),
    decreases files.len(),
{
    if files.len() > 0 {
        lemma_members_are_stored(files.drop_last());
    }
}

/// A moderate upload is packed, and reading it gives back what went in.
pub proof fn lemma_moderate_upload_is_storable(files: Seq<UploadFile>)
    requires
        moderate(files),
    ensures
        list_fits(files),
        storable(packed(files)),
{
    let members = upload_members(files);
    let all = packed(files);
    reveal_strlit("_meta");
    lemma_members_are_stored(files);
    assert forall|i: int| #![trigger all[i]] 0 <= i < all.len() implies {
        &&& all[i].method == STORED
        &&& all[i].name.len() <= 20
        &&& is_ascii_chars(all[i].name)
        &&& all[i].bytes.len() < MAX_FILE_BYTES
    } by {
        if i < members.len() {
            assert(all[i] == members[i]);
            lemma_members_are_files(files, i);
            let k = choose|k: int|
                #![trigger files[k]]
                0 <= k < files.len() && files[k].data is Some && members[i] == (NewMember {
                    name: decimal_digits(k as nat),
                    method: STORED,
                    bytes: files[k].data->0,
                });
            lemma_decimal_length(k as nat);
            lemma_decimal_is_digits(k as nat);
        }
    }
}

/// The size of an upload is the sum of the sizes of its files: that of two parts is
/// that of both together, one file has the number of its bytes, and a deletion has
/// none.
pub proof fn lemma_total_bytes_is_sum(a: Seq<UploadFile>, b: Seq<UploadFile>, file: UploadFile)
    ensures
        total_bytes(a + b) == total_bytes(a) + total_bytes(b),
        file.data is Some ==> total_bytes(seq![file]) == file.data->0.len(),
        file.data is None ==> total_bytes(seq![file]) == 0,
    decreases b.len(),
{
    reveal_with_fuel(total_bytes, 2);
    assert(seq![file].drop_last() =~= Seq::empty());
    if b.len() == 0 {
        assert(a + b =~= a);
    } else {
        assert((a + b).drop_last() =~= a + b.drop_last());
        lemma_total_bytes_is_sum(a, b.drop_last(), file);
    }
}

/// Files of which none is larger than `most` are together no larger than so many times
/// `most`.
pub proof fn lemma_total_bytes_bounded(files: Seq<UploadFile>, most: nat)
    requires
        forall|i: int|
            #![trigger files[i]]
            0 <= i < files.len() && files[i].data is Some ==> files[i].data->0.len() <= most,
    ensures
        total_bytes(files) <= files.len() * most,
    decreases files.len(),
{
    if files.len() > 0 {
        let rest = files.drop_last();
        assert forall|i: int|
            #![trigger rest[i]]
            0 <= i < rest.len() && rest[i].data is Some implies rest[i].data->0.len() <= most by {
            assert(rest[i] == files[i]);
        }
        lemma_total_bytes_bounded(rest, most);
        assert(files[files.len() - 1] == files.last());
        assert(files.len() * most == rest.len() * most + most) by (nonlinear_arith)
            requires
                files.len() == rest.len() + 1,
        ;
    }
}

/// An upload takes no more files once it holds more than two and a half mebibytes.
pub proof fn lemma_size_limit()
    ensures
        SYNC_MAX_BYTES == 5 * 1024 * 1024 / 2,
{
}

/// One file more is stored at the end under the number of files before it, with its
/// bytes and without compression, and is listed under that name; a deletion is listed
/// without a name, and nothing is stored for it.
pub proof fn lemma_one_more_file(files: Seq<UploadFile>, file: UploadFile)
    ensures
        upload_members(Seq::empty()).len() == 0,
        upload_entries(Seq::empty()).len() == 0,
        ({
            let after = files.push(file);
            let name = decimal_digits(files.len());
            match file.data {
                Some(bytes) => {
                    &&& upload_members(after) == upload_members(files).push(
                        NewMember { name, method: 0, bytes },
                    )
                    &&& upload_entries(after) == upload_entries(files).push(
                        (file.fname, Some(name)),
                    )
                },
                None => {
                    &&& upload_members(after) == upload_members(files)
                    &&& upload_entries(after) == upload_entries(files).push((file.fname, None))
                },
            }
        }),
{
    let after = files.push(file);
    assert(after.drop_last() =~= files);
    let entry = (
        file.fname,
        match file.data {
            Some(_) => Some(decimal_digits(files.len())),
            None => None,
        },
    );
    assert forall|i: int| 0 <= i < files.len() implies upload_entries(after)[i] == upload_entries(
        files,
    )[i] by {
        assert(after[i] == files[i]);
    }
    assert(upload_entries(after) =~= upload_entries(files).push(entry));
}

/// The complete archive is made of the stored files and, at its end, an uncompressed
/// `_meta` with the list of all files as JSON.
pub proof fn lemma_packed_ends_with_list(files: Seq<UploadFile>)
    ensures
        packed(files) == upload_members(files).push(
            NewMember {
                name: "_meta"@,
                method: 0,
                bytes: encode_utf8(json_list(upload_entries(files))),
            },
        ),
        list_fits(files) <==> encode_utf8(json_list(upload_entries(files))).len() <= 0xffff_ffff,
{
}

/// An archive of an upload whose files, and whose list of them, have fewer than
/// 4294967295 bytes each holds just the files of the upload that were not deleted,
/// under the names that the list gives, and the list, all uncompressed and in order.
pub proof fn lemma_archive_of_upload(bytes: Seq<u8>, files: Seq<UploadFile>)
    requires
        holds_upload(bytes, files),
        files.len() <= u64::MAX,
        forall|i: int|
            #![trigger files[i]]
            0 <= i < files.len() && files[i].data is Some ==> files[i].data->0.len() < 0xffff_ffff,
        encode_utf8(json_list(upload_entries(files))).len() < 0xffff_ffff,
    ensures
        zip_members(bytes) is Some,
        ({
            let found = zip_members(bytes)->0;
            let stored = upload_members(files);
            &&& found.len() == stored.len() + 1
            &&& forall|k: int|
                #![trigger found[k]]
                0 <= k < stored.len() ==> found[k].name == stored[k].name && found[k].method == 0
                    && found[k].content == (ZipContent::Data { bytes: stored[k].bytes })
            &&& found.last().name == "_meta"@
            &&& found.last().method == 0
            &&& found.last().content == (ZipContent::Data {
                bytes: encode_utf8(json_list(upload_entries(files))),
            })
        }),
{
    lemma_moderate_upload_is_storable(files);
    lemma_members_are_stored(files);
    let all = packed(files);
    let stored = upload_members(files);
    let found = zip_members(bytes)->0;
    assert(found == read_back(all));
    assert forall|k: int| #![trigger found[k]] 0 <= k < stored.len() implies found[k].name
        == stored[k].name && found[k].method == 0 && found[k].content == (ZipContent::Data {
        bytes: stored[k].bytes,
    }) by {
        assert(all[k] == stored[k]);
        assert(stored[k].method == STORED);
        assert(found[k] == as_read(all[k]));
    }
    assert(found.last() == as_read(all.last()));
}

/// The errors for a file without bytes and for a name out of normal form are told in
/// words.
pub proof fn lemma_refusals_in_words()
    ensures
        empty_file() == (ErrorView::Misc { info: "0 byte file found"@ }),
        invalid_filename() == (ErrorView::Misc {
            info: "Invalid filename found. Please use the Check Media function."@,
        }),
{
}

/// What was read of a file is its bytes, or nothing where it is not there.
pub proof fn lemma_bytes_say(data: Option<Vec<u8>>)
    ensures
        bytes_of(data) is Some <==> data is Some,
        data is Some ==> bytes_of(data)->0 == data->0@,
{
}

} // verus!
