//! ZIP archives, as the `zip` crate reads and writes them in memory, and the
//! JSON inside them, as `serde_json` reads and writes it.
//!
//! Every function here makes one call into one of those crates. Its contract
//! says what that call does; Verus takes it on trust. Running out of memory is left
//! out, as it is for the standard library's collections.

use crate::directory::offsets_fit;
use crate::json::json_list;
use std::io::Cursor;
use std::io::Read;
use std::io::Write;
use vstd::prelude::*;
use vstd::utf8::is_ascii_chars;

verus! {

/// An in-memory buffer with a position.
#[verifier::external_type_specification]
#[verifier::external_body]
#[verifier::reject_recursive_types(T)]
pub struct ExCursor<T>(std::io::Cursor<T>);

/// An archive opened for reading.
#[verifier::external_type_specification]
#[verifier::external_body]
#[verifier::reject_recursive_types(R)]
pub struct ExZipArchive<R>(zip::ZipArchive<R>);

/// One file of an archive, opened for reading.
#[verifier::external_type_specification]
#[verifier::external_body]
pub struct ExZipFile<'a>(zip::read::ZipFile<'a>);

/// What reading one file of an archive comes to.
pub enum ZipContent {
    /// The file cannot be opened: it is encrypted, its compression is not
    /// supported, or its header is damaged.
    Closed,
    /// The file opens, but not all of its bytes can be read.
    Damaged,
    /// The file's bytes.
    Data { bytes: Seq<u8> },
}

/// One file of an archive that is read: its name, the number that the ZIP format
/// gives its compression method, and what reading it comes to.
#[verifier::ext_equal]
pub struct ZipMember {
    pub name: Seq<char>,
    pub method: u16,
    pub content: ZipContent,
}

/// One file of an archive that is written: its name, the number that the ZIP
/// format gives its compression method, and its bytes.
#[verifier::ext_equal]
pub struct NewMember {
    pub name: Seq<char>,
    pub method: u16,
    pub bytes: Seq<u8>,
}

/// The ZIP format's number for files that are stored without compression.
pub const STORED: u16 = 0;

/// The files of the archive that `data` holds, in the order of its directory,
/// or `None` where `zip::ZipArchive::new` finds no archive in it.
pub uninterp spec fn zip_members(data: Seq<u8>) -> Option<Seq<ZipMember>>;

/// The files of an open archive.
pub uninterp spec fn archive_members(archive: zip::ZipArchive<Cursor<Vec<u8>>>) -> Seq<ZipMember>;

/// What an open file of an archive holds.
pub uninterp spec fn open_member(file: zip::read::ZipFile<'_>) -> ZipMember;

/// The files written so far.
pub uninterp spec fn sink_members(sink: ZipSink) -> Seq<NewMember>;

/// The object of strings that `serde_json` reads in `text`, or `None` where it
/// reads something else or nothing.
pub uninterp spec fn json_string_map(text: Seq<u8>) -> Option<Map<Seq<char>, Seq<char>>>;

/// The index of the last file named `name`.
pub open spec fn last_named(members: Seq<ZipMember>, name: Seq<char>) -> Option<int>
    decreases members.len(),
{
    if members.len() == 0 {
        None
    } else if members.last().name == name {
        Some(members.len() - 1)
    } else {
        last_named(members.drop_last(), name)
    }
}

/// Whether `pairs` lists the entries of `map`, in some order.
pub open spec fn lists(pairs: Seq<(Seq<char>, Seq<char>)>, map: Map<Seq<char>, Seq<char>>) -> bool {
    &&& forall|i: int|
        #![trigger pairs[i]]
        0 <= i < pairs.len() ==> map.contains_pair(pairs[i].0, pairs[i].1)
    &&& forall|key: Seq<char>| #[trigger]
        map.contains_key(key) ==> exists|i: int|
            #![trigger pairs[i]]
            0 <= i < pairs.len() && pairs[i].0 == key
}

/// The largest size that a file in an archive can have.
pub const MAX_FILE_BYTES: u64 = 0xffff_ffff;

/// Whether no file is compressed.
pub open spec fn all_stored(members: Seq<NewMember>) -> bool {
    forall|i: int| #![trigger members[i]] 0 <= i < members.len() ==> members[i].method == STORED
}

/// How many bytes the headers of `members` and the members themselves take when
/// nothing is compressed.
pub open spec fn stored_size(members: Seq<NewMember>) -> nat
    decreases members.len(),
{
    if members.len() == 0 {
        0
    } else {
        stored_size(members.drop_last()) + 30 + members.last().name.len()
            + members.last().bytes.len()
    }
}

/// An archive of stored files that reading gives back: they have short ASCII names,
/// and none of them has the largest size and starts where that size cannot be told
/// from a mark for larger ones.
pub open spec fn storable(members: Seq<NewMember>) -> bool {
    &&& all_stored(members)
    &&& forall|i: int|
        #![trigger members[i]]
        0 <= i < members.len() ==> {
            &&& members[i].name.len() <= 20
            &&& is_ascii_chars(members[i].name)
            &&& members[i].bytes.len() <= MAX_FILE_BYTES
            &&& members[i].bytes.len() == MAX_FILE_BYTES ==> stored_size(members.take(i))
                <= MAX_FILE_BYTES
        }
}

/// What a reader finds of a file that was written.
pub open spec fn as_read(member: NewMember) -> ZipMember {
    ZipMember {
        name: member.name,
        method: member.method,
        content: ZipContent::Data { bytes: member.bytes },
    }
}

/// What a reader finds of an archive that was written.
pub open spec fn read_back(members: Seq<NewMember>) -> Seq<ZipMember> {
    members.map_values(|member: NewMember| as_read(member))
}

/// Opens the archive in `data`.
///
/// Calls `zip::ZipArchive::new`. It succeeds where `data` holds an archive, and
/// the files are those of the directory at its end. It adds up where a file's
/// header starts, and a build with overflow checks stops where the sum does not fit
/// in 64 bits.
#[verifier::external_body]
pub(crate) fn open_archive(data: Vec<u8>) -> (archive: Result<
    zip::ZipArchive<Cursor<Vec<u8>>>,
    zip::result::ZipError,
>)
    requires
        offsets_fit(data@),
    ensures
        archive is Ok <==> zip_members(data@) is Some,
        archive is Ok ==> archive_members(archive->Ok_0) == zip_members(data@)->0,
{
    zip::ZipArchive::new(Cursor::new(data))
}

/// The number of files in the archive.
///
/// Calls `zip::ZipArchive::len`, the number of files in the directory.
#[verifier::external_body]
pub(crate) fn archive_len(archive: &zip::ZipArchive<Cursor<Vec<u8>>>) -> (len: usize)
    ensures
        len == archive_members(*archive).len(),
{
    archive.len()
}

/// Opens the file that the directory lists at `index`.
///
/// Calls `zip::ZipArchive::by_index`. It succeeds where there is such a file and
/// it can be opened; the archive keeps its files.
#[verifier::external_body]
pub(crate) fn by_index<'a>(
    archive: &'a mut zip::ZipArchive<Cursor<Vec<u8>>>,
    index: usize,
) -> (file: Result<zip::read::ZipFile<'a>, zip::result::ZipError>)
    ensures
        file is Ok <==> {
            &&& index < archive_members(*old(archive)).len()
            &&& archive_members(*old(archive))[index as int].content !is Closed
        },
        file is Ok ==> open_member(file->Ok_0) == archive_members(*old(archive))[index as int],
        archive_members(*final(archive)) == archive_members(*old(archive)),
{
    archive.by_index(index)
}

/// Opens the last file of the directory that has this name.
///
/// Calls `zip::ZipArchive::by_name`. It succeeds where there is such a file and
/// the last of them can be opened; the archive keeps its files.
#[verifier::external_body]
pub(crate) fn by_name<'a>(
    archive: &'a mut zip::ZipArchive<Cursor<Vec<u8>>>,
    name: &str,
) -> (file: Result<zip::read::ZipFile<'a>, zip::result::ZipError>)
    ensures
        file is Ok <==> {
            &&& last_named(archive_members(*old(archive)), name@) is Some
            &&& archive_members(*old(archive))[last_named(
                archive_members(*old(archive)),
                name@,
            )->0].content !is Closed
        },
        file is Ok ==> open_member(file->Ok_0) == archive_members(*old(archive))[last_named(
            archive_members(*old(archive)),
            name@,
        )->0],
        archive_members(*final(archive)) == archive_members(*old(archive)),
{
    archive.by_name(name)
}

/// The name that the directory gives the file.
///
/// Calls `zip::read::ZipFile::name`.
#[verifier::external_body]
pub(crate) fn file_name(file: &zip::read::ZipFile<'_>) -> (name: String)
    ensures
        name@ == open_member(*file).name,
{
    file.name().to_string()
}

/// The bytes of a file that has just been opened.
///
/// Calls `std::io::Read::read_to_end` on a `zip::read::ZipFile`. It gives all the
/// bytes of the file, or fails where they cannot all be read or their checksum
/// is not the directory's.
#[verifier::external_body]
pub(crate) fn read_file(mut file: zip::read::ZipFile<'_>) -> (bytes: Result<
    Vec<u8>,
    std::io::Error,
>)
    ensures
        bytes is Ok <==> open_member(file).content is Data,
        bytes is Ok ==> open_member(file).content == (ZipContent::Data { bytes: bytes->Ok_0@ }),
{
    let mut bytes = Vec::new();
    file.read_to_end(&mut bytes).map(|_len| bytes)
}

/// Reads a file that has just been opened as a JSON object of strings.
///
/// Calls `serde_json::from_reader` for a `HashMap<String, String>` on a
/// `zip::read::ZipFile`. It succeeds where all bytes of the file can be read and
/// are the text of such an object. The order of the pairs is left open.
#[verifier::external_body]
pub(crate) fn read_string_map(file: zip::read::ZipFile<'_>) -> (pairs: Result<
    Vec<(String, String)>,
    serde_json::Error,
>)
    ensures
        pairs is Ok <==> {
            &&& open_member(file).content is Data
            &&& json_string_map(open_member(file).content->bytes) is Some
        },
        pairs is Ok ==> lists(
            pairs->Ok_0.deep_view(),
            json_string_map(open_member(file).content->bytes)->0,
        ),
{
    let map: std::collections::HashMap<String, String> = serde_json::from_reader(file)?;
    Ok(map.into_iter().collect())
}

/// An archive that is being written to memory. The bounds of `zip::ZipWriter`
/// keep it from being declared by itself, so it is held here.
#[verifier::external_body]
pub struct ZipSink {
    inner: zip::ZipWriter<Cursor<Vec<u8>>>,
}

/// Starts an archive without files.
///
/// Calls `zip::ZipWriter::new` on an empty buffer.
#[verifier::external_body]
pub(crate) fn new_sink() -> (sink: ZipSink)
    ensures
        sink_members(sink) == Seq::<NewMember>::empty(),
{
    ZipSink { inner: zip::ZipWriter::new(Cursor::new(Vec::new())) }
}

/// Starts a new file in the archive.
///
/// Calls `zip::ZipWriter::start_file` with default options but for the
/// compression method. On success the archive has one more file, without bytes.
/// It succeeds as long as nothing is compressed.
#[verifier::external_body]
#[allow(deprecated)]
pub(crate) fn start_file(sink: ZipSink, name: &str, method: u16) -> (started: Result<
    ZipSink,
    zip::result::ZipError,
>)
    ensures
        match started {
            Ok(started) => sink_members(started) == sink_members(sink).push(
                NewMember { name: name@, method, bytes: Seq::empty() },
            ),
            Err(_) => method != STORED || !all_stored(sink_members(sink)),
        },
{
    let mut sink = sink;
    let method = zip::CompressionMethod::from_u16(method);
    let options = zip::write::FileOptions::default().compression_method(method);
    sink.inner.start_file(name, options).map(|_done| sink)
}

/// Appends bytes to the file that was started last.
///
/// Calls `std::io::Write::write_all` on a `zip::ZipWriter`. As long as nothing is
/// compressed, it fails just where the file grows past the largest size that a file
/// can have.
#[verifier::external_body]
pub(crate) fn write_bytes(sink: ZipSink, bytes: &[u8]) -> (written: Result<
    ZipSink,
    std::io::Error,
>)
    requires
        sink_members(sink).len() > 0,
    ensures
        written is Ok ==> sink_members(written->Ok_0) == with_bytes(sink_members(sink), bytes@),
        all_stored(sink_members(sink)) ==> (written is Ok <==> with_bytes(
            sink_members(sink),
            bytes@,
        ).last().bytes.len() <= MAX_FILE_BYTES),
{
    let mut sink = sink;
    sink.inner.write_all(bytes).map(|_done| sink)
}

/// `members` with `bytes` appended to the last one's.
pub open spec fn with_bytes(members: Seq<NewMember>, bytes: Seq<u8>) -> Seq<NewMember> {
    members.update(
        members.len() - 1,
        NewMember { bytes: members.last().bytes + bytes, ..members.last() },
    )
}

/// Completes the archive and gives its bytes.
///
/// Calls `zip::ZipWriter::finish`. It succeeds as long as nothing is compressed, and
/// reading the bytes of a storable archive whose last name is short gives back the
/// files that were written. The bytes themselves hold the time of writing, so
/// nothing else is said of them.
#[verifier::external_body]
pub(crate) fn finish_sink(sink: ZipSink) -> (bytes: Result<Vec<u8>, zip::result::ZipError>)
    ensures
        all_stored(sink_members(sink)) ==> bytes is Ok,
        bytes is Ok && storable(sink_members(sink)) && sink_members(sink).len() > 0
            && sink_members(sink).last().name.len() <= 15 ==> zip_members(bytes->Ok_0@) == Some(
            read_back(sink_members(sink)),
        ),
{
    let mut sink = sink;
    sink.inner.finish().map(|buffer| buffer.into_inner())
}

/// Writes a list of pairs as JSON.
///
/// Calls `serde_json::to_string`, which writes a pair as an array of two, text as
/// a string and nothing as `null`, without blanks. Such a list can always be
/// written.
#[verifier::external_body]
pub(crate) fn write_pairs(pairs: &Vec<(String, Option<String>)>) -> (text: Result<
    String,
    serde_json::Error,
>)
    ensures
        text is Ok,
        text->Ok_0@ == json_list(pairs.deep_view()),
{
    serde_json::to_string(pairs)
}

} // verus!
