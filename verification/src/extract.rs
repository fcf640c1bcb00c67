//! Unpacking the archives that the server sends.
//!
//! Such an archive holds the files under made-up names, and a file `_meta` with
//! a JSON object that gives the real name for each of them.

use crate::archive::{
    archive_len, archive_members, by_index, by_name, file_name, json_string_map, last_named, lists,
    open_archive, read_file, read_string_map, zip_members, ZipContent, ZipMember,
};
use crate::directory::{check_offsets, offsets_fit};
use crate::error::{AnkiError, ErrorView};
use crate::text::same_text;
use vstd::prelude::*;

verus! {

/// A file taken out of an archive, under its real name.
#[derive(Debug)]
pub struct ExtractedFile {
    pub fname: String,
    pub data: Vec<u8>,
}

/// What contracts say of an [`ExtractedFile`].
#[verifier::ext_equal]
pub struct ExtractedFileView {
    pub fname: Seq<char>,
    pub data: Seq<u8>,
}

impl View for ExtractedFile {
    type V = ExtractedFileView;

    open spec fn view(&self) -> ExtractedFileView {
        ExtractedFileView { fname: self.fname@, data: self.data@ }
    }
}

impl DeepView for ExtractedFile {
    type V = ExtractedFileView;

    open spec fn deep_view(&self) -> ExtractedFileView {
        self@
    }
}

/// The files that could be taken out of an archive, in the archive's order, and
/// what stopped the unpacking if it stopped early. The files before the failure
/// are good: a caller saves them first and reports the failure afterwards.
#[derive(Debug)]
pub struct Extraction {
    pub files: Vec<ExtractedFile>,
    pub failure: Option<AnkiError>,
}

/// What contracts say of an [`Extraction`].
#[verifier::ext_equal]
pub struct ExtractionView {
    pub files: Seq<ExtractedFileView>,
    pub failure: Option<ErrorView>,
}

impl View for Extraction {
    type V = ExtractionView;

    open spec fn view(&self) -> ExtractionView {
        ExtractionView {
            files: self.files.deep_view(),
            failure: match self.failure {
                Some(err) => Some(err@),
                None => None,
            },
        }
    }
}

/// What is to be done with one file of the archive.
#[derive(Debug)]
pub enum MemberPlan {
    /// It is the list of names, and no media file.
    Skip,
    /// It is the media file of this name.
    Save { fname: String },
    /// The list of names does not have it.
    Malformed,
}

/// The name of the file that lists the real names.
pub open spec fn meta_name() -> Seq<char> {
    "_meta"@
}

/// The error for an archive that gives the start of a file out of range, or has a
/// file that `_meta` does not list.
pub open spec fn malformed_zip() -> ErrorView {
    ErrorView::Misc { info: "malformed zip received"@ }
}

/// How one file of the archive is dealt with: skipped, saved or refused.
pub open spec fn member_outcome(
    names: Map<Seq<char>, Seq<char>>,
    member: ZipMember,
) -> Result<Option<ExtractedFileView>, ErrorView> {
    if member.content is Closed {
        Err(ErrorView::Zip)
    } else if member.name == meta_name() {
        Ok(None)
    } else if !names.contains_key(member.name) {
        Err(malformed_zip())
    } else {
        match member.content {
            ZipContent::Data { bytes } => Ok(
                Some(ExtractedFileView { fname: names[member.name], data: bytes }),
            ),
            _ => Err(ErrorView::Io),
        }
    }
}

/// The files of `members` in order, up to the first that is refused.
pub open spec fn unpacked(
    names: Map<Seq<char>, Seq<char>>,
    members: Seq<ZipMember>,
) -> ExtractionView
    decreases members.len(),
{
    if members.len() == 0 {
        ExtractionView { files: Seq::empty(), failure: None }
    } else {
        let before = unpacked(names, members.drop_last());
        if before.failure is Some {
            before
        } else {
            match member_outcome(names, members.last()) {
                Err(err) => ExtractionView { failure: Some(err), ..before },
                Ok(None) => before,
                Ok(Some(file)) => ExtractionView { files: before.files.push(file), ..before },
            }
        }
    }
}

/// The unpacking of an archive as a whole. Nothing comes out of data that is no
/// archive, gives the start of a file out of range, or has no readable `_meta`.
pub open spec fn extraction(data: Seq<u8>) -> ExtractionView {
    if !offsets_fit(data) {
        failed(malformed_zip())
    } else {
        sound_extraction(data)
    }
}

/// The unpacking of an archive whose files start within range.
pub open spec fn sound_extraction(data: Seq<u8>) -> ExtractionView {
    match zip_members(data) {
        None => failed(ErrorView::Zip),
        Some(members) => match last_named(members, meta_name()) {
            None => failed(ErrorView::Zip),
            Some(at) => match members[at].content {
                ZipContent::Closed => failed(ErrorView::Zip),
                ZipContent::Damaged => failed(ErrorView::Json),
                ZipContent::Data { bytes } => match json_string_map(bytes) {
                    None => failed(ErrorView::Json),
                    Some(names) => unpacked(names, members),
                },
            },
        },
    }
}

/// An unpacking that failed before its first file.
pub open spec fn failed(err: ErrorView) -> ExtractionView {
    ExtractionView { files: Seq::empty(), failure: Some(err) }
}

/// The name that the first pair for `name` gives.
pub open spec fn listed_name(pairs: Seq<(Seq<char>, Seq<char>)>, name: Seq<char>) -> Option<
    Seq<char>,
>
    decreases pairs.len(),
{
    if pairs.len() == 0 {
        None
    } else if pairs.first().0 == name {
        Some(pairs.first().1)
    } else {
        listed_name(pairs.drop_first(), name)
    }
}

/// Decides what to do with the file called `name`, where `names` lists the real
/// names.
pub fn plan_member(names: &Vec<(String, String)>, name: &str) -> (plan: MemberPlan)
    ensures
        match plan {
            MemberPlan::Skip => name@ == meta_name(),
            MemberPlan::Save { fname } => name@ != meta_name() && listed_name(
                names.deep_view(),
                name@,
            ) == Some(fname@),
            MemberPlan::Malformed => name@ != meta_name() && listed_name(
                names.deep_view(),
                name@,
            ) is None,
        },
{
    if same_text(name, "_meta") {
        return MemberPlan::Skip;
    }
    let ghost pairs = names.deep_view();
    let mut i: usize = 0;
    assert(pairs.skip(0) =~= pairs);
    while i < names.len()
        invariant
            i <= names.len(),
            pairs == names.deep_view(),
            name@ != meta_name(),
            listed_name(pairs, name@) == listed_name(pairs.skip(i as int), name@),
        decreases names.len() - i,
    {
        let ghost rest = pairs.skip(i as int);
        assert(rest.first() == (names[i as int].0@, names[i as int].1@));
        assert(rest.drop_first() =~= pairs.skip(i + 1));
        if same_text(names[i].0.as_str(), name) {
            return MemberPlan::Save { fname: names[i].1.clone() };
        }
        i += 1;
    }
    MemberPlan::Malformed
}

/// Looking a name up in a list of a map's entries is looking it up in the map.
proof fn lemma_listed_name(
    pairs: Seq<(Seq<char>, Seq<char>)>,
    map: Map<Seq<char>, Seq<char>>,
    name: Seq<char>,
)
    requires
        lists(pairs, map),
    ensures
        listed_name(pairs, name) == (if map.contains_key(name) {
            Some(map[name])
        } else {
            None
        }),
{
    lemma_listed_name_found(pairs, name);
    match listed_name(pairs, name) {
        Some(found) => {
            let i = choose|i: int|
                #![trigger pairs[i]]
                0 <= i < pairs.len() && pairs[i] == (name, found);
            assert(map.contains_pair(pairs[i].0, pairs[i].1));
        },
        None => {},
    }
}

proof fn lemma_listed_name_found(pairs: Seq<(Seq<char>, Seq<char>)>, name: Seq<char>)
    ensures
        match listed_name(pairs, name) {
            Some(found) => exists|i: int|
                #![trigger pairs[i]]
                0 <= i < pairs.len() && pairs[i] == (name, found),
            None => forall|i: int|
                #![trigger pairs[i]]
                0 <= i < pairs.len() ==> pairs[i].0 != name,
        },
    decreases pairs.len(),
{
    if pairs.len() > 0 {
        let rest = pairs.drop_first();
        lemma_listed_name_found(rest, name);
        if pairs.first().0 == name {
            assert(pairs[0] == (name, pairs.first().1));
        } else {
            match listed_name(rest, name) {
                Some(found) => {
                    let i = choose|i: int|
                        #![trigger rest[i]]
                        0 <= i < rest.len() && rest[i] == (name, found);
                    assert(pairs[i + 1] == (name, found));
                },
                None => {
                    assert forall|i: int|
                        #![trigger pairs[i]]
                        0 <= i < pairs.len() implies pairs[i].0 != name by {
                        if i > 0 {
                            assert(rest[i - 1] == pairs[i]);
                        }
                    }
                },
            }
        }
    }
}

fn stopped(err: AnkiError) -> (extraction: Extraction)
    ensures
        extraction@ == failed(err@),
{
    let extraction = Extraction { files: Vec::new(), failure: Some(err) };
    assert(extraction@ =~= failed(err@));
    extraction
}

fn malformed() -> (err: AnkiError)
    ensures
        err@ == malformed_zip(),
{
    AnkiError::AnkiWebMiscError { info: "malformed zip received".to_owned() }
}

/// Unpacks an archive that the server sent.
pub fn extract_files(data: Vec<u8>) -> (result: Extraction)
    ensures
        result@ == extraction(data@),
{
    if !check_offsets(&data) {
        return stopped(malformed());
    }
    let mut archive = match open_archive(data) {
        Ok(archive) => archive,
        Err(err) => return stopped(AnkiError::Zip(err)),
    };
    let ghost members = archive_members(archive);
    proof {
        lemma_last_named_in_range(members, meta_name());
    }
    let names = match by_name(&mut archive, "_meta") {
        Ok(file) => match read_string_map(file) {
            Ok(names) => names,
            Err(err) => return stopped(AnkiError::Json(err)),
        },
        Err(err) => return stopped(AnkiError::Zip(err)),
    };
    let ghost map = json_string_map(
        members[last_named(members, meta_name())->0].content->bytes,
    )->0;
    let mut files: Vec<ExtractedFile> = Vec::new();
    let mut i: usize = 0;
    let len = archive_len(&archive);
    assert(files.deep_view() =~= unpacked(map, members.take(0)).files);
    while i < len
        invariant
            i <= len,
            len == members.len(),
            archive_members(archive) == members,
            lists(names.deep_view(), map),
            extraction(data@) == unpacked(map, members),
            unpacked(map, members.take(i as int)) == (ExtractionView {
                files: files.deep_view(),
                failure: None,
            }),
        decreases len - i,
    {
        let ghost next = members.take(i + 1);
        let ghost so_far = files.deep_view();
        proof {
            assert(next.drop_last() =~= members.take(i as int));
            assert(next.last() == members[i as int]);
            lemma_listed_name(names.deep_view(), map, members[i as int].name);
            lemma_failure_is_final(map, members, i + 1);
        }
        let failure = match by_index(&mut archive, i) {
            Err(err) => Some(AnkiError::Zip(err)),
            Ok(file) => match plan_member(&names, file_name(&file).as_str()) {
                MemberPlan::Skip => None,
                MemberPlan::Malformed => Some(malformed()),
                MemberPlan::Save { fname } => match read_file(file) {
                    Err(err) => Some(AnkiError::Io(err)),
                    Ok(data) => {
                        let ghost saved = ExtractedFileView { fname: fname@, data: data@ };
                        files.push(ExtractedFile { fname, data });
                        assert(files.deep_view() =~= so_far.push(saved));
                        None
                    },
                },
            },
        };
        if failure.is_some() {
            return Extraction { files, failure };
        }
        i += 1;
    }
    assert(members.take(len as int) =~= members);
    Extraction { files, failure: None }
}

pub(crate) proof fn lemma_last_named_in_range(members: Seq<ZipMember>, name: Seq<char>)
    ensures
        match last_named(members, name) {
            Some(at) => 0 <= at < members.len() && members[at].name == name,
            None => forall|i: int|
                #![trigger members[i]]
                0 <= i < members.len() ==> members[i].name != name,
        },
    decreases members.len(),
{
    if members.len() > 0 && members.last().name != name {
        let rest = members.drop_last();
        lemma_last_named_in_range(rest, name);
        if last_named(rest, name) is None {
            assert forall|i: int|
                #![trigger members[i]]
                0 <= i < members.len() implies members[i].name != name by {
                if i < rest.len() {
                    assert(rest[i] == members[i]);
                }
            }
        }
    }
}

/// Once a file is refused, the files after it change nothing.
pub proof fn lemma_failure_is_final(
    names: Map<Seq<char>, Seq<char>>,
    members: Seq<ZipMember>,
    at: int,
)
    requires
        0 <= at <= members.len(),
    ensures
        unpacked(names, members.take(at)).failure is Some ==> unpacked(names, members) == unpacked(
            names,
            members.take(at),
        ),
    decreases members.len() - at,
{
    if at < members.len() {
        lemma_failure_is_final(names, members, at + 1);
        assert(members.take(at + 1).drop_last() =~= members.take(at));
    } else {
        assert(members.take(at) =~= members);
    }
}

/// Every file that comes out has the name that `_meta` lists for a file of the
/// archive, and that file's bytes.
pub proof fn lemma_extracted_from_members(
    names: Map<Seq<char>, Seq<char>>,
    members: Seq<ZipMember>,
    at: int,
)
    requires
        0 <= at < unpacked(names, members).files.len(),
    ensures
        exists|i: int|
            #![trigger members[i]]
            0 <= i < members.len() && member_outcome(names, members[i]) == Ok::<_, ErrorView>(
                Some(unpacked(names, members).files[at]),
            ),
    decreases members.len(),
{
    let rest = members.drop_last();
    let before = unpacked(names, rest);
    if at < before.files.len() {
        lemma_extracted_from_members(names, rest, at);
        let i = choose|i: int|
            #![trigger rest[i]]
            0 <= i < rest.len() && member_outcome(names, rest[i]) == Ok::<_, ErrorView>(
                Some(before.files[at]),
            );
        assert(members[i] == rest[i]);
    } else {
        assert(members[members.len() - 1] == members.last());
    }
}

/// One file more comes out at the end where it can be read and is listed, whatever its
/// bytes; `_meta` is passed over; and a file that cannot be opened, is not listed or
/// cannot be read stops the unpacking, each with its own error. What came out before
/// stays.
pub proof fn lemma_one_more_member(
    names: Map<Seq<char>, Seq<char>>,
    members: Seq<ZipMember>,
    member: ZipMember,
)
    ensures
        members.len() == 0 ==> unpacked(names, members).files.len() == 0 && unpacked(
            names,
            members,
        ).failure is None,
        ({
            let before = unpacked(names, members);
            let after = unpacked(names, members.push(member));
            let stopped = before.failure is Some;
            let closed = member.content is Closed;
            let is_list = member.name == "_meta"@;
            let listed = names.contains_key(member.name);
            &&& stopped ==> after == before
            &&& !stopped && closed ==> after.files == before.files && after.failure == Some(
                ErrorView::Zip,
            )
            &&& !stopped && !closed && is_list ==> after == before
            &&& !stopped && !closed && !is_list && !listed ==> after.files == before.files
                && after.failure == Some(ErrorView::Misc { info: "malformed zip received"@ })
            &&& !stopped && !is_list && listed && member.content is Damaged ==> after.files
                == before.files && after.failure == Some(ErrorView::Io)
            &&& !stopped && !is_list && listed && member.content is Data ==> after.failure is None
                && after.files == before.files.push(
                ExtractedFileView { fname: names[member.name], data: member.content->bytes },
            )
        }),
{
    assert(members.push(member).drop_last() =~= members);
}

/// Data that is no archive, or an archive without a `_meta` that can be read as an
/// object of strings, gives no files and the error that goes with it; else the last
/// `_meta` gives the names under which all files are unpacked.
pub proof fn lemma_extraction_goes_by_last_list(data: Seq<u8>, members: Seq<ZipMember>, at: int)
    requires
        offsets_fit(data),
    ensures
        zip_members(data) is None ==> extraction(data).files.len() == 0 && extraction(data).failure
            == Some(ErrorView::Zip),
        zip_members(data) == Some(members) && (forall|i: int|
            #![trigger members[i]]
            0 <= i < members.len() ==> members[i].name != "_meta"@) ==> extraction(data).files.len()
            == 0 && extraction(data).failure == Some(ErrorView::Zip),
        zip_members(data) == Some(members) && 0 <= at < members.len() && members[at].name
            == "_meta"@ && (forall|i: int|
            #![trigger members[i]]
            at < i < members.len() ==> members[i].name != "_meta"@) ==> match members[at].content {
            ZipContent::Closed => extraction(data).files.len() == 0 && extraction(data).failure
                == Some(ErrorView::Zip),
            ZipContent::Damaged => extraction(data).files.len() == 0 && extraction(data).failure
                == Some(ErrorView::Json),
            ZipContent::Data { bytes } => match json_string_map(bytes) {
                None => extraction(data).files.len() == 0 && extraction(data).failure == Some(
                    ErrorView::Json,
                ),
                Some(names) => extraction(data) == unpacked(names, members),
            },
        },
{
    lemma_last_named_in_range(members, meta_name());
    if 0 <= at < members.len() && members[at].name == "_meta"@ && (forall|i: int|
        #![trigger members[i]]
        at < i < members.len() ==> members[i].name != "_meta"@) {
        lemma_last_named_is_last(members, meta_name(), at);
    }
}

/// An archive that gives the start of a file out of range is refused as a whole.
pub proof fn lemma_out_of_range_is_refused(data: Seq<u8>)
    requires
        !offsets_fit(data),
    ensures
        extraction(data).files.len() == 0,
        extraction(data).failure == Some(ErrorView::Misc { info: "malformed zip received"@ }),
{
}

proof fn lemma_last_named_is_last(members: Seq<ZipMember>, name: Seq<char>, at: int)
    requires
        0 <= at < members.len(),
        members[at].name == name,
        forall|i: int| #![trigger members[i]] at < i < members.len() ==> members[i].name != name,
    ensures
        last_named(members, name) == Some(at),
    decreases members.len(),
{
    if at < members.len() - 1 {
        let rest = members.drop_last();
        assert(members[members.len() - 1].name != name);
        assert forall|i: int| #![trigger rest[i]] at < i < rest.len() implies rest[i].name != name by {
            assert(rest[i] == members[i]);
        }
        lemma_last_named_is_last(rest, name, at);
    }
}

/// An archive whose files can all be read and, but for `_meta`, are listed there is
/// unpacked whole: all files but `_meta`, in order, under their real names.
pub proof fn lemma_sound_archive_unpacks_whole(
    names: Map<Seq<char>, Seq<char>>,
    members: Seq<ZipMember>,
)
    requires
        forall|i: int|
            #![trigger members[i]]
            0 <= i < members.len() ==> members[i].content is Data && (members[i].name == "_meta"@
                || names.contains_key(members[i].name)),
    ensures
        unpacked(names, members).failure is None,
        unpacked(names, members).files == members.filter(
            |member: ZipMember| member.name != "_meta"@,
        ).map_values(
            |member: ZipMember|
                ExtractedFileView { fname: names[member.name], data: member.content->bytes },
        ),
    decreases members.len(),
{
    let is_file = |member: ZipMember| member.name != "_meta"@;
    let saved = |member: ZipMember|
        ExtractedFileView { fname: names[member.name], data: member.content->bytes };
    reveal(Seq::filter);
    if members.len() > 0 {
        let rest = members.drop_last();
        assert forall|i: int| #![trigger rest[i]] 0 <= i < rest.len() implies rest[i].content
            is Data && (rest[i].name == "_meta"@ || names.contains_key(rest[i].name)) by {
            assert(rest[i] == members[i]);
        }
        lemma_sound_archive_unpacks_whole(names, rest);
        assert(members[members.len() - 1] == members.last());
        if is_file(members.last()) {
            assert(members.filter(is_file).map_values(saved) =~= rest.filter(is_file).map_values(
                saved,
            ).push(saved(members.last())));
        }
    }
    assert(unpacked(names, members).files =~= members.filter(is_file).map_values(saved));
}

/// A file that the archive holds, that can be read and is listed comes out, whatever
/// its bytes, where no file before it stops the unpacking.
pub proof fn lemma_listed_file_comes_out(
    names: Map<Seq<char>, Seq<char>>,
    members: Seq<ZipMember>,
    at: int,
)
    requires
        0 <= at < members.len(),
        members[at].name != "_meta"@,
        forall|i: int|
            #![trigger members[i]]
            0 <= i <= at ==> members[i].content is Data && (members[i].name == "_meta"@
                || names.contains_key(members[i].name)),
    ensures
        unpacked(names, members).files.contains(
            ExtractedFileView { fname: names[members[at].name], data: members[at].content->bytes },
        ),
    decreases members.len() - at,
{
    let file = ExtractedFileView {
        fname: names[members[at].name],
        data: members[at].content->bytes,
    };
    let rest = members.drop_last();
    if at < rest.len() {
        assert forall|i: int| #![trigger rest[i]] 0 <= i <= at implies rest[i].content is Data && (
        rest[i].name == "_meta"@ || names.contains_key(rest[i].name)) by {
            assert(rest[i] == members[i]);
        }
        lemma_listed_file_comes_out(names, rest, at);
        let k = choose|k: int|
            0 <= k < unpacked(names, rest).files.len() && unpacked(names, rest).files[k] == file;
        assert(unpacked(names, members).files[k] == file);
    } else {
        assert forall|i: int| #![trigger rest[i]] 0 <= i < rest.len() implies rest[i].content
            is Data && (rest[i].name == "_meta"@ || names.contains_key(rest[i].name)) by {
            assert(rest[i] == members[i]);
        }
        lemma_sound_archive_unpacks_whole(names, rest);
        assert(members.last() == members[at]);
        assert(unpacked(names, members).files.last() == file);
    }
}

/// The first pair for a name gives the file's real name.
pub proof fn lemma_first_pair_counts(pairs: Seq<(Seq<char>, Seq<char>)>, name: Seq<char>, at: int)
    requires
        0 <= at < pairs.len(),
        pairs[at].0 == name,
        forall|i: int| #![trigger pairs[i]] 0 <= i < at ==> pairs[i].0 != name,
    ensures
        listed_name(pairs, name) == Some(pairs[at].1),
    decreases at,
{
    if at > 0 {
        let rest = pairs.drop_first();
        assert(pairs[0].0 != name);
        assert forall|i: int| #![trigger rest[i]] 0 <= i < at - 1 implies rest[i].0 != name by {
            assert(rest[i] == pairs[i + 1]);
        }
        lemma_first_pair_counts(rest, name, at - 1);
    }
}

/// A name that no pair is for is not listed.
pub proof fn lemma_unlisted_name(pairs: Seq<(Seq<char>, Seq<char>)>, name: Seq<char>)
    requires
        forall|i: int| #![trigger pairs[i]] 0 <= i < pairs.len() ==> pairs[i].0 != name,
    ensures
        listed_name(pairs, name) is None,
{
    lemma_listed_name_found(pairs, name);
}

/// What was extracted says all that it holds.
pub proof fn lemma_extraction_says(file: ExtractedFile, extraction: Extraction)
    ensures
        file@.fname == file.fname@,
        file@.data == file.data@,
        file.deep_view() == file@,
        extraction@.files == extraction.files.deep_view(),
        extraction@.failure is Some <==> extraction.failure is Some,
        extraction.failure is Some ==> extraction@.failure->0 == extraction.failure->0@,
{
}

} // verus!
