//! The directory at the end of a ZIP archive: where the files' headers start.
//!
//! The directory gives the start of each header as a 32-bit number, or as a 64-bit
//! number in an extra field. Where there are other bytes in front of the archive,
//! a reader adds how many there are. A 64-bit number can be made up so that the
//! sum no longer fits, and what is said here tells such an archive apart.

use vstd::prelude::*;

verus! {

/// The number of two bytes at `at`, the low byte first.
pub open spec fn le16(data: Seq<u8>, at: int) -> int {
    data[at] + 0x100 * data[at + 1]
}

/// The number of four bytes at `at`, the low byte first.
pub open spec fn le32(data: Seq<u8>, at: int) -> int {
    le16(data, at) + 0x1_0000 * le16(data, at + 2)
}

/// The number of eight bytes at `at`, the low byte first.
pub open spec fn le64(data: Seq<u8>, at: int) -> int {
    le32(data, at) + 0x1_0000_0000 * le32(data, at + 4)
}

fn read16(data: &Vec<u8>, at: usize) -> (number: u16)
    requires
        at + 2 <= data.len(),
    ensures
        number == le16(data@, at as int),
{
    data[at] as u16 + 0x100 * (data[at + 1] as u16)
}

fn read32(data: &Vec<u8>, at: usize) -> (number: u32)
    requires
        at + 4 <= data.len(),
    ensures
        number == le32(data@, at as int),
{
    read16(data, at) as u32 + 0x1_0000 * (read16(data, at + 2) as u32)
}

fn read64(data: &Vec<u8>, at: usize) -> (number: u64)
    requires
        at + 8 <= data.len(),
    ensures
        number == le64(data@, at as int),
{
    read32(data, at) as u64 + 0x1_0000_0000 * (read32(data, at + 4) as u64)
}

/// What the footer begins with.
pub const FOOTER: u32 = 0x0605_4b50;

/// What the footer for large archives begins with.
pub const LARGE_FOOTER: u32 = 0x0606_4b50;

/// What the pointer to the footer for large archives begins with.
pub const LARGE_LOCATOR: u32 = 0x0706_4b50;

/// What an entry of the directory begins with.
pub const ENTRY: u32 = 0x0201_4b50;

/// The number that stands for one in an extra field.
pub const IN_EXTRA_FIELD: u64 = 0xffff_ffff;

/// The place of the last footer that begins at `from` or before. It is looked for
/// as far from the end as the longest comment allows.
pub open spec fn footer_at(data: Seq<u8>, from: int) -> Option<int>
    decreases from + 1,
{
    if from < 0 || from + 22 + 0xffff < data.len() {
        None
    } else if le32(data, from) == FOOTER {
        Some(from)
    } else {
        footer_at(data, from - 1)
    }
}

/// The place of the first footer for large archives between `from` and `to`.
pub open spec fn large_footer_at(data: Seq<u8>, from: int, to: int) -> Option<int>
    decreases to - from + 1,
{
    if from > to {
        None
    } else if le32(data, from) == LARGE_FOOTER {
        Some(from)
    } else {
        large_footer_at(data, from + 1, to)
    }
}

/// The place of the pointer to the footer for large archives. It stands before a
/// footer that ends with a comment of `comment` bytes and the data.
pub open spec fn large_locator_at(data: Seq<u8>, comment: int) -> Option<int> {
    let at = data.len() - 42 - comment;
    if at >= 0 && le32(data, at) == LARGE_LOCATOR {
        Some(at)
    } else {
        None
    }
}

/// Where the directory starts, how many entries it has, and how many bytes are in
/// front of the archive.
pub struct Directory {
    pub start: u64,
    pub entries: usize,
    pub shift: u64,
}

/// The directory that a small footer at `at` tells of, or `None` where it cannot be
/// in front of the footer.
pub open spec fn small_directory(data: Seq<u8>, at: int) -> Option<Directory> {
    let size = le32(data, at + 12);
    let offset = le32(data, at + 16);
    if at < size + offset {
        None
    } else {
        Some(
            Directory {
                start: (at - size) as u64,
                entries: le16(data, at + 8) as usize,
                shift: (at - size - offset) as u64,
            },
        )
    }
}

/// The directory that a footer for large archives tells of, where the archive's
/// footer is at `at` and the pointer at `locator`, or `None` where there is none or
/// it is on another disk or starts out of range.
pub open spec fn large_directory(data: Seq<u8>, at: int, locator: int) -> Option<Directory> {
    let nominal = le64(data, locator + 8);
    if le16(data, at + 4) != le32(data, locator + 4) {
        None
    } else {
        match large_footer_at(data, nominal, at - 60) {
            None => None,
            Some(end) => if le32(data, end + 16) != le32(data, end + 20) || le64(data, end + 48) + (
            end - nominal) > u64::MAX {
                None
            } else {
                Some(
                    Directory {
                        start: (le64(data, end + 48) + (end - nominal)) as u64,
                        entries: (le64(data, end + 32) as u64) as usize,
                        shift: (end - nominal) as u64,
                    },
                )
            },
        }
    }
}

/// The directory of the archive in `data`, or `None` where a reader finds none.
pub open spec fn directory(data: Seq<u8>) -> Option<Directory> {
    match footer_at(data, data.len() - 22) {
        None => None,
        Some(at) => {
            let comment = le16(data, at + 20);
            if at + 22 + comment > data.len() || le16(data, at + 4) != le16(data, at + 6) {
                None
            } else {
                match large_locator_at(data, comment) {
                    None => small_directory(data, at),
                    Some(locator) => large_directory(data, at, locator),
                }
            }
        },
    }
}

/// A number of an entry, and where the extra field goes on: the number is in the
/// extra field at `at` where it stands for one there. `None` where the extra field,
/// which ends at `end`, is too short.
pub open spec fn number_at(data: Seq<u8>, at: int, end: int, number: int) -> Option<(int, int)> {
    if number != IN_EXTRA_FIELD {
        Some((number, at))
    } else if at + 8 <= end {
        Some((le64(data, at), at + 8))
    } else {
        None
    }
}

/// Where a file's header starts, as the rest of the extra field from `at` to `end`
/// has it, given what is known of the file's size, its compressed size and the
/// start so far.
pub open spec fn start_in_extra_field(
    data: Seq<u8>,
    at: int,
    end: int,
    size: int,
    compressed: int,
    start: int,
) -> int
    decreases end - at,
{
    if at < 0 || at + 4 > end {
        start
    } else {
        let len = le16(data, at + 2);
        let next = if at + 4 + len < end {
            at + 4 + len
        } else {
            end
        };
        if le16(data, at) != 1 {
            start_in_extra_field(data, next, end, size, compressed, start)
        } else {
            match number_at(data, at + 4, end, size) {
                None => start,
                Some((size, a)) => match number_at(data, a, end, compressed) {
                    None => start,
                    Some((compressed, b)) => match number_at(data, b, end, start) {
                        None => start,
                        Some((start, c)) => start_in_extra_field(
                            data,
                            if c < next {
                                next
                            } else {
                                c
                            },
                            end,
                            size,
                            compressed,
                            start,
                        ),
                    },
                },
            }
        }
    }
}

/// Where the entry at `at` ends.
pub open spec fn entry_end(data: Seq<u8>, at: int) -> int {
    at + 46 + le16(data, at + 28) + le16(data, at + 30) + le16(data, at + 32)
}

/// Where the header starts that the entry at `at` tells of, counted from the start
/// of the archive.
pub open spec fn header_start(data: Seq<u8>, at: int) -> int {
    let extra = at + 46 + le16(data, at + 28);
    start_in_extra_field(
        data,
        extra,
        extra + le16(data, at + 30),
        le32(data, at + 24),
        le32(data, at + 20),
        le32(data, at + 42),
    )
}

/// Whether the starts of the headers fit in 64 bits, of `entries` entries from `at`
/// on, with `shift` bytes in front of the archive. A reader stops at what is no
/// whole entry.
pub open spec fn entries_fit(data: Seq<u8>, at: int, entries: nat, shift: int) -> bool
    decreases entries,
{
    if entries == 0 || at + 46 > data.len() || le32(data, at) != ENTRY || entry_end(data, at)
        > data.len() {
        true
    } else {
        &&& header_start(data, at) + shift <= u64::MAX
        &&& entries_fit(data, entry_end(data, at), (entries - 1) as nat, shift)
    }
}

/// Whether the start of every file's header, counted from the start of `data`, fits
/// in 64 bits.
pub open spec fn offsets_fit(data: Seq<u8>) -> bool {
    match directory(data) {
        None => true,
        Some(found) => entries_fit(data, found.start as int, found.entries as nat, found.shift as int),
    }
}

fn find_footer(data: &Vec<u8>) -> (at: Option<usize>)
    ensures
        match at {
            Some(at) => at + 22 <= data.len() && footer_at(data@, data.len() - 22) == Some(
                at as int,
            ),
            None => footer_at(data@, data.len() - 22) is None,
        },
{
    if data.len() < 22 {
        return None;
    }
    let mut from: usize = data.len() - 22;
    while data.len() - from <= 22 + 0xffff
        invariant
            from + 22 <= data.len(),
            footer_at(data@, data.len() - 22) == footer_at(data@, from as int),
        decreases from,
    {
        if read32(data, from) == FOOTER {
            return Some(from);
        }
        if from == 0 {
            assert(footer_at(data@, -1) is None);
            return None;
        }
        from -= 1;
    }
    None
}

fn find_large_footer(data: &Vec<u8>, from: usize, to: usize) -> (at: Option<usize>)
    requires
        to + 4 <= data.len(),
    ensures
        match at {
            Some(at) => from <= at <= to && large_footer_at(data@, from as int, to as int) == Some(
                at as int,
            ),
            None => large_footer_at(data@, from as int, to as int) is None,
        },
{
    let mut at: usize = from;
    while at <= to
        invariant
            from <= at,
            to + 4 <= data.len(),
            large_footer_at(data@, from as int, to as int) == large_footer_at(
                data@,
                at as int,
                to as int,
            ),
        decreases to + 1 - at,
    {
        if read32(data, at) == LARGE_FOOTER {
            return Some(at);
        }
        at += 1;
    }
    None
}

fn read_small_directory(data: &Vec<u8>, at: usize) -> (found: Option<Directory>)
    requires
        at + 22 <= data.len(),
    ensures
        found == small_directory(data@, at as int),
{
    let size = read32(data, at + 12) as u64;
    let offset = read32(data, at + 16) as u64;
    if (at as u64) < size + offset {
        return None;
    }
    Some(
        Directory {
            start: at as u64 - size,
            entries: read16(data, at + 8) as usize,
            shift: at as u64 - size - offset,
        },
    )
}

fn read_large_directory(data: &Vec<u8>, at: usize, locator: usize) -> (found: Option<Directory>)
    requires
        at + 22 <= data.len(),
        locator + 42 <= data.len(),
    ensures
        found == large_directory(data@, at as int, locator as int),
{
    let nominal = read64(data, locator + 8);
    if read16(data, at + 4) as u32 != read32(data, locator + 4) {
        return None;
    }
    if at < 60 || nominal > (at - 60) as u64 {
        return None;
    }
    let from = nominal as usize;
    match find_large_footer(data, from, at - 60) {
        None => None,
        Some(end) => {
            let shift = (end - from) as u64;
            let offset = read64(data, end + 48);
            if read32(data, end + 16) != read32(data, end + 20) || offset > u64::MAX - shift {
                return None;
            }
            Some(
                Directory {
                    start: offset + shift,
                    entries: read64(data, end + 32) as usize,
                    shift,
                },
            )
        },
    }
}

fn read_directory(data: &Vec<u8>) -> (found: Option<Directory>)
    ensures
        found == directory(data@),
{
    let at = match find_footer(data) {
        None => return None,
        Some(at) => at,
    };
    let comment = read16(data, at + 20) as usize;
    if data.len() - at - 22 < comment || read16(data, at + 4) != read16(data, at + 6) {
        return None;
    }
    if data.len() >= 42 && data.len() - 42 >= comment {
        let locator = data.len() - 42 - comment;
        if read32(data, locator) == LARGE_LOCATOR {
            return read_large_directory(data, at, locator);
        }
    }
    read_small_directory(data, at)
}

fn read_number(data: &Vec<u8>, at: usize, end: usize, number: u64) -> (read: Option<(u64, usize)>)
    requires
        at <= end <= data.len(),
    ensures
        match read {
            Some((value, next)) => {
                &&& at <= next <= end
                &&& number_at(data@, at as int, end as int, number as int) == Some(
                    (value as int, next as int),
                )
            },
            None => number_at(data@, at as int, end as int, number as int) is None,
        },
{
    if number != IN_EXTRA_FIELD {
        Some((number, at))
    } else if end - at >= 8 {
        Some((read64(data, at), at + 8))
    } else {
        None
    }
}

fn read_start(
    data: &Vec<u8>,
    from: usize,
    end: usize,
    size: u64,
    compressed: u64,
    start: u64,
) -> (found: u64)
    requires
        from <= end <= data.len(),
    ensures
        found == start_in_extra_field(
            data@,
            from as int,
            end as int,
            size as int,
            compressed as int,
            start as int,
        ),
{
    let ghost result = start_in_extra_field(
        data@,
        from as int,
        end as int,
        size as int,
        compressed as int,
        start as int,
    );
    let mut at: usize = from;
    let mut known_size: u64 = size;
    let mut known_compressed: u64 = compressed;
    let mut known_start: u64 = start;
    while end - at >= 4
        invariant
            at <= end <= data.len(),
            result == start_in_extra_field(
                data@,
                from as int,
                end as int,
                size as int,
                compressed as int,
                start as int,
            ),
            result == start_in_extra_field(
                data@,
                at as int,
                end as int,
                known_size as int,
                known_compressed as int,
                known_start as int,
            ),
        decreases end - at,
    {
        let len = read16(data, at + 2) as usize;
        let next = if end - at - 4 < len { end } else { at + 4 + len };
        if read16(data, at) != 1 {
            at = next;
        } else {
            let (new_size, a) = match read_number(data, at + 4, end, known_size) {
                None => return known_start,
                Some(read) => read,
            };
            let (new_compressed, b) = match read_number(data, a, end, known_compressed) {
                None => return known_start,
                Some(read) => read,
            };
            let (new_start, c) = match read_number(data, b, end, known_start) {
                None => return known_start,
                Some(read) => read,
            };
            at = if c < next { next } else { c };
            known_size = new_size;
            known_compressed = new_compressed;
            known_start = new_start;
        }
    }
    known_start
}

/// Tells whether the start of every file's header fits in 64 bits.
pub fn check_offsets(data: &Vec<u8>) -> (fit: bool)
    ensures
        fit == offsets_fit(data@),
{
    let found = match read_directory(data) {
        None => return true,
        Some(found) => found,
    };
    if found.start > data.len() as u64 {
        return true;
    }
    let mut at = found.start as usize;
    let mut entries: usize = found.entries;
    while entries > 0
        invariant
            at <= data.len(),
            directory(data@) == Some(found),
            offsets_fit(data@) == entries_fit(
                data@,
                at as int,
                entries as nat,
                found.shift as int,
            ),
        decreases entries,
    {
        if data.len() - at < 46 || read32(data, at) != ENTRY {
            return true;
        }
        let name = read16(data, at + 28) as usize;
        let extra = read16(data, at + 30) as usize;
        let comment = read16(data, at + 32) as usize;
        if data.len() - at - 46 < name + extra + comment {
            return true;
        }
        let from = at + 46 + name;
        let start = read_start(
            data,
            from,
            from + extra,
            read32(data, at + 24) as u64,
            read32(data, at + 20) as u64,
            read32(data, at + 42) as u64,
        );
        if start > u64::MAX - found.shift {
            return false;
        }
        at = from + extra + comment;
        entries -= 1;
    }
    true
}

/// Numbers are read byte by byte, the low byte first.
pub proof fn lemma_little_endian(data: Seq<u8>, at: int)
    ensures
        le16(data, at) == data[at] + 0x100 * data[at + 1],
        le32(data, at) == data[at] + 0x100 * data[at + 1] + 0x1_0000 * data[at + 2] + 0x100_0000
            * data[at + 3],
        le64(data, at) == data[at] + 0x100 * data[at + 1] + 0x1_0000 * data[at + 2] + 0x100_0000
            * data[at + 3] + 0x1_0000_0000 * data[at + 4] + 0x100_0000_0000 * data[at + 5]
            + 0x1_0000_0000_0000 * data[at + 6] + 0x100_0000_0000_0000 * data[at + 7],
{
}

/// Only an archive is refused that gives the start of a file out of range: it has a
/// directory entry that says that the start is in an extra field, and eight bytes that
/// make a number so large that it leaves the 64-bit range with the size of the data
/// added. The data is taken to be no larger than fits in memory.
pub proof fn lemma_refused_only_where_out_of_range(data: Seq<u8>)
    requires
        data.len() <= 0x7fff_ffff_ffff_ffff,
        !offsets_fit(data),
    ensures
        exists|p: int, q: int|
            #![trigger le32(data, p), le64(data, q)]
            {
                &&& 0 <= p && p + 46 <= data.len()
                &&& le32(data, p) == 0x0201_4b50
                &&& le32(data, p + 42) == 0xffff_ffff
                &&& 0 <= q && q + 8 <= data.len()
                &&& le64(data, q) + data.len() > u64::MAX
            },
{
    let found = directory(data)->0;
    lemma_shift_in_data(data);
    lemma_misfit(data, found.start as int, found.entries as nat, found.shift as int);
    let (p, q) = choose|p: int, q: int|
        #![trigger le32(data, p), le64(data, q)]
        {
            &&& 0 <= p && p + 46 <= data.len()
            &&& le32(data, p) == ENTRY
            &&& le32(data, p + 42) == IN_EXTRA_FIELD
            &&& 0 <= q && q + 8 <= data.len()
            &&& le64(data, q) + found.shift > u64::MAX
        };
    assert(le32(data, p) == 0x0201_4b50 && le64(data, q) + data.len() > u64::MAX);
}

/// There are not more bytes in front of an archive than there are bytes.
proof fn lemma_shift_in_data(data: Seq<u8>)
    requires
        data.len() <= 0x7fff_ffff_ffff_ffff,
        directory(data) is Some,
    ensures
        directory(data)->0.shift <= data.len(),
{
    let at = footer_at(data, data.len() - 22)->0;
    lemma_footer_in_data(data, data.len() - 22);
    match large_locator_at(data, le16(data, at + 20)) {
        None => {},
        Some(locator) => {
            lemma_large_footer_in_data(data, le64(data, locator + 8), at - 60);
        },
    }
}

proof fn lemma_footer_in_data(data: Seq<u8>, from: int)
    ensures
        footer_at(data, from) is Some ==> 0 <= footer_at(data, from)->0 <= from,
    decreases from + 1,
{
    if !(from < 0 || from + 22 + 0xffff < data.len()) && le32(data, from) != FOOTER {
        lemma_footer_in_data(data, from - 1);
    }
}

proof fn lemma_large_footer_in_data(data: Seq<u8>, from: int, to: int)
    ensures
        large_footer_at(data, from, to) is Some ==> from <= large_footer_at(data, from, to)->0
            <= to,
    decreases to - from + 1,
{
    if from <= to && le32(data, from) != LARGE_FOOTER {
        lemma_large_footer_in_data(data, from + 1, to);
    }
}

/// Where the starts of the headers do not fit, some entry has its start in an extra
/// field, and the number there is too large.
proof fn lemma_misfit(data: Seq<u8>, at: int, entries: nat, shift: int)
    requires
        0 <= at,
        0 <= shift <= 0x7fff_ffff_ffff_ffff,
        !entries_fit(data, at, entries, shift),
    ensures
        exists|p: int, q: int|
            #![trigger le32(data, p), le64(data, q)]
            {
                &&& 0 <= p && p + 46 <= data.len()
                &&& le32(data, p) == ENTRY
                &&& le32(data, p + 42) == IN_EXTRA_FIELD
                &&& 0 <= q && q + 8 <= data.len()
                &&& le64(data, q) + shift > u64::MAX
            },
    decreases entries,
{
    if header_start(data, at) + shift <= u64::MAX {
        lemma_misfit(data, entry_end(data, at), (entries - 1) as nat, shift);
    } else {
        let extra = at + 46 + le16(data, at + 28);
        let end = extra + le16(data, at + 30);
        lemma_start_is_read(
            data,
            extra,
            end,
            le32(data, at + 24),
            le32(data, at + 20),
            le32(data, at + 42),
        );
        let q = choose|q: int|
            #![trigger le64(data, q)]
            extra <= q && q + 8 <= end && header_start(data, at) == le64(data, q);
        assert(le32(data, at) == ENTRY && le64(data, q) + shift > u64::MAX);
    }
}

/// The start of a header is the number that the entry gives, or where that stands for
/// one in the extra field, a number there.
proof fn lemma_start_is_read(
    data: Seq<u8>,
    at: int,
    end: int,
    size: int,
    compressed: int,
    start: int,
)
    requires
        0 <= at,
    ensures
        ({
            let found = start_in_extra_field(data, at, end, size, compressed, start);
            found == start || start == IN_EXTRA_FIELD && exists|q: int|
                #![trigger le64(data, q)]
                at <= q && q + 8 <= end && found == le64(data, q)
        }),
    decreases end - at,
{
    if at + 4 <= end {
        let len = le16(data, at + 2);
        let next = if at + 4 + len < end {
            at + 4 + len
        } else {
            end
        };
        if le16(data, at) != 1 {
            lemma_start_is_read(data, next, end, size, compressed, start);
        } else {
            match number_at(data, at + 4, end, size) {
                None => {},
                Some((size, a)) => match number_at(data, a, end, compressed) {
                    None => {},
                    Some((compressed, b)) => match number_at(data, b, end, start) {
                        None => {},
                        Some((new_start, c)) => {
                            let on = if c < next {
                                next
                            } else {
                                c
                            };
                            lemma_start_is_read(data, on, end, size, compressed, new_start);
                            if start == IN_EXTRA_FIELD {
                                assert(b >= at && b + 8 <= end && new_start == le64(data, b));
                            }
                        },
                    },
                },
            }
        }
    }
}

} // verus!
