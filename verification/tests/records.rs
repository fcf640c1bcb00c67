use media_sync::changes::{
    determine_required_changes, local_copy, LocalState, RequiredChanges, ServerMediaRecord,
};
use media_sync::database::{MediaDatabaseContext, MediaEntry};
use media_sync::reconcile::{batch_files, entry_change, record_batch, EntryChange};
use media_sync::records::{record_additions, record_clean, record_removals, AddedFile};

fn entry(fname: &str, sha1: Option<[u8; 20]>, sync_required: bool) -> MediaEntry {
    MediaEntry { fname: fname.to_string(), sha1, mtime: 5, sync_required }
}

fn record(fname: &str, usn: i32, sha1: &str) -> ServerMediaRecord {
    ServerMediaRecord { fname: fname.to_string(), usn, sha1: sha1.to_string() }
}

fn added(fname: &str, sha1: [u8; 20], mtime: i64) -> AddedFile {
    AddedFile { fname: fname.to_string(), sha1, mtime }
}

fn strings(names: &[&str]) -> Vec<String> {
    names.iter().map(|name| name.to_string()).collect()
}

fn get(ctx: &MediaDatabaseContext, fname: &str) -> Option<MediaEntry> {
    ctx.get_entry(&fname.to_string())
}

fn hex20(first: &str) -> String {
    format!("{}{}", first, "00".repeat(20 - first.len() / 2))
}

#[test]
fn entries_are_found_by_name() {
    let mut ctx = MediaDatabaseContext::new();
    assert!(get(&ctx, "a").is_none());
    ctx.set_entry(entry("a", Some([1; 20]), true));
    ctx.set_entry(entry("b", None, false));
    let a = get(&ctx, "a").unwrap();
    assert_eq!((a.fname.as_str(), a.sha1, a.mtime, a.sync_required), ("a", Some([1; 20]), 5, true));
    assert_eq!(get(&ctx, "b").unwrap().sha1, None);
    ctx.set_entry(entry("a", Some([2; 20]), false));
    assert_eq!(get(&ctx, "a").unwrap().sha1, Some([2; 20]));
    ctx.remove_entry(&"a".to_string());
    assert!(get(&ctx, "a").is_none());
    ctx.remove_entry(&"a".to_string());
    assert!(get(&ctx, "b").is_some());
}

#[test]
fn removals_forget_the_files() {
    let mut ctx = MediaDatabaseContext::new();
    ctx.set_entry(entry("a", Some([1; 20]), false));
    ctx.set_entry(entry("b", Some([1; 20]), false));
    record_removals(&mut ctx, &strings(&["a", "unknown", "a"]));
    assert!(get(&ctx, "a").is_none());
    assert!(get(&ctx, "b").is_some());
}

#[test]
fn additions_are_not_pending() {
    let mut ctx = MediaDatabaseContext::new();
    ctx.set_entry(entry("a", None, true));
    record_additions(&mut ctx, &vec![added("a", [7; 20], 9), added("b", [1; 20], 1), added("b", [2; 20], 2)]);
    let a = get(&ctx, "a").unwrap();
    assert_eq!((a.sha1, a.mtime, a.sync_required), (Some([7; 20]), 9, false));
    // the later of two files of the same name counts
    let b = get(&ctx, "b").unwrap();
    assert_eq!((b.sha1, b.mtime, b.sync_required), (Some([2; 20]), 2, false));
}

#[test]
fn clean_files_are_not_pending() {
    let mut ctx = MediaDatabaseContext::new();
    ctx.set_entry(entry("a", Some([1; 20]), true));
    ctx.set_entry(entry("b", Some([1; 20]), true));
    record_clean(&mut ctx, &strings(&["a", "unknown"]));
    let a = get(&ctx, "a").unwrap();
    assert_eq!((a.sha1, a.mtime, a.sync_required), (Some([1; 20]), 5, false));
    assert!(get(&ctx, "b").unwrap().sync_required);
    assert!(get(&ctx, "unknown").is_none());
}

#[test]
fn records_are_sorted_by_what_they_call_for() {
    let mut sum = [0; 20];
    sum[0] = 0x0f;
    sum[1] = 0xa0;
    let mut ctx = MediaDatabaseContext::new();
    ctx.set_entry(entry("same", Some(sum), false));
    ctx.set_entry(entry("same pending", Some(sum), true));
    ctx.set_entry(entry("differs", Some(sum), false));
    ctx.set_entry(entry("gone", Some(sum), false));
    ctx.set_entry(entry("gone, ours pending", Some(sum), true));
    ctx.set_entry(entry("gone on both", None, true));
    let sha1 = hex20("0fa0");
    let upper = hex20("0FA0");
    let changes = determine_required_changes(
        &ctx,
        &vec![
            record("new", 1, "ab"),
            record("same", 2, &sha1),
            record("same pending", 3, &sha1),
            record("differs", 4, &upper),
            record("gone", 5, ""),
            record("gone, ours pending", 6, ""),
            record("gone on both", 7, ""),
            record("never heard of", 8, ""),
        ],
    );
    assert_eq!(changes.to_download, strings(&["new", "differs"]));
    assert_eq!(changes.to_delete, strings(&["gone", "gone on both"]));
    assert_eq!(changes.to_remove_pending, strings(&["same pending"]));
}

#[test]
fn a_recorded_batch_calls_for_nothing_more() {
    let mut ctx = MediaDatabaseContext::new();
    ctx.set_entry(entry("same pending", Some([0; 20]), true));
    ctx.set_entry(entry("gone", Some([0; 20]), false));
    ctx.set_entry(entry("other", Some([3; 20]), true));
    let records = vec![
        record("new", 1, &"11".repeat(20)),
        record("same pending", 2, &"00".repeat(20)),
        record("gone", 3, ""),
    ];
    let changes = determine_required_changes(&ctx, &records);
    record_batch(&mut ctx, &changes, &vec![added("new", [0x11; 20], 8)]);
    assert!(get(&ctx, "gone").is_none());
    assert_eq!(get(&ctx, "new").unwrap().mtime, 8);
    assert!(!get(&ctx, "same pending").unwrap().sync_required);
    // a file that the batch does not mention stays as it was
    let other = get(&ctx, "other").unwrap();
    assert_eq!((other.sha1, other.mtime, other.sync_required), (Some([3; 20]), 5, true));
    let again = determine_required_changes(&ctx, &records);
    assert!(again.to_download.is_empty());
    assert!(again.to_delete.is_empty());
    assert!(again.to_remove_pending.is_empty());
}

#[test]
fn a_file_deleted_and_added_in_one_batch_stays() {
    let mut ctx = MediaDatabaseContext::new();
    ctx.set_entry(entry("a", Some([1; 20]), false));
    let changes = RequiredChanges {
        to_download: strings(&["a"]),
        to_delete: strings(&["a"]),
        to_remove_pending: Vec::new(),
    };
    record_batch(&mut ctx, &changes, &vec![added("a", [2; 20], 6)]);
    assert_eq!(get(&ctx, "a").unwrap().sha1, Some([2; 20]));
}

#[test]
fn a_batch_looks_at_its_own_files_alone() {
    let mut few = MediaDatabaseContext::new();
    few.set_entry(entry("a", Some([1; 20]), false));
    let mut many = MediaDatabaseContext::new();
    many.set_entry(entry("other", Some([9; 20]), true));
    many.set_entry(entry("a", Some([1; 20]), false));
    let records = vec![record("a", 1, ""), record("b", 2, "ff")];
    let from_few = determine_required_changes(&few, &records);
    let from_many = determine_required_changes(&many, &records);
    assert_eq!(from_few.to_download, from_many.to_download);
    assert_eq!(from_few.to_delete, from_many.to_delete);
    record_batch(&mut few, &from_few, &vec![added("b", [0xff; 20], 3)]);
    record_batch(&mut many, &from_many, &vec![added("b", [0xff; 20], 3)]);
    for fname in ["a", "b"] {
        let left = get(&few, fname).map(|entry| (entry.sha1, entry.mtime, entry.sync_required));
        let right = get(&many, fname).map(|entry| (entry.sha1, entry.mtime, entry.sync_required));
        assert_eq!(left, right);
    }
    assert!(get(&many, "other").unwrap().sync_required);
}

#[test]
fn a_batch_is_about_the_files_it_names() {
    let changes = RequiredChanges {
        to_download: strings(&["wanted"]),
        to_delete: strings(&["gone", "gone too"]),
        to_remove_pending: strings(&["same"]),
    };
    let files = batch_files(&changes, &vec![added("new", [1; 20], 1)]);
    assert_eq!(files, strings(&["gone", "gone too", "new", "same"]));
}

#[test]
fn only_entries_that_differ_are_written() {
    let mut before = MediaDatabaseContext::new();
    before.set_entry(entry("kept", Some([1; 20]), true));
    before.set_entry(entry("sent", Some([1; 20]), true));
    before.set_entry(entry("gone", Some([1; 20]), true));
    before.set_entry(entry("sum", Some([1; 20]), true));
    before.set_entry(entry("lost", Some([1; 20]), true));
    let mut after = MediaDatabaseContext::new();
    after.set_entry(get(&before, "kept").unwrap());
    after.set_entry(entry("sent", Some([1; 20]), false));
    let mut sum = [1; 20];
    sum[19] = 2;
    after.set_entry(entry("sum", Some(sum), true));
    after.set_entry(entry("lost", None, true));
    after.set_entry(entry("new", None, false));
    let change = |fname: &str| entry_change(&before, &after, &fname.to_string());
    assert!(matches!(change("kept"), EntryChange::Keep));
    assert!(matches!(change("unknown"), EntryChange::Keep));
    assert!(matches!(change("gone"), EntryChange::Remove));
    for fname in ["sent", "sum", "lost", "new"] {
        match change(fname) {
            EntryChange::Write { entry } => {
                assert!(entry.same_as(&get(&after, fname).unwrap()));
            }
            other => panic!("unexpected change {:?}", other),
        }
    }
}

#[test]
fn the_local_copy_is_described_in_hexadecimal() {
    let mut ctx = MediaDatabaseContext::new();
    ctx.set_entry(entry("a", Some([0xa5; 20]), true));
    ctx.set_entry(entry("b", None, false));
    let copy = |fname: &str| local_copy(&ctx, &fname.to_string());
    assert_eq!(copy("a"), ("a5".repeat(20), LocalState::InDBAndPending));
    assert_eq!(copy("b"), (String::new(), LocalState::InDBNotPending));
    assert_eq!(copy("c"), (String::new(), LocalState::NotInDB));
}
