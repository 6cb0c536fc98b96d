use pulito::trash::{
    cleanup_expired, delete_from_trash, empty_trash, get_metadata_path, get_trash_dir,
    get_trash_items, move_to_trash, move_to_trash_new, restore_from_trash, TrashError,
    TrashJournal, TrashMetadata,
};

const DAY: i64 = 86400;

fn empty_journal() -> TrashJournal {
    TrashJournal { items: Vec::new() }
}

#[test]
fn move_then_restore_round_trips_the_journal() {
    let mut j = empty_journal();
    let item = move_to_trash(
        &mut j,
        "id-1".to_string(),
        "/home/user/file.txt",
        128,
        false,
        1_000_000,
        3,
        None,
        "/home/user/.local/share/linux-cleaner/trash",
    );
    assert_eq!(j.items.len(), 1);
    assert_eq!(item.original_path, "/home/user/file.txt");
    assert_eq!(item.trash_path, "/home/user/.local/share/linux-cleaner/trash/id-1");

    // The object is still in the trash and nothing occupies the
    // original path: the restore succeeds and hands back the very
    // entry, so the caller's rename puts the object back where it was.
    let restored = restore_from_trash(&mut j, "id-1", true, false).unwrap();
    assert_eq!(restored.original_path, "/home/user/file.txt");
    assert_eq!(restored.trash_path, "/home/user/.local/share/linux-cleaner/trash/id-1");
    assert_eq!(restored.size, 128);
    assert!(j.items.is_empty());
}

#[test]
fn restore_refuses_to_overwrite() {
    let mut j = empty_journal();
    move_to_trash(&mut j, "id-1".to_string(), "/home/user/a", 1, false, 0, 3, None, "/t");
    let r = restore_from_trash(&mut j, "id-1", true, true);
    assert_eq!(r.unwrap_err(), TrashError::AlreadyOccupied);
    assert_eq!(j.items.len(), 1);
}

#[test]
fn restore_drops_stale_entry_with_specific_error() {
    let mut j = empty_journal();
    move_to_trash(&mut j, "id-1".to_string(), "/home/user/a", 1, false, 0, 3, None, "/t");
    let r = restore_from_trash(&mut j, "id-1", false, false);
    assert_eq!(r.unwrap_err(), TrashError::NoLongerExists);
    assert!(j.items.is_empty());
    assert_eq!(
        TrashError::NoLongerExists.message(),
        "item no longer exists in trash"
    );
}

#[test]
fn restore_of_unknown_id_fails() {
    let mut j = empty_journal();
    let r = restore_from_trash(&mut j, "nope", true, false);
    assert_eq!(r.unwrap_err(), TrashError::NotFound);
}

#[test]
fn delete_from_trash_removes_one_entry() {
    let mut j = empty_journal();
    move_to_trash(&mut j, "a".to_string(), "/home/u/a", 1, false, 0, 3, None, "/t");
    move_to_trash(&mut j, "b".to_string(), "/home/u/b", 2, false, 0, 3, None, "/t");
    let gone = delete_from_trash(&mut j, "a").unwrap();
    assert_eq!(gone.original_path, "/home/u/a");
    assert_eq!(j.items.len(), 1);
    assert_eq!(j.items[0].id, "b");
    assert_eq!(delete_from_trash(&mut j, "a").unwrap_err(), TrashError::NotFound);
}

#[test]
fn empty_trash_clears_everything() {
    let mut j = empty_journal();
    move_to_trash(&mut j, "a".to_string(), "/home/u/a", 1, false, 0, 3, None, "/t");
    move_to_trash(&mut j, "b".to_string(), "/home/u/b", 2, false, 0, 3, None, "/t");
    assert_eq!(empty_trash(&mut j), 2);
    assert!(j.items.is_empty());
    assert_eq!(empty_trash(&mut j), 0);
}

#[test]
fn cleanup_expired_is_idempotent() {
    let mut j = empty_journal();
    move_to_trash(&mut j, "old".to_string(), "/home/u/old", 1, false, 0, 1, None, "/t");
    move_to_trash(&mut j, "new".to_string(), "/home/u/new", 2, false, 0, 30, None, "/t");
    // One day has passed for the first entry.
    let removed = cleanup_expired(&mut j, DAY);
    assert_eq!(removed.len(), 1);
    assert_eq!(removed[0].id, "old");
    assert_eq!(j.items.len(), 1);
    // A second sweep with no new expired entries removes zero items,
    // whether run at once or a little later.
    let removed_again = cleanup_expired(&mut j, DAY);
    assert_eq!(removed_again.len(), 0);
    assert_eq!(j.items.len(), 1);
    let removed_later = cleanup_expired(&mut j, 2 * DAY);
    assert_eq!(removed_later.len(), 0);
    assert_eq!(j.items.len(), 1);
}

#[test]
fn negative_retention_expires_immediately() {
    // A negative retention window is accepted; the entry's expiry then
    // lies in the past and the next sweep purges it.
    let mut j = empty_journal();
    let item = move_to_trash(&mut j, "x".to_string(), "/home/u/x", 9, false, 1000 * DAY, -1, None, "/t");
    assert_eq!(item.expires_at, 999 * DAY);
    let removed = cleanup_expired(&mut j, 1000 * DAY);
    assert_eq!(removed.len(), 1);
    assert!(j.items.is_empty());
}

#[test]
fn trash_empty_directory_with_three_day_retention() {
    let now: i64 = 1_700_000_000;
    let mut j = empty_journal();
    let meta = TrashMetadata {
        category: "Cleanup".to_string(),
        risk_level: 0,
        reason: "empty directory".to_string(),
    };
    move_to_trash(
        &mut j,
        "dir-1".to_string(),
        "/home/user/emptydir",
        0,
        true,
        now,
        3,
        Some(meta),
        "/home/user/.local/share/linux-cleaner/trash",
    );
    let data = get_trash_items(&j);
    assert_eq!(data.total_items, 1);
    assert_eq!(data.items.len(), 1);
    assert_eq!(data.items[0].size, 0);
    assert_eq!(data.items[0].item_type, "directory");
    assert_eq!(data.items[0].expires_at, now + 3 * DAY);
    assert_eq!(data.total_size, 0);
}

#[test]
fn trash_listing_sums_sizes() {
    let mut j = empty_journal();
    move_to_trash(&mut j, "a".to_string(), "/home/u/a", 100, false, 0, 3, None, "/t");
    move_to_trash(&mut j, "b".to_string(), "/home/u/b", 250, false, 0, 3, None, "/t");
    let data = get_trash_items(&j);
    assert_eq!(data.total_items, 2);
    assert_eq!(data.total_size, 350);
}

#[test]
fn generated_ids_are_uuid_shaped() {
    let mut j = empty_journal();
    let item = move_to_trash_new(&mut j, "/home/u/a", 5, false, 3, None, "/t").unwrap();
    // The identifier comes back from the generator, not from any input:
    // it has the 36-character hyphenated shape and names the trash path.
    assert_eq!(item.id.len(), 36);
    assert_eq!(item.trash_path, format!("/t/{}", item.id));
    assert_eq!(item.expires_at, item.deleted_at + 3 * DAY);
}

#[test]
fn journal_file_and_root_locations() {
    assert_eq!(
        get_trash_dir("/home/user"),
        "/home/user/.local/share/linux-cleaner/trash"
    );
    assert_eq!(get_metadata_path("/x/trash"), "/x/trash/metadata.json");
}
