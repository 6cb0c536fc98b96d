//! Reversible deletion. A journal of `TrashItem` records is the sole
//! source of truth for everything under the trash root: moving a path
//! to trash appends an entry, restoring or purging removes it. The
//! journal here is a plain owned value; reading it from disk, renaming
//! files and persisting it again are the caller's side of the split.
use vstd::prelude::*;
use vstd::string::StringExecFns;

use crate::strutil::join_path;

verus! {

/// Optional free-form information recorded with a trashed item.
#[derive(Debug)]
pub struct TrashMetadata {
    pub category: String,
    pub risk_level: u8,
    pub reason: String,
}

/// One journal entry: where the object came from, where it now lives
/// under the trash root, when it was trashed and when it expires.
#[derive(Debug)]
pub struct TrashItem {
    pub id: String,
    pub original_path: String,
    pub trash_path: String,
    pub deleted_at: i64,
    pub expires_at: i64,
    pub size: u64,
    pub item_type: String,
    pub metadata: Option<TrashMetadata>,
}

/// The full journal plus aggregate size and count, as handed to
/// callers.
#[derive(Debug)]
pub struct TrashData {
    pub items: Vec<TrashItem>,
    pub total_size: u64,
    pub total_items: usize,
}

/// The owned journal of currently trashed items.
#[derive(Debug)]
pub struct TrashJournal {
    pub items: Vec<TrashItem>,
}

/// A typed trash failure, with distinguishable causes so a caller can
/// react differently to each.
#[derive(Clone, Copy, Debug, PartialEq, Eq, Structural)]
pub enum TrashError {
    /// No journal entry carries the requested id.
    NotFound,
    /// The journal entry existed but its backing object vanished; the
    /// stale entry has been dropped.
    NoLongerExists,
    /// Something already occupies the original path; nothing is
    /// overwritten.
    AlreadyOccupied,
    /// A freshly generated identifier collided with a journal entry.
    DuplicateId,
    /// The clock reading was implausible; recording an expiry from it
    /// would overflow.
    ClockOutOfRange,
}

impl TrashError {
    /// A short human-readable description of the failure.
    pub fn message(&self) -> (r: &'static str)
        ensures
            *self is NotFound ==> r@ == "item not found in trash"@,
            *self is NoLongerExists ==> r@ == "item no longer exists in trash"@,
            *self is AlreadyOccupied ==> r@ == "cannot restore: path already exists"@,
            *self is DuplicateId ==> r@ == "generated trash id already in use"@,
            *self is ClockOutOfRange ==> r@ == "clock reading out of range"@,
    {
        match self {
            TrashError::NotFound => "item not found in trash",
            TrashError::NoLongerExists => "item no longer exists in trash",
            TrashError::AlreadyOccupied => "cannot restore: path already exists",
            TrashError::DuplicateId => "generated trash id already in use",
            TrashError::ClockOutOfRange => "clock reading out of range",
        }
    }
}

/// Some journal entry carries the id.
pub open spec fn has_id(s: Seq<TrashItem>, id: Seq<char>) -> bool {
    exists|i: int| 0 <= i < s.len() && s[i].id@ == id
}

/// The first index whose entry carries the id, or -1.
pub open spec fn find_id(s: Seq<TrashItem>, id: Seq<char>) -> int
    decreases s.len(),
{
    if s.len() == 0 {
        -1
    } else if s[0].id@ == id {
        0
    } else {
        let r = find_id(s.drop_first(), id);
        if r < 0 {
            -1
        } else {
            r + 1
        }
    }
}

/// `find_id` returns the first matching index, or -1 when none
/// matches.
pub proof fn lemma_find_id(s: Seq<TrashItem>, id: Seq<char>)
    ensures
        find_id(s, id) == -1 ==> !has_id(s, id),
        find_id(s, id) != -1 ==> 0 <= find_id(s, id) < s.len() && s[find_id(s, id)].id@ == id
            && (forall|k: int| 0 <= k < find_id(s, id) ==> s[k].id@ != id),
    decreases s.len(),
{
    if s.len() > 0 && s[0].id@ != id {
        lemma_find_id(s.drop_first(), id);
        let rest = s.drop_first();
        if find_id(rest, id) == -1 {
            assert forall|i: int| 0 <= i < s.len() implies s[i].id@ != id by {
                if i > 0 {
                    assert(s[i] == rest[i - 1]);
                }
            }
        } else {
            assert(s[find_id(s, id)] == rest[find_id(rest, id)]);
            assert forall|k: int| 0 <= k < find_id(s, id) implies s[k].id@ != id by {
                if k > 0 {
                    assert(s[k] == rest[k - 1]);
                }
            }
        }
    }
}

/// The entries that have expired by `now`, in journal order.
pub open spec fn expired_of(s: Seq<TrashItem>, now: i64) -> Seq<TrashItem> {
    s.filter(|t: TrashItem| t.expires_at <= now)
}

/// The entries still alive at `now`, in journal order.
pub open spec fn remaining_of(s: Seq<TrashItem>, now: i64) -> Seq<TrashItem> {
    s.filter(|t: TrashItem| t.expires_at > now)
}

/// The sum of the recorded sizes of all entries.
pub open spec fn sum_sizes(s: Seq<TrashItem>) -> int
    decreases s.len(),
{
    if s.len() == 0 {
        0
    } else {
        sum_sizes(s.drop_last()) + s.last().size
    }
}

/// Relies on uuid::Uuid::new_v4 and its hyphenated Display form: a
/// random identifier rendered as 36 ASCII characters. The generator
/// panics only if the operating system's randomness source fails,
/// an environmental failure no input can avoid.
#[verifier::external_body]
pub(crate) fn fresh_id() -> (r: String)
    ensures
        r@.len() == 36,
{
    uuid::Uuid::new_v4().to_string()
}

/// Relies on chrono::Utc::now: the current wall-clock time as Unix
/// seconds. Nothing is promised of the value; the call panics only if
/// the system clock reads before 1970, an environmental failure no
/// input can avoid.
#[verifier::external_body]
fn now_unix() -> i64 {
    chrono::Utc::now().timestamp()
}

/// Find the first journal index carrying `id`.
fn find_index(items: &Vec<TrashItem>, id: &str) -> (r: Option<usize>)
    ensures
        match r {
            Some(i) => find_id(items@, id@) == i as int,
            None => find_id(items@, id@) == -1,
        },
{
    proof {
        lemma_find_id(items@, id@);
    }
    let n = items.len();
    let mut i: usize = 0;
    while i < n
        invariant
            n == items@.len(),
            i <= n,
            forall|k: int| 0 <= k < i ==> items@[k].id@ != id@,
            find_id(items@, id@) == -1 ==> !has_id(items@, id@),
            find_id(items@, id@) != -1 ==> 0 <= find_id(items@, id@) < items@.len()
                && items@[find_id(items@, id@)].id@ == id@ && (forall|k: int|
                0 <= k < find_id(items@, id@) ==> items@[k].id@ != id@),
        decreases n - i,
    {
        if crate::strutil::str_eq(items[i].id.as_str(), id) {
            return Some(i);
        }
        i += 1;
    }
    assert(!has_id(items@, id@));
    None
}

/// Copy one journal entry field by field.
fn clone_item(t: &TrashItem) -> (r: TrashItem)
    ensures
        r == *t,
{
    TrashItem {
        id: t.id.clone(),
        original_path: t.original_path.clone(),
        trash_path: t.trash_path.clone(),
        deleted_at: t.deleted_at,
        expires_at: t.expires_at,
        size: t.size,
        item_type: t.item_type.clone(),
        metadata: match &t.metadata {
            Some(m) => Some(
                TrashMetadata {
                    category: m.category.clone(),
                    risk_level: m.risk_level,
                    reason: m.reason.clone(),
                },
            ),
            None => None,
        },
    }
}

/// Record a move into the trash: append a journal entry for the object
/// that the caller has renamed (or is about to rename) from
/// `original_path` to `trash_root/id`. The expiry is `retention_days`
/// days after `now`.
pub fn move_to_trash(
    journal: &mut TrashJournal,
    id: String,
    original_path: &str,
    size: u64,
    is_dir: bool,
    now: i64,
    retention_days: i64,
    metadata: Option<TrashMetadata>,
    trash_root: &str,
) -> (item: TrashItem)
    requires
        i64::MIN <= retention_days * 86400 <= i64::MAX,
        i64::MIN <= now + retention_days * 86400 <= i64::MAX,
    ensures
        final(journal).items@ =~= old(journal).items@.push(item),
        item.id@ == id@,
        item.original_path@ == original_path@,
        item.trash_path@ == trash_root@ + "/"@ + id@,
        item.deleted_at == now,
        item.expires_at == now + retention_days * 86400,
        item.size == size,
        item.item_type@ == (if is_dir {
            "directory"@
        } else {
            "file"@
        }),
        item.metadata == metadata,
{
    let trash_path = join_path(trash_root, id.as_str());
    let item_type = if is_dir {
        String::from_str("directory")
    } else {
        String::from_str("file")
    };
    let expires_at = now + retention_days * 86400;
    let item = TrashItem {
        id,
        original_path: String::from_str(original_path),
        trash_path,
        deleted_at: now,
        expires_at,
        size,
        item_type,
        metadata,
    };
    let recorded = clone_item(&item);
    journal.items.push(recorded);
    item
}

/// As `move_to_trash`, but generate a fresh identifier and read the
/// clock here. Fails only if the generated identifier collides with an
/// existing entry.
pub fn move_to_trash_new(
    journal: &mut TrashJournal,
    original_path: &str,
    size: u64,
    is_dir: bool,
    retention_days: i64,
    metadata: Option<TrashMetadata>,
    trash_root: &str,
) -> (r: Result<TrashItem, TrashError>)
    requires
        i64::MIN <= retention_days * 86400 <= i64::MAX,
    ensures
        (r matches Ok(item) ==> final(journal).items@ =~= old(journal).items@.push(item)
            && !has_id(old(journal).items@, item.id@) && item.original_path@ == original_path@
            && item.trash_path@ == trash_root@ + "/"@ + item.id@ && item.expires_at
            == item.deleted_at + retention_days * 86400 && item.size == size && item.item_type@
            == (if is_dir {
            "directory"@
        } else {
            "file"@
        }) && item.metadata == metadata),
        r is Err ==> (r == Err::<TrashItem, TrashError>(TrashError::DuplicateId) || r == Err::<
            TrashItem,
            TrashError,
        >(TrashError::ClockOutOfRange)) && *final(journal) == *old(journal),
        r == Err::<TrashItem, TrashError>(TrashError::DuplicateId) ==> old(
            journal,
        ).items@.len() > 0,
{
    let id = fresh_id();
    if find_index(&journal.items, id.as_str()).is_some() {
        proof {
            lemma_find_id(journal.items@, id@);
        }
        return Err(TrashError::DuplicateId);
    }
    let retention_secs = retention_days * 86400;
    let now = now_unix();
    // A clock reading that would push the expiry past the type's range
    // is refused rather than overflowed.
    if retention_secs >= 0 && now > i64::MAX - retention_secs {
        return Err(TrashError::ClockOutOfRange);
    }
    if retention_secs < 0 && now < i64::MIN - retention_secs {
        return Err(TrashError::ClockOutOfRange);
    }
    proof {
        lemma_find_id(journal.items@, id@);
    }
    Ok(
        move_to_trash(
            journal,
            id,
            original_path,
            size,
            is_dir,
            now,
            retention_days,
            metadata,
            trash_root,
        ),
    )
}

/// Restore decision and journal update for entry `id`. The caller
/// reports whether the trashed object is still on disk and whether
/// something already occupies the original path; on `Ok` it renames
/// the returned `trash_path` back to `original_path`.
pub fn restore_from_trash(
    journal: &mut TrashJournal,
    id: &str,
    trash_exists: bool,
    original_exists: bool,
) -> (r: Result<TrashItem, TrashError>)
    ensures
        ({
            let idx = find_id(old(journal).items@, id@);
            &&& (idx == -1 ==> r == Err::<TrashItem, TrashError>(TrashError::NotFound) && *final(journal) == *old(journal))
            &&& (idx != -1 && !trash_exists ==> r == Err::<TrashItem, TrashError>(
                TrashError::NoLongerExists,
            ) && final(journal).items@ =~= old(journal).items@.remove(idx))
            &&& (idx != -1 && trash_exists && original_exists ==> r == Err::<
                TrashItem,
                TrashError,
            >(TrashError::AlreadyOccupied) && *final(journal) == *old(journal))
            &&& (idx != -1 && trash_exists && !original_exists ==> r == Ok::<
                TrashItem,
                TrashError,
            >(old(journal).items@[idx]) && final(journal).items@ =~= old(journal).items@.remove(
                idx,
            ))
        }),
{
    let idx = match find_index(&journal.items, id) {
        Some(i) => i,
        None => {
            return Err(TrashError::NotFound);
        },
    };
    proof {
        lemma_find_id(journal.items@, id@);
    }
    if !trash_exists {
        // The backing object vanished out of band: reconcile by
        // dropping the stale entry.
        let _stale = journal.items.remove(idx);
        return Err(TrashError::NoLongerExists);
    }
    if original_exists {
        return Err(TrashError::AlreadyOccupied);
    }
    let item = journal.items.remove(idx);
    Ok(item)
}

/// Permanently drop entry `id` from the journal, returning it so the
/// caller can remove the backing object.
pub fn delete_from_trash(journal: &mut TrashJournal, id: &str) -> (r: Result<
    TrashItem,
    TrashError,
>)
    ensures
        ({
            let idx = find_id(old(journal).items@, id@);
            &&& (idx == -1 ==> r == Err::<TrashItem, TrashError>(TrashError::NotFound) && *final(journal) == *old(journal))
            &&& (idx != -1 ==> r == Ok::<TrashItem, TrashError>(old(journal).items@[idx]) && final(journal).items@ =~= old(journal).items@.remove(idx))
        }),
{
    let idx = match find_index(&journal.items, id) {
        Some(i) => i,
        None => {
            return Err(TrashError::NotFound);
        },
    };
    proof {
        lemma_find_id(journal.items@, id@);
    }
    let item = journal.items.remove(idx);
    Ok(item)
}

/// Drop every journal entry, returning how many there were. The caller
/// removes the backing objects (best effort) before calling.
pub fn empty_trash(journal: &mut TrashJournal) -> (count: usize)
    ensures
        count == old(journal).items@.len(),
        final(journal).items@ =~= Seq::<TrashItem>::empty(),
{
    let count = journal.items.len();
    journal.items.clear();
    count
}

/// Sweep the journal: remove and return every entry whose expiry has
/// passed, keeping the rest in order. The caller removes the backing
/// objects of the returned entries.
pub fn cleanup_expired(journal: &mut TrashJournal, now: i64) -> (removed: Vec<TrashItem>)
    ensures
        final(journal).items@ =~= remaining_of(old(journal).items@, now),
        removed@ =~= expired_of(old(journal).items@, now),
{
    let n = journal.items.len();
    let mut keep: Vec<TrashItem> = Vec::new();
    let mut removed: Vec<TrashItem> = Vec::new();
    let mut i: usize = 0;
    proof {
        lemma_filter_base(now);
        assert(journal.items@.take(0) =~= Seq::<TrashItem>::empty());
    }
    while i < n
        invariant
            journal.items@ == old(journal).items@,
            n == journal.items@.len(),
            i <= n,
            keep@ =~= remaining_of(journal.items@.take(i as int), now),
            removed@ =~= expired_of(journal.items@.take(i as int), now),
        decreases n - i,
    {
        let item = clone_item(&journal.items[i]);
        proof {
            lemma_filter_step(journal.items@, i as int, now);
        }
        if item.expires_at <= now {
            removed.push(item);
        } else {
            keep.push(item);
        }
        i += 1;
    }
    proof {
        assert(journal.items@.take(n as int) =~= journal.items@);
    }
    journal.items = keep;
    removed
}

/// As `cleanup_expired`, but read the clock here: sweeps relative to
/// some instant of the call.
pub fn cleanup_expired_now(journal: &mut TrashJournal) -> (removed: Vec<TrashItem>)
    ensures
        exists|now: i64|
            final(journal).items@ =~= remaining_of(old(journal).items@, now) && removed@
                =~= expired_of(old(journal).items@, now),
{
    let now = now_unix();
    cleanup_expired(journal, now)
}

/// Read-only view of the journal with aggregate size and count.
pub fn get_trash_items(journal: &TrashJournal) -> (r: TrashData)
    requires
        sum_sizes(journal.items@) <= u64::MAX,
    ensures
        r.items@ =~= journal.items@,
        r.total_size == sum_sizes(journal.items@),
        r.total_items == journal.items@.len(),
{
    let n = journal.items.len();
    let mut items: Vec<TrashItem> = Vec::new();
    let mut total_size: u64 = 0;
    let mut i: usize = 0;
    while i < n
        invariant
            n == journal.items@.len(),
            i <= n,
            items@ =~= journal.items@.take(i as int),
            total_size == sum_sizes(journal.items@.take(i as int)),
            sum_sizes(journal.items@) <= u64::MAX,
        decreases n - i,
    {
        proof {
            lemma_sum_sizes_prefix(journal.items@, i as int);
            assert(journal.items@.take(i + 1).drop_last() =~= journal.items@.take(i as int));
            assert(journal.items@.take(i + 1).last() == journal.items@[i as int]);
        }
        let item = clone_item(&journal.items[i]);
        total_size = total_size + item.size;
        items.push(item);
        i += 1;
    }
    proof {
        assert(journal.items@.take(n as int) =~= journal.items@);
    }
    TrashData { items, total_size, total_items: n }
}

/// Partial sums of entry sizes never exceed the total when all sizes
/// are non-negative.
proof fn lemma_sum_sizes_prefix(s: Seq<TrashItem>, i: int)
    requires
        0 <= i < s.len(),
    ensures
        sum_sizes(s.take(i)) + s[i].size <= sum_sizes(s),
        sum_sizes(s.take(i)) + s[i].size == sum_sizes(s.take(i + 1)),
        sum_sizes(s.take(i)) >= 0,
    decreases s.len() - i,
{
    lemma_sum_sizes_nonneg(s.take(i));
    assert(s.take(i + 1).drop_last() =~= s.take(i));
    assert(s.take(i + 1).last() == s[i]);
    if i + 1 == s.len() {
        assert(s.take(i + 1) =~= s);
    } else {
        lemma_sum_sizes_prefix(s, i + 1);
        lemma_sum_sizes_nonneg(s.take(i + 1));
    }
}

/// Entry sizes are unsigned, so every partial sum is non-negative.
proof fn lemma_sum_sizes_nonneg(s: Seq<TrashItem>)
    ensures
        sum_sizes(s) >= 0,
    decreases s.len(),
{
    if s.len() > 0 {
        lemma_sum_sizes_nonneg(s.drop_last());
    }
}

/// Law (round trip): moving an object to trash and restoring it with
/// no intervening changes brings the journal back to its previous
/// state, and the restored entry names the original path and the trash
/// path of the move, so the caller's rename puts the very object back.
pub proof fn lemma_move_restore_round_trip(s: Seq<TrashItem>, item: TrashItem)
    requires
        !has_id(s, item.id@),
    ensures
        find_id(s.push(item), item.id@) == s.len(),
        s.push(item).remove(s.len() as int) =~= s,
        s.push(item)[find_id(s.push(item), item.id@)] == item,
    decreases s.len(),
{
    let ext = s.push(item);
    lemma_find_id(ext, item.id@);
    assert(ext[s.len() as int].id@ == item.id@);
    if find_id(ext, item.id@) != s.len() as int {
        let idx = find_id(ext, item.id@);
        assert(0 <= idx < ext.len());
        if idx < s.len() {
            assert(ext[idx] == s[idx]);
            assert(has_id(s, item.id@));
        }
    }
}

/// Law (idempotent sweep): after one expiry sweep at `now`, a second
/// sweep removes nothing as long as no remaining entry has expired in
/// the meantime; in particular a sweep repeated at once removes zero.
pub proof fn lemma_cleanup_idempotent(s: Seq<TrashItem>, now: i64, later: i64)
    requires
        later <= now || (forall|i: int|
            0 <= i < remaining_of(s, now).len() ==> #[trigger] remaining_of(s, now)[i].expires_at
                > later),
    ensures
        expired_of(remaining_of(s, now), later) =~= Seq::<TrashItem>::empty(),
        remaining_of(remaining_of(s, now), later) =~= remaining_of(s, now),
    decreases s.len(),
{
    let rem = remaining_of(s, now);
    assert forall|i: int| 0 <= i < rem.len() implies rem[i].expires_at > later by {
        if later <= now {
            s.lemma_filter_pred(|t: TrashItem| t.expires_at > now, i);
        }
    }
    lemma_filter_all_kept(rem, later);
}

/// A sequence whose entries all outlive `now` is untouched by a sweep
/// at `now`.
proof fn lemma_filter_all_kept(s: Seq<TrashItem>, now: i64)
    requires
        forall|i: int| 0 <= i < s.len() ==> s[i].expires_at > now,
    ensures
        expired_of(s, now) =~= Seq::<TrashItem>::empty(),
        remaining_of(s, now) =~= s,
    decreases s.len(),
{
    reveal(Seq::filter);
    if s.len() > 0 {
        assert(forall|i: int| 0 <= i < s.drop_last().len() ==> s.drop_last()[i] == s[i]);
        lemma_filter_all_kept(s.drop_last(), now);
        assert(s.drop_last().push(s.last()) =~= s);
    }
}

/// A sweep of the empty journal removes and keeps nothing.
proof fn lemma_filter_base(now: i64)
    ensures
        expired_of(Seq::<TrashItem>::empty(), now) =~= Seq::<TrashItem>::empty(),
        remaining_of(Seq::<TrashItem>::empty(), now) =~= Seq::<TrashItem>::empty(),
{
    reveal(Seq::filter);
}

/// How one more entry extends the two halves of a sweep.
proof fn lemma_filter_step(s: Seq<TrashItem>, i: int, now: i64)
    requires
        0 <= i < s.len(),
    ensures
        s[i].expires_at <= now ==> expired_of(s.take(i + 1), now) =~= expired_of(
            s.take(i),
            now,
        ).push(s[i]) && remaining_of(s.take(i + 1), now) =~= remaining_of(s.take(i), now),
        s[i].expires_at > now ==> remaining_of(s.take(i + 1), now) =~= remaining_of(
            s.take(i),
            now,
        ).push(s[i]) && expired_of(s.take(i + 1), now) =~= expired_of(s.take(i), now),
{
    reveal(Seq::filter);
    assert(s.take(i + 1).drop_last() =~= s.take(i));
    assert(s.take(i + 1).last() == s[i]);
}

/// The path of the journal file under the trash root.
pub fn get_metadata_path(trash_root: &str) -> (r: String)
    ensures
        r@ == trash_root@ + "/"@ + "metadata.json"@,
{
    join_path(trash_root, "metadata.json")
}

/// The trash root directory under the given home directory.
pub fn get_trash_dir(home: &str) -> (r: String)
    ensures
        r@ == home@ + "/"@ + ".local/share/linux-cleaner/trash"@,
{
    join_path(home, ".local/share/linux-cleaner/trash")
}

} // verus!
