//! The clipboard history: entries recognised by their content hash, each
//! with its flavours, an optional thumbnail and an optional pin, kept in
//! the order the list shows them.

use vstd::prelude::*;

use super::model::{EntryId, EntryKind, EntryMeta, Flavor, Thumbnail, Timestamp, PREVIEW_CHARS};
use super::settings::Settings;
use super::wayland::{join_path, joined_path};
use crate::text::{chars_of, equal, slice_range, string_of};

verus! {

/// A repeat of an entry within this many milliseconds of its last use is
/// the same selection coming back, not another use.
pub const ECHO_WINDOW_MS: i64 = 1000;

/// A day in milliseconds.
pub const DAY_MS: i64 = 86_400_000;

/// What is recorded of a new copy.
pub struct NewEntry<'a> {
    pub hash: &'a [u8],
    pub kind: EntryKind,
    pub preview: &'a str,
    pub source_app: Option<&'a str>,
    pub flavors: &'a [Flavor],
    pub thumbnail: Option<&'a Thumbnail>,
}

/// Whether a store made a new entry or met an old one again.
#[derive(Clone, Copy, Debug, PartialEq, Eq, Structural)]
pub enum Stored {
    Inserted(EntryId),
    Repeated(EntryId),
}

impl Stored {
    /// The entry stored or met.
    pub fn id(self) -> (r: EntryId)
        ensures
            r == match self {
                Stored::Inserted(id) => id,
                Stored::Repeated(id) => id,
            },
    {
        match self {
            Self::Inserted(id) | Self::Repeated(id) => id,
        }
    }

    /// Whether a new entry was made.
    pub fn is_new(self) -> (r: bool)
        ensures
            r == (self is Inserted),
    {
        matches!(self, Self::Inserted(_))
    }
}

/// Why the history refused a change.
#[derive(Clone, Copy, Debug, PartialEq, Eq, Structural)]
pub enum DbError {
    /// There is no entry with that id.
    NoSuchEntry,
    /// The ids or pin positions ran out.
    Exhausted,
    /// Entries handed in to restore share an id or a hash, or have an id
    /// below one.
    Corrupt,
}

/// What the history knows of one entry.
pub struct EntryView {
    pub id: i64,
    pub hash: Seq<u8>,
    pub kind: EntryKind,
    pub preview: Seq<char>,
    pub byte_size: i64,
    pub source_app: Option<Seq<char>>,
    pub created_at: i64,
    pub last_used_at: i64,
    pub use_count: i64,
    pub contents: Seq<(Seq<char>, Seq<u8>)>,
    pub thumbnail: Option<(u32, u32, Seq<u8>)>,
    pub pin: Option<i64>,
}

/// Whether `a` is listed before `b`: pinned entries first, by pin
/// position; then the most recently used; the newer entry on a tie.
pub open spec fn ranks_before(a: EntryView, b: EntryView) -> bool {
    if (a.pin is Some) != (b.pin is Some) {
        a.pin is Some
    } else if a.pin is Some && a.pin->0 != b.pin->0 {
        a.pin->0 < b.pin->0
    } else if a.last_used_at != b.last_used_at {
        a.last_used_at > b.last_used_at
    } else {
        a.id > b.id
    }
}

/// The entries are in list order.
pub open spec fn sorted(s: Seq<EntryView>) -> bool {
    forall|i: int, j: int| 0 <= i < j < s.len() ==> #[trigger] ranks_before(s[i], s[j])
}

/// No two entries share an id or a hash, and every id is positive.
pub open spec fn distinct(s: Seq<EntryView>) -> bool {
    &&& forall|i: int, j: int| 0 <= i < s.len() && 0 <= j < s.len() && i != j ==> #[trigger] s[i].id != #[trigger] s[j].id
    &&& forall|i: int, j: int| 0 <= i < s.len() && 0 <= j < s.len() && i != j ==> #[trigger] s[i].hash != #[trigger] s[j].hash
    &&& forall|i: int| 0 <= i < s.len() ==> #[trigger] s[i].id >= 1
}

/// A history in good order.
pub open spec fn well_formed(s: Seq<EntryView>) -> bool {
    sorted(s) && distinct(s)
}

/// The number of entries of `s` listed before `e`.
pub open spec fn rank_of(s: Seq<EntryView>, e: EntryView) -> nat
    decreases s.len(),
{
    if s.len() == 0 {
        0
    } else {
        rank_of(s.drop_last(), e) + if ranks_before(s.last(), e) {
            1nat
        } else {
            0nat
        }
    }
}

/// `s` with `e` put in its place.
pub open spec fn placed(s: Seq<EntryView>, e: EntryView) -> Seq<EntryView> {
    s.insert(rank_of(s, e) as int, e)
}

/// The index of the entry with `id`, if any.
pub open spec fn index_of(s: Seq<EntryView>, id: i64) -> Option<int>
    decreases s.len(),
{
    if s.len() == 0 {
        None
    } else if s.last().id == id {
        Some(s.len() - 1)
    } else {
        index_of(s.drop_last(), id)
    }
}

/// The index of the entry with `hash`, if any.
pub open spec fn index_of_hash(s: Seq<EntryView>, hash: Seq<u8>) -> Option<int>
    decreases s.len(),
{
    if s.len() == 0 {
        None
    } else if s.last().hash == hash {
        Some(s.len() - 1)
    } else {
        index_of_hash(s.drop_last(), hash)
    }
}

/// The largest id in `s`, or 0.
pub open spec fn max_id(s: Seq<EntryView>) -> i64
    decreases s.len(),
{
    if s.len() == 0 {
        0
    } else {
        let m = max_id(s.drop_last());
        if s.last().id > m {
            s.last().id
        } else {
            m
        }
    }
}

/// The largest pin position in `s`, if anything is pinned.
pub open spec fn max_pin(s: Seq<EntryView>) -> Option<i64>
    decreases s.len(),
{
    if s.len() == 0 {
        None
    } else {
        let m = max_pin(s.drop_last());
        match s.last().pin {
            None => m,
            Some(p) => match m {
                None => Some(p),
                Some(q) => if p > q {
                    Some(p)
                } else {
                    Some(q)
                },
            },
        }
    }
}

/// The number of pinned entries.
pub open spec fn pinned_count(s: Seq<EntryView>) -> nat
    decreases s.len(),
{
    if s.len() == 0 {
        0
    } else {
        pinned_count(s.drop_last()) + if s.last().pin is Some {
            1nat
        } else {
            0nat
        }
    }
}

/// `contents` without any flavour of type `mime`.
pub open spec fn without_mime(contents: Seq<(Seq<char>, Seq<u8>)>, mime: Seq<char>) -> Seq<
    (Seq<char>, Seq<u8>),
>
    decreases contents.len(),
{
    if contents.len() == 0 {
        seq![]
    } else {
        let rest = without_mime(contents.drop_last(), mime);
        if contents.last().0 == mime {
            rest
        } else {
            rest.push(contents.last())
        }
    }
}

/// The flavours as stored: in order, a later flavour of a type replacing an
/// earlier one.
pub open spec fn stored_contents(flavors: Seq<Flavor>) -> Seq<(Seq<char>, Seq<u8>)>
    decreases flavors.len(),
{
    if flavors.len() == 0 {
        seq![]
    } else {
        let f = flavors.last();
        without_mime(stored_contents(flavors.drop_last()), f.mime@).push((f.mime@, f.body@))
    }
}

/// The number of bytes of all `flavors`.
pub open spec fn flavor_bytes(flavors: Seq<Flavor>) -> int
    decreases flavors.len(),
{
    if flavors.len() == 0 {
        0
    } else {
        flavor_bytes(flavors.drop_last()) + flavors.last().body@.len()
    }
}

/// The view of an optional string.
pub open spec fn opt_view(s: Option<&str>) -> Option<Seq<char>> {
    match s {
        Some(s) => Some(s@),
        None => None,
    }
}

/// The view of a thumbnail.
pub open spec fn thumb_view(t: Thumbnail) -> (u32, u32, Seq<u8>) {
    (t.width, t.height, t.png@)
}

/// The entry a copy becomes, under `id`, first copied and last used `now`.
pub open spec fn fresh_entry(
    id: i64,
    hash: Seq<u8>,
    kind: EntryKind,
    preview: Seq<char>,
    source_app: Option<Seq<char>>,
    flavors: Seq<Flavor>,
    thumbnail: Option<(u32, u32, Seq<u8>)>,
    now: i64,
) -> EntryView {
    EntryView {
        id: id,
        hash: hash,
        kind: kind,
        preview: if preview.len() <= PREVIEW_CHARS {
            preview
        } else {
            preview.take(PREVIEW_CHARS as int)
        },
        byte_size: flavor_bytes(flavors) as i64,
        source_app: source_app,
        created_at: now,
        last_used_at: now,
        use_count: 1,
        contents: stored_contents(flavors),
        thumbnail: thumbnail,
        pin: None,
    }
}

/// The entry a new copy becomes.
pub open spec fn new_entry_view(entry: NewEntry, id: i64, now: i64) -> EntryView {
    fresh_entry(
        id,
        entry.hash@,
        entry.kind,
        entry.preview@,
        opt_view(entry.source_app),
        entry.flavors@,
        match entry.thumbnail {
            Some(t) => Some(thumb_view(*t)),
            None => None,
        },
        now,
    )
}

/// One more use counted, unless it saturated.
pub open spec fn one_more(count: i64) -> i64 {
    if count < i64::MAX {
        (count + 1) as i64
    } else {
        count
    }
}

/// An entry met again by a store at `now`: used now, and counted once more
/// unless it was last used less than `ECHO_WINDOW_MS` before.
pub open spec fn met_again(e: EntryView, now: i64) -> EntryView {
    EntryView {
        last_used_at: now,
        use_count: if now - e.last_used_at >= ECHO_WINDOW_MS {
            one_more(e.use_count)
        } else {
            e.use_count
        },
        ..e
    }
}

/// An entry used at `now`.
pub open spec fn used(e: EntryView, now: i64) -> EntryView {
    EntryView { last_used_at: now, use_count: one_more(e.use_count), ..e }
}

/// What pinning (or unpinning) the entry `id` does to the history and
/// what it answers: a new pin goes after every other pin; pinning a pinned
/// entry changes nothing, and there is nothing to pin where there is no
/// such entry.
pub open spec fn pinning(s: Seq<EntryView>, id: i64, pinned: bool) -> (Seq<EntryView>, Result<(), DbError>) {
    match index_of(s, id) {
        None => (s, if pinned {
            Err::<(), DbError>(DbError::NoSuchEntry)
        } else {
            Ok::<(), DbError>(())
        }),
        Some(i) => {
            let e = s[i];
            if pinned {
                if e.pin is Some {
                    (s, Ok::<(), DbError>(()))
                } else if max_pin(s) == Some(i64::MAX) {
                    (s, Err::<(), DbError>(DbError::Exhausted))
                } else {
                    (replaced(s, i, EntryView {
                        pin: Some(match max_pin(s) {
                            Some(p) => (p + 1) as i64,
                            None => 0,
                        }),
                        ..e
                    }), Ok::<(), DbError>(()))
                }
            } else {
                (if e.pin is Some {
                    replaced(s, i, EntryView { pin: None, ..e })
                } else {
                    s
                }, Ok::<(), DbError>(()))
            }
        },
    }
}

/// The history after `s[i]` became `e`, in order again.
pub open spec fn replaced(s: Seq<EntryView>, i: int, e: EntryView) -> Seq<EntryView> {
    placed(s.remove(i), e)
}

/// What a store does to the history and what it answers.
pub open spec fn store_spec(s: Seq<EntryView>, entry: NewEntry, now: i64) -> (
    Seq<EntryView>,
    Result<Stored, DbError>,
) {
    stored_as(
        s,
        entry.hash@,
        entry.kind,
        entry.preview@,
        opt_view(entry.source_app),
        entry.flavors@,
        match entry.thumbnail {
            Some(t) => Some(thumb_view(*t)),
            None => None,
        },
        now,
    )
}

/// What storing a copy with these parts does to the history, and what it
/// answers.
pub open spec fn stored_as(
    s: Seq<EntryView>,
    hash: Seq<u8>,
    kind: EntryKind,
    preview: Seq<char>,
    source_app: Option<Seq<char>>,
    flavors: Seq<Flavor>,
    thumbnail: Option<(u32, u32, Seq<u8>)>,
    now: i64,
) -> (Seq<EntryView>, Result<Stored, DbError>) {
    match index_of_hash(s, hash) {
        Some(i) => (replaced(s, i, met_again(s[i], now)), Ok(Stored::Repeated(EntryId(s[i].id)))),
        None => if max_id(s) == i64::MAX {
            (s, Err(DbError::Exhausted))
        } else {
            let id = (max_id(s) + 1) as i64;
            (
                placed(s, fresh_entry(id, hash, kind, preview, source_app, flavors, thumbnail, now)),
                Ok(Stored::Inserted(EntryId(id))),
            )
        },
    }
}

/// Whether an entry survives pruning: a pinned one always does; an
/// unpinned one when fewer than `max_entries` unpinned ones come before it
/// and, with an age limit, it was used at or after `cutoff`.
pub open spec fn survives(e: EntryView, unpinned_before: nat, max_entries: u32, cutoff: Option<i64>) -> bool {
    e.pin is Some || (unpinned_before < max_entries && match cutoff {
        Some(c) => e.last_used_at >= c,
        None => true,
    })
}

/// The number of unpinned entries in `s`.
pub open spec fn unpinned_count(s: Seq<EntryView>) -> nat {
    (s.len() - pinned_count(s)) as nat
}

/// What pruning keeps of `s`, in order.
pub open spec fn pruned(s: Seq<EntryView>, max_entries: u32, cutoff: Option<i64>) -> Seq<EntryView>
    decreases s.len(),
{
    if s.len() == 0 {
        seq![]
    } else {
        let kept = pruned(s.drop_last(), max_entries, cutoff);
        if survives(s.last(), unpinned_count(s.drop_last()), max_entries, cutoff) {
            kept.push(s.last())
        } else {
            kept
        }
    }
}

/// The age cutoff of `settings` at `now`.
pub open spec fn cutoff_of(settings: Settings, now: i64) -> Option<i64> {
    match settings.max_age_days {
        Some(days) => Some((now - days * DAY_MS) as i64),
        None => None,
    }
}

/// The pinned entries of `s`, in order.
pub open spec fn pinned_only(s: Seq<EntryView>) -> Seq<EntryView>
    decreases s.len(),
{
    if s.len() == 0 {
        seq![]
    } else {
        let kept = pinned_only(s.drop_last());
        if s.last().pin is Some {
            kept.push(s.last())
        } else {
            kept
        }
    }
}

/// Whether `m` shows `e`, the counters as the list reports them: a use
/// count beyond `u32` as `u32::MAX`, a pin position beyond `u32` as 0.
pub open spec fn shows(m: EntryMeta, e: EntryView) -> bool {
    &&& m.id == EntryId(e.id)
    &&& m.kind == e.kind
    &&& m.preview@ == e.preview
    &&& m.byte_size == abs_u64(e.byte_size)
    &&& opt_string_view(m.source_app) == e.source_app
    &&& m.created_at == e.created_at
    &&& m.last_used_at == e.last_used_at
    &&& m.use_count == (if 0 <= e.use_count <= u32::MAX { e.use_count as u32 } else { u32::MAX })
    &&& m.pinned == match e.pin {
        Some(p) => Some(if 0 <= p <= u32::MAX { p as u32 } else { 0u32 }),
        None => None,
    }
    &&& m.image_size == match e.thumbnail {
        Some(t) => Some((t.0, t.1)),
        None => None,
    }
}

pub open spec fn abs_u64(x: i64) -> u64 {
    if x >= 0 {
        x as u64
    } else {
        (-(x as int)) as u64
    }
}

pub open spec fn opt_string_view(s: Option<String>) -> Option<Seq<char>> {
    match s {
        Some(s) => Some(s@),
        None => None,
    }
}

/// The length of the list: `max_entries` entries beyond the pinned ones.
pub open spec fn list_len(s: Seq<EntryView>, max_entries: u32) -> nat {
    let limit = max_entries + pinned_count(s);
    if s.len() <= limit {
        s.len()
    } else {
        limit as nat
    }
}

// ------------------------------------------------------------------------
// The order
// ------------------------------------------------------------------------

/// Listing order is a strict total order on entries with different ids.
pub proof fn lemma_order(a: EntryView, b: EntryView, c: EntryView)
    ensures
        !ranks_before(a, a),
        ranks_before(a, b) ==> !ranks_before(b, a),
        ranks_before(a, b) && ranks_before(b, c) ==> ranks_before(a, c),
        a.id != b.id ==> ranks_before(a, b) || ranks_before(b, a),
{
}

proof fn lemma_rank_bound(s: Seq<EntryView>, e: EntryView)
    ensures
        rank_of(s, e) <= s.len(),
    decreases s.len(),
{
    if s.len() > 0 {
        lemma_rank_bound(s.drop_last(), e);
    }
}

/// In a sorted history, the entries before `e`'s rank are listed before it,
/// the others after it.
proof fn lemma_rank_splits(s: Seq<EntryView>, e: EntryView)
    requires
        sorted(s),
        forall|i: int| 0 <= i < s.len() ==> #[trigger] s[i].id != e.id,
    ensures
        rank_of(s, e) <= s.len(),
        forall|k: int| 0 <= k < rank_of(s, e) ==> #[trigger] ranks_before(s[k], e),
        forall|k: int| rank_of(s, e) <= k < s.len() ==> #[trigger] ranks_before(e, s[k]),
    decreases s.len(),
{
    if s.len() > 0 {
        let p = s.drop_last();
        assert(sorted(p));
        assert forall|i: int| 0 <= i < p.len() implies #[trigger] p[i].id != e.id by {
            assert(p[i] == s[i]);
        }
        lemma_rank_splits(p, e);
        let last = s.last();
        lemma_order(last, e, e);
        lemma_order(e, last, last);
        if ranks_before(last, e) {
            if rank_of(p, e) < p.len() {
                let k = rank_of(p, e) as int;
                assert(ranks_before(e, p[k]));
                assert(ranks_before(s[k], s[s.len() - 1]));
                assert(p[k] == s[k]);
                lemma_order(e, p[k], last);
                lemma_order(e, last, e);
            }
            assert forall|k: int| 0 <= k < rank_of(s, e) implies #[trigger] ranks_before(s[k], e) by {
                if k < s.len() - 1 {
                    assert(ranks_before(s[k], s[s.len() - 1]));
                    lemma_order(s[k], last, e);
                }
            }
        } else {
            assert forall|k: int| rank_of(s, e) <= k < s.len() implies #[trigger] ranks_before(e, s[k]) by {
                if k < s.len() - 1 {
                    assert(s[k] == p[k]);
                }
            }
            assert forall|k: int| 0 <= k < rank_of(s, e) implies #[trigger] ranks_before(s[k], e) by {
                assert(s[k] == p[k]);
            }
        }
    }
}

/// Putting an entry in its place keeps a history sorted.
proof fn lemma_placed_sorted(s: Seq<EntryView>, e: EntryView)
    requires
        sorted(s),
        forall|i: int| 0 <= i < s.len() ==> #[trigger] s[i].id != e.id,
    ensures
        sorted(placed(s, e)),
{
    lemma_rank_splits(s, e);
    let r = rank_of(s, e) as int;
    let t = placed(s, e);
    assert forall|i: int, j: int| 0 <= i < j < t.len() implies #[trigger] ranks_before(t[i], t[j]) by {
        if j < r {
            assert(t[i] == s[i] && t[j] == s[j]);
        } else if j == r {
            assert(t[j] == e && t[i] == s[i]);
        } else if i < r {
            assert(t[i] == s[i] && t[j] == s[j - 1]);
            lemma_order(s[i], e, s[j - 1]);
        } else if i == r {
            assert(t[i] == e && t[j] == s[j - 1]);
        } else {
            assert(t[i] == s[i - 1] && t[j] == s[j - 1]);
        }
    }
}

/// Removing an entry keeps a history sorted and distinct.
proof fn lemma_remove_wf(s: Seq<EntryView>, i: int)
    requires
        well_formed(s),
        0 <= i < s.len(),
    ensures
        well_formed(s.remove(i)),
        forall|k: int| 0 <= k < s.remove(i).len() ==> #[trigger] s.remove(i)[k].id != s[i].id,
        forall|k: int| 0 <= k < s.remove(i).len() ==> #[trigger] s.remove(i)[k].hash != s[i].hash,
{
    let t = s.remove(i);
    assert forall|a: int, b: int| 0 <= a < b < t.len() implies #[trigger] ranks_before(t[a], t[b]) by {
        let a2 = if a < i { a } else { a + 1 };
        let b2 = if b < i { b } else { b + 1 };
        assert(t[a] == s[a2] && t[b] == s[b2]);
    }
    assert forall|a: int, b: int| 0 <= a < t.len() && 0 <= b < t.len() && a != b implies #[trigger] t[a].id != #[trigger] t[b].id by {
        let a2 = if a < i { a } else { a + 1 };
        let b2 = if b < i { b } else { b + 1 };
        assert(t[a] == s[a2] && t[b] == s[b2]);
    }
    assert forall|a: int, b: int| 0 <= a < t.len() && 0 <= b < t.len() && a != b implies #[trigger] t[a].hash != #[trigger] t[b].hash by {
        let a2 = if a < i { a } else { a + 1 };
        let b2 = if b < i { b } else { b + 1 };
        assert(t[a] == s[a2] && t[b] == s[b2]);
    }
    assert forall|k: int| 0 <= k < t.len() implies #[trigger] t[k].id != s[i].id by {
        let k2 = if k < i { k } else { k + 1 };
        assert(t[k] == s[k2]);
    }
    assert forall|k: int| 0 <= k < t.len() implies #[trigger] t[k].hash != s[i].hash by {
        let k2 = if k < i { k } else { k + 1 };
        assert(t[k] == s[k2]);
    }
    assert forall|k: int| 0 <= k < t.len() implies #[trigger] t[k].id >= 1 by {
        let k2 = if k < i { k } else { k + 1 };
        assert(t[k] == s[k2]);
    }
}

/// Putting a new entry, whose id and hash are fresh, in its place keeps a
/// history well formed.
proof fn lemma_placed_wf(s: Seq<EntryView>, e: EntryView)
    requires
        well_formed(s),
        e.id >= 1,
        forall|i: int| 0 <= i < s.len() ==> #[trigger] s[i].id != e.id,
        forall|i: int| 0 <= i < s.len() ==> #[trigger] s[i].hash != e.hash,
    ensures
        well_formed(placed(s, e)),
        placed(s, e).len() == s.len() + 1,
{
    lemma_placed_sorted(s, e);
    lemma_rank_bound(s, e);
    let r = rank_of(s, e) as int;
    let t = placed(s, e);
    assert forall|a: int| 0 <= a < t.len() implies (#[trigger] t[a]) == (if a < r { s[a] } else if a == r { e } else { s[a - 1] }) by {
    }
    assert forall|a: int, b: int| 0 <= a < t.len() && 0 <= b < t.len() && a != b implies #[trigger] t[a].id != #[trigger] t[b].id by {
        assert(t[a] == (if a < r { s[a] } else if a == r { e } else { s[a - 1] }));
        assert(t[b] == (if b < r { s[b] } else if b == r { e } else { s[b - 1] }));
    }
    assert forall|a: int, b: int| 0 <= a < t.len() && 0 <= b < t.len() && a != b implies #[trigger] t[a].hash != #[trigger] t[b].hash by {
        assert(t[a] == (if a < r { s[a] } else if a == r { e } else { s[a - 1] }));
        assert(t[b] == (if b < r { s[b] } else if b == r { e } else { s[b - 1] }));
    }
    assert forall|a: int| 0 <= a < t.len() implies #[trigger] t[a].id >= 1 by {
        assert(t[a] == (if a < r { s[a] } else if a == r { e } else { s[a - 1] }));
    }
}

proof fn lemma_index_of(s: Seq<EntryView>, id: i64)
    requires
        distinct(s),
    ensures
        match index_of(s, id) {
            Some(i) => 0 <= i < s.len() && s[i].id == id,
            None => forall|k: int| 0 <= k < s.len() ==> #[trigger] s[k].id != id,
        },
    decreases s.len(),
{
    if s.len() > 0 {
        let p = s.drop_last();
        assert(distinct(p)) by {
            assert forall|a: int, b: int| 0 <= a < p.len() && 0 <= b < p.len() && a != b implies #[trigger] p[a].id != #[trigger] p[b].id by {
                assert(p[a] == s[a] && p[b] == s[b]);
            }
            assert forall|a: int, b: int| 0 <= a < p.len() && 0 <= b < p.len() && a != b implies #[trigger] p[a].hash != #[trigger] p[b].hash by {
                assert(p[a] == s[a] && p[b] == s[b]);
            }
            assert forall|a: int| 0 <= a < p.len() implies #[trigger] p[a].id >= 1 by {
                assert(p[a] == s[a]);
            }
        }
        lemma_index_of(p, id);
        if s.last().id != id && index_of(p, id) is None {
            assert forall|k: int| 0 <= k < s.len() implies #[trigger] s[k].id != id by {
                if k < p.len() {
                    assert(s[k] == p[k]);
                }
            }
        }
    }
}

proof fn lemma_index_of_is(s: Seq<EntryView>, id: i64, i: int)
    requires
        distinct(s),
        0 <= i < s.len(),
        s[i].id == id,
    ensures
        index_of(s, id) == Some(i),
{
    lemma_index_of(s, id);
    match index_of(s, id) {
        Some(k) => {
            if k != i {
                assert(s[k].id != s[i].id);
            }
        },
        None => {
            assert(s[i].id != id);
        },
    }
}

proof fn lemma_index_of_hash(s: Seq<EntryView>, hash: Seq<u8>)
    ensures
        match index_of_hash(s, hash) {
            Some(i) => 0 <= i < s.len() && s[i].hash == hash,
            None => forall|k: int| 0 <= k < s.len() ==> #[trigger] s[k].hash != hash,
        },
    decreases s.len(),
{
    if s.len() > 0 {
        let p = s.drop_last();
        lemma_index_of_hash(p, hash);
        if s.last().hash != hash && index_of_hash(p, hash) is None {
            assert forall|k: int| 0 <= k < s.len() implies #[trigger] s[k].hash != hash by {
                if k < p.len() {
                    assert(s[k] == p[k]);
                }
            }
        }
    }
}

proof fn lemma_max_id(s: Seq<EntryView>)
    ensures
        forall|k: int| 0 <= k < s.len() ==> #[trigger] s[k].id <= max_id(s),
        max_id(s) >= 0,
    decreases s.len(),
{
    if s.len() > 0 {
        let p = s.drop_last();
        lemma_max_id(p);
        assert forall|k: int| 0 <= k < s.len() implies #[trigger] s[k].id <= max_id(s) by {
            if k < p.len() {
                assert(s[k] == p[k]);
            }
        }
    }
}

proof fn lemma_max_pin(s: Seq<EntryView>)
    ensures
        forall|k: int| 0 <= k < s.len() && (#[trigger] s[k]).pin is Some ==> max_pin(s) is Some && s[k].pin->0 <= max_pin(s)->0,
        max_pin(s) is None ==> forall|k: int| 0 <= k < s.len() ==> (#[trigger] s[k]).pin is None,
    decreases s.len(),
{
    if s.len() > 0 {
        let p = s.drop_last();
        lemma_max_pin(p);
        assert forall|k: int| 0 <= k < s.len() && (#[trigger] s[k]).pin is Some implies max_pin(s) is Some && s[k].pin->0 <= max_pin(s)->0 by {
            if k < p.len() {
                assert(s[k] == p[k]);
            }
        }
        assert forall|k: int| max_pin(s) is None && 0 <= k < s.len() implies (#[trigger] s[k]).pin is None by {
            if k < p.len() {
                assert(s[k] == p[k]);
            }
        }
    }
}

// ------------------------------------------------------------------------
// The store
// ------------------------------------------------------------------------

struct Row {
    id: i64,
    hash: Vec<u8>,
    kind: EntryKind,
    preview: String,
    byte_size: i64,
    source_app: Option<String>,
    created_at: i64,
    last_used_at: i64,
    use_count: i64,
    contents: Vec<Flavor>,
    thumbnail: Option<Thumbnail>,
    pin: Option<i64>,
}

pub open spec fn contents_view(c: Seq<Flavor>) -> Seq<(Seq<char>, Seq<u8>)> {
    c.map_values(|f: Flavor| (f.mime@, f.body@))
}

spec fn row_view(r: Row) -> EntryView {
    EntryView {
        id: r.id,
        hash: r.hash@,
        kind: r.kind,
        preview: r.preview@,
        byte_size: r.byte_size,
        source_app: opt_string_view(r.source_app),
        created_at: r.created_at,
        last_used_at: r.last_used_at,
        use_count: r.use_count,
        contents: contents_view(r.contents@),
        thumbnail: match r.thumbnail {
            Some(t) => Some(thumb_view(t)),
            None => None,
        },
        pin: r.pin,
    }
}

spec fn rows_view(rows: Seq<Row>) -> Seq<EntryView> {
    rows.map_values(|r: Row| row_view(r))
}

/// The clipboard history.
pub struct Db {
    rows: Vec<Row>,
}

impl View for Db {
    type V = Seq<EntryView>;

    closed spec fn view(&self) -> Seq<EntryView> {
        rows_view(self.rows@)
    }
}

fn copy_string(s: &String) -> (r: String)
    ensures
        r@ == s@,
{
    s.clone()
}

fn copy_opt_string(s: &Option<String>) -> (r: Option<String>)
    ensures
        opt_string_view(r) == opt_string_view(*s),
{
    match s {
        Some(s) => Some(s.clone()),
        None => None,
    }
}

fn copy_bytes(b: &Vec<u8>) -> (r: Vec<u8>)
    ensures
        r@ == b@,
{
    b.clone()
}

fn copy_flavor(f: &Flavor) -> (r: Flavor)
    ensures
        r.mime@ == f.mime@,
        r.body@ == f.body@,
{
    Flavor { mime: copy_string(&f.mime), body: copy_bytes(&f.body) }
}

fn copy_thumbnail(t: &Thumbnail) -> (r: Thumbnail)
    ensures
        thumb_view(r) == thumb_view(*t),
{
    Thumbnail { width: t.width, height: t.height, png: copy_bytes(&t.png) }
}

/// Whether `a` is listed before `b`.
fn before(a: &Row, b: &Row) -> (r: bool)
    ensures
        r == ranks_before(row_view(*a), row_view(*b)),
{
    match (a.pin, b.pin) {
        (Some(p), Some(q)) => {
            if p != q {
                return p < q;
            }
        },
        (Some(_), None) => return true,
        (None, Some(_)) => return false,
        (None, None) => {},
    }
    if a.last_used_at != b.last_used_at {
        a.last_used_at > b.last_used_at
    } else {
        a.id > b.id
    }
}

pub(crate) fn same_bytes(a: &[u8], b: &[u8]) -> (r: bool)
    ensures
        r == (a@ == b@),
{
    if a.len() != b.len() {
        return false;
    }
    let mut i: usize = 0;
    while i < a.len()
        invariant
            a.len() == b.len(),
            i <= a.len(),
            forall|j: int| 0 <= j < i ==> a@[j] == b@[j],
        decreases a.len() - i,
    {
        if a[i] != b[i] {
            return false;
        }
        i += 1;
    }
    assert(a@ =~= b@);
    true
}

impl Db {
    #[verifier::type_invariant]
    spec fn inv(self) -> bool {
        well_formed(rows_view(self.rows@))
    }

    /// An empty history kept in memory.
    pub fn in_memory() -> (r: Result<Db, DbError>)
        ensures
            r matches Ok(db) && db@ == Seq::<EntryView>::empty() && well_formed(db@),
    {
        let rows: Vec<Row> = Vec::new();
        assert(rows_view(rows@) =~= Seq::<EntryView>::empty());
        Ok(Db { rows })
    }

    fn find_id(&self, id: i64) -> (r: Option<usize>)
        ensures
            match r {
                Some(i) => index_of(self@, id) == Some(i as int) && (i as int) < self.rows@.len()
                    && self@[i as int] == row_view(self.rows@[i as int]),
                None => index_of(self@, id) is None,
            },
            self@.len() == self.rows@.len(),
    {
        proof {
            use_type_invariant(self);
        }
        let mut i: usize = 0;
        while i < self.rows.len()
            invariant
                i <= self.rows.len(),
                forall|k: int| 0 <= k < i ==> #[trigger] self@[k].id != id,
                self@ == rows_view(self.rows@),
                well_formed(self@),
            decreases self.rows.len() - i,
        {
            if self.rows[i].id == id {
                proof {
                    assert(self@[i as int].id == id);
                    lemma_index_of_is(self@, id, i as int);
                }
                return Some(i);
            }
            assert(self@[i as int].id == self.rows@[i as int].id);
            i += 1;
        }
        proof {
            lemma_index_of(self@, id);
            if index_of(self@, id) is Some {
                let k = index_of(self@, id)->0;
                assert(self@[k].id != id);
            }
        }
        None
    }

    fn find_hash(&self, hash: &[u8]) -> (r: Option<usize>)
        ensures
            match r {
                Some(i) => index_of_hash(self@, hash@) == Some(i as int) && (i as int)
                    < self.rows@.len() && self@[i as int] == row_view(self.rows@[i as int]),
                None => index_of_hash(self@, hash@) is None,
            },
            self@.len() == self.rows@.len(),
    {
        proof {
            use_type_invariant(self);
        }
        let mut i: usize = 0;
        while i < self.rows.len()
            invariant
                i <= self.rows.len(),
                forall|k: int| 0 <= k < i ==> #[trigger] self@[k].hash != hash@,
                self@ == rows_view(self.rows@),
                well_formed(self@),
            decreases self.rows.len() - i,
        {
            if same_bytes(self.rows[i].hash.as_slice(), hash) {
                proof {
                    assert(self@[i as int].hash == hash@);
                    lemma_index_of_hash(self@, hash@);
                    match index_of_hash(self@, hash@) {
                        Some(k) => {
                            if k != i {
                                assert(self@[k].hash != self@[i as int].hash);
                            }
                        },
                        None => {
                            assert(self@[i as int].hash != hash@);
                        },
                    }
                }
                return Some(i);
            }
            assert(self@[i as int].hash == self.rows@[i as int].hash@);
            i += 1;
        }
        proof {
            lemma_index_of_hash(self@, hash@);
            if index_of_hash(self@, hash@) is Some {
                let k = index_of_hash(self@, hash@)->0;
                assert(self@[k].hash != hash@);
            }
        }
        None
    }

    /// The rank of `row` among `rows`: where it belongs in list order.
    fn rank_in(rows: &Vec<Row>, row: &Row) -> (r: usize)
        requires
            sorted(rows_view(rows@)),
            forall|i: int| 0 <= i < rows@.len() ==> #[trigger] rows_view(rows@)[i].id != row.id,
        ensures
            r == rank_of(rows_view(rows@), row_view(*row)),
    {
        let ghost s = rows_view(rows@);
        let ghost e = row_view(*row);
        proof {
            lemma_rank_splits(s, e);
        }
        let mut k: usize = 0;
        while k < rows.len() && before(&rows[k], row)
            invariant
                k <= rows.len(),
                s == rows_view(rows@),
                e == row_view(*row),
                forall|j: int| 0 <= j < k ==> #[trigger] ranks_before(s[j], e),
                rank_of(s, e) <= s.len(),
                forall|j: int| 0 <= j < rank_of(s, e) ==> #[trigger] ranks_before(s[j], e),
                forall|j: int| rank_of(s, e) <= j < s.len() ==> #[trigger] ranks_before(e, s[j]),
            decreases rows.len() - k,
        {
            assert(s[k as int] == row_view(rows@[k as int]));
            k += 1;
        }
        proof {
            if k < rows.len() {
                assert(s[k as int] == row_view(rows@[k as int]));
                assert(!ranks_before(s[k as int], e));
            }
            if (k as int) < rank_of(s, e) {
                assert(ranks_before(s[k as int], e));
            }
            if (k as int) > rank_of(s, e) {
                let r = rank_of(s, e) as int;
                assert(ranks_before(s[r], e));
                assert(ranks_before(e, s[r]));
                lemma_order(s[r], e, e);
            }
        }
        k
    }

    /// Puts `row` in its place among `rows`.
    fn place(rows: &mut Vec<Row>, row: Row)
        requires
            sorted(rows_view(old(rows)@)),
            forall|i: int| 0 <= i < old(rows)@.len() ==> #[trigger] rows_view(old(rows)@)[i].id != row.id,
        ensures
            rows_view(final(rows)@) == placed(rows_view(old(rows)@), row_view(row)),
    {
        let k = Self::rank_in(rows, &row);
        let ghost before_rows = rows@;
        proof {
            lemma_rank_bound(rows_view(rows@), row_view(row));
        }
        rows.insert(k, row);
        proof {
            assert(rows_view(rows@) =~= rows_view(before_rows).insert(k as int, row_view(row)));
        }
    }

    /// Records a copy: an entry whose hash is already held is used again
    /// (a repeat within `ECHO_WINDOW_MS` of its last use not counted as
    /// another use) and keeps its id and the time it was first copied;
    /// anything else becomes a new entry with the next id. Either way the
    /// entry takes its place in list order.
    pub fn store(&mut self, entry: &NewEntry<'_>, now: Timestamp) -> (r: Result<Stored, DbError>)
        requires
            flavor_bytes(entry.flavors@) <= i64::MAX,
        ensures
            well_formed(final(self)@),
            (final(self)@, r) == store_spec(old(self)@, *entry, now),
    {
        proof {
            use_type_invariant(&*self);
        }
        match self.find_hash(entry.hash) {
            Some(i) => {
                let ghost s = self@;
                let id = self.rows[i].id;
                let mut rows = self.take_rows();
                let ghost old_rows = rows@;
                let mut row = rows.remove(i);
                proof {
                    assert(row_view(row) == s[i as int]);
                    assert(rows_view(rows@) =~= s.remove(i as int));
                    lemma_remove_wf(s, i as int);
                }
                if (now as i128) - (row.last_used_at as i128) >= ECHO_WINDOW_MS as i128 {
                    if row.use_count < i64::MAX {
                        row.use_count = row.use_count + 1;
                    }
                }
                row.last_used_at = now;
                proof {
                    assert(row_view(row) == met_again(s[i as int], now));
                }
                Self::place(&mut rows, row);
                proof {
                    lemma_placed_wf(s.remove(i as int), met_again(s[i as int], now));
                }
                self.rows = rows;
                Ok(Stored::Repeated(EntryId(id)))
            },
            None => {
                let ghost s = self@;
                let top = self.max_id();
                if top == i64::MAX {
                    return Err(DbError::Exhausted);
                }
                let id = top + 1;
                let row = Self::new_row(entry, id, now);
                proof {
                    lemma_max_id(s);
                    lemma_index_of_hash(s, entry.hash@);
                    assert forall|k: int| 0 <= k < s.len() implies #[trigger] s[k].id != id by {
                    }
                    lemma_placed_wf(s, row_view(row));
                }
                let mut rows = self.take_rows();
                Self::place(&mut rows, row);
                self.rows = rows;
                Ok(Stored::Inserted(EntryId(id)))
            },
        }
    }

    /// The rows, leaving none behind.
    fn take_rows(&mut self) -> (r: Vec<Row>)
        ensures
            r@ == old(self).rows@,
            final(self).rows@ == Seq::<Row>::empty(),
    {
        let mut rows: Vec<Row> = Vec::new();
        std::mem::swap(&mut rows, &mut self.rows);
        rows
    }

    fn max_id(&self) -> (r: i64)
        ensures
            r == max_id(self@),
    {
        let mut m: i64 = 0;
        let mut i: usize = 0;
        while i < self.rows.len()
            invariant
                i <= self.rows.len(),
                m == max_id(self@.take(i as int)),
            decreases self.rows.len() - i,
        {
            proof {
                assert(self@.take(i + 1).drop_last() =~= self@.take(i as int));
                assert(self@.take(i + 1).last() == row_view(self.rows@[i as int]));
            }
            if self.rows[i].id > m {
                m = self.rows[i].id;
            }
            i += 1;
        }
        assert(self@.take(i as int) =~= self@);
        m
    }

    fn new_row(entry: &NewEntry<'_>, id: i64, now: Timestamp) -> (r: Row)
        requires
            flavor_bytes(entry.flavors@) <= i64::MAX,
            id >= 1,
        ensures
            row_view(r) == new_entry_view(*entry, id, now),
    {
        let mut size: i64 = 0;
        let mut contents: Vec<Flavor> = Vec::new();
        let mut i: usize = 0;
        while i < entry.flavors.len()
            invariant
                i <= entry.flavors.len(),
                flavor_bytes(entry.flavors@) <= i64::MAX,
                size == flavor_bytes(entry.flavors@.take(i as int)),
                contents_view(contents@) == stored_contents(entry.flavors@.take(i as int)),
            decreases entry.flavors.len() - i,
        {
            let ghost prefix = entry.flavors@.take(i + 1);
            proof {
                assert(prefix.drop_last() =~= entry.flavors@.take(i as int));
                assert(prefix.last() == entry.flavors@[i as int]);
                lemma_flavor_bytes_prefix(entry.flavors@, i + 1);
                lemma_flavor_bytes_nonneg(entry.flavors@.take(i as int));
            }
            let f = &entry.flavors[i];
            assert(flavor_bytes(prefix) == flavor_bytes(entry.flavors@.take(i as int))
                + entry.flavors@[i as int].body@.len());
            size = size + f.body.len() as i64;
            contents = Self::upsert(contents, copy_flavor(f));
            i += 1;
        }
        assert(entry.flavors@.take(i as int) =~= entry.flavors@);
        let preview = crate::clip::model::truncate_chars(entry.preview, PREVIEW_CHARS);
        let source_app = match entry.source_app {
            Some(app) => Some(string_of(chars_of(app).as_slice())),
            None => None,
        };
        let thumbnail = match entry.thumbnail {
            Some(t) => Some(copy_thumbnail(t)),
            None => None,
        };
        let mut hash: Vec<u8> = Vec::new();
        hash.extend_from_slice(entry.hash);
        assert(hash@ =~= entry.hash@);
        proof {
            lemma_flavor_bytes_nonneg(entry.flavors@);
        }
        Row {
            id,
            hash,
            kind: entry.kind,
            preview,
            byte_size: size,
            source_app,
            created_at: now,
            last_used_at: now,
            use_count: 1,
            contents,
            thumbnail,
            pin: None,
        }
    }

    /// `contents` with `f` at the end and no other flavour of its type.
    fn upsert(contents: Vec<Flavor>, f: Flavor) -> (r: Vec<Flavor>)
        ensures
            contents_view(r@) == without_mime(contents_view(contents@), f.mime@).push(
                (f.mime@, f.body@),
            ),
    {
        let mut kept: Vec<Flavor> = Vec::new();
        let mut contents = contents;
        let ghost all = contents_view(contents@);
        let mime = chars_of(f.mime.as_str());
        let mut i: usize = 0;
        while i < contents.len()
            invariant
                i <= contents.len(),
                all == contents_view(contents@),
                mime@ == f.mime@,
                contents_view(kept@) == without_mime(all.take(i as int), f.mime@),
            decreases contents.len() - i,
        {
            proof {
                assert(all.take(i + 1).drop_last() =~= all.take(i as int));
                assert(all.take(i + 1).last() == (contents@[i as int].mime@, contents@[i as int].body@));
            }
            let other = chars_of(contents[i].mime.as_str());
            if !equal(other.as_slice(), mime.as_slice()) {
                let ghost before_kept = kept@;
                kept.push(copy_flavor(&contents[i]));
                assert(contents_view(kept@) =~= contents_view(before_kept).push(all[i as int]));
            }
            i += 1;
        }
        assert(all.take(i as int) =~= all);
        let ghost before_kept = kept@;
        kept.push(f);
        assert(contents_view(kept@) =~= contents_view(before_kept).push((f.mime@, f.body@)));
        kept
    }

    /// The kind of the entry with `id`, if there is one.
    pub fn kind(&self, id: EntryId) -> (r: Result<Option<EntryKind>, DbError>)
        ensures
            r == Ok::<Option<EntryKind>, DbError>(match index_of(self@, id.0) {
                Some(i) => Some(self@[i].kind),
                None => None,
            }),
    {
        match self.find_id(id.0) {
            Some(i) => {
                assert(self@[i as int] == row_view(self.rows@[i as int]));
                Ok(Some(self.rows[i].kind))
            },
            None => Ok(None),
        }
    }

    /// Whether an entry with `hash` is held.
    pub fn contains(&self, hash: &[u8]) -> (r: Result<bool, DbError>)
        ensures
            r == Ok::<bool, DbError>(index_of_hash(self@, hash@) is Some),
    {
        Ok(self.find_hash(hash).is_some())
    }

    fn pins(&self) -> (r: usize)
        ensures
            r == pinned_count(self@),
            self@.len() == self.rows@.len(),
    {
        let mut n: usize = 0;
        let mut i: usize = 0;
        while i < self.rows.len()
            invariant
                i <= self.rows.len(),
                n == pinned_count(self@.take(i as int)),
                n <= i,
            decreases self.rows.len() - i,
        {
            proof {
                assert(self@.take(i + 1).drop_last() =~= self@.take(i as int));
                assert(self@.take(i + 1).last() == row_view(self.rows@[i as int]));
            }
            if self.rows[i].pin.is_some() {
                n += 1;
            }
            i += 1;
        }
        assert(self@.take(i as int) =~= self@);
        n
    }

    /// The list the interface shows: every entry in list order, pinned ones
    /// first by position, then the most recently used, cut after
    /// `max_entries` entries beyond the pinned ones.
    pub fn list(&self, settings: &Settings) -> (r: Result<Vec<EntryMeta>, DbError>)
        ensures
            well_formed(self@),
            r matches Ok(metas) && metas@.len() == list_len(self@, settings.max_entries) && forall|i: int|
                0 <= i < metas@.len() ==> shows(#[trigger] metas@[i], self@[i]),
    {
        proof {
            use_type_invariant(self);
        }
        let pins = self.pins();
        let mut out: Vec<EntryMeta> = Vec::new();
        let mut i: usize = 0;
        while i < self.rows.len() && (i < pins || ((i - pins) as u64) < settings.max_entries as u64)
            invariant
                i <= self.rows.len(),
                self@.len() == self.rows@.len(),
                pins == pinned_count(self@),
                i <= pins + settings.max_entries,
                out@.len() == i,
                forall|k: int| 0 <= k < i ==> shows(#[trigger] out@[k], self@[k]),
            decreases self.rows.len() - i,
        {
            let ghost before_out = out@;
            let m = Self::meta(&self.rows[i]);
            out.push(m);
            proof {
                assert(self@[i as int] == row_view(self.rows@[i as int]));
                assert forall|k: int| 0 <= k < i + 1 implies shows(#[trigger] out@[k], self@[k]) by {
                    if k < i {
                        assert(out@[k] == before_out[k]);
                    }
                }
            }
            i += 1;
        }
        Ok(out)
    }

    fn meta(row: &Row) -> (r: EntryMeta)
        ensures
            shows(r, row_view(*row)),
    {
        let use_count: u32 = if 0 <= row.use_count && row.use_count <= u32::MAX as i64 {
            row.use_count as u32
        } else {
            u32::MAX
        };
        let pinned: Option<u32> = match row.pin {
            Some(p) => Some(
                if 0 <= p && p <= u32::MAX as i64 {
                    p as u32
                } else {
                    0
                },
            ),
            None => None,
        };
        let byte_size: u64 = if row.byte_size >= 0 {
            row.byte_size as u64
        } else if row.byte_size == i64::MIN {
            9_223_372_036_854_775_808u64
        } else {
            (-row.byte_size) as u64
        };
        let image_size = match &row.thumbnail {
            Some(t) => Some((t.width, t.height)),
            None => None,
        };
        EntryMeta {
            id: EntryId(row.id),
            kind: row.kind,
            preview: copy_string(&row.preview),
            byte_size,
            source_app: copy_opt_string(&row.source_app),
            created_at: row.created_at,
            last_used_at: row.last_used_at,
            use_count,
            pinned,
            image_size,
        }
    }

    /// A flavour of the entry with `id`: the one of type `mime`, or the
    /// first where no type is asked for. Nothing where there is no such
    /// entry or flavour.
    pub fn load(&self, id: EntryId, mime: Option<&str>) -> (r: Result<Option<Flavor>, DbError>)
        ensures
            r matches Ok(found) && match index_of(self@, id.0) {
                None => found is None,
                Some(i) => match mime {
                    None => match found {
                        Some(f) => self@[i].contents.len() > 0 && (f.mime@, f.body@) == self@[i].contents[0],
                        None => self@[i].contents.len() == 0,
                    },
                    Some(m) => match found {
                        Some(f) => f.mime@ == m@ && self@[i].contents.contains((f.mime@, f.body@)),
                        None => forall|k: int| 0 <= k < self@[i].contents.len() ==> (#[trigger] self@[i].contents[k]).0 != m@,
                    },
                },
            },
    {
        let Some(i) = self.find_id(id.0) else {
            return Ok(None);
        };
        let row = &self.rows[i];
        assert(self@[i as int] == row_view(self.rows@[i as int]));
        match mime {
            None => {
                if row.contents.len() > 0 {
                    Ok(Some(copy_flavor(&row.contents[0])))
                } else {
                    Ok(None)
                }
            },
            Some(m) => {
                let wanted = chars_of(m);
                let mut k: usize = 0;
                while k < row.contents.len()
                    invariant
                        k <= row.contents.len(),
                        wanted@ == m@,
                        (i as int) < self.rows@.len(),
                        index_of(self@, id.0) == Some(i as int),
                        mime == Some(m),
                        *row == self.rows@[i as int],
                        self@[i as int] == row_view(self.rows@[i as int]),
                        forall|j: int| 0 <= j < k ==> (#[trigger] row.contents@[j]).mime@ != m@,
                    decreases row.contents.len() - k,
                {
                    let have = chars_of(row.contents[k].mime.as_str());
                    if equal(have.as_slice(), wanted.as_slice()) {
                        let f = copy_flavor(&row.contents[k]);
                        assert(contents_view(row.contents@)[k as int] == (f.mime@, f.body@));
                        assert(self@[i as int].contents[k as int] == (f.mime@, f.body@));
                        assert(self@[i as int].contents.len() == row.contents@.len());
                        assert(self@[i as int].contents.contains((f.mime@, f.body@)));
                        assert(f.mime@ == m@);
                        return Ok(Some(f));
                    }
                    k += 1;
                }
                proof {
                    assert forall|j: int| 0 <= j < self@[i as int].contents.len() implies (#[trigger] self@[i as int].contents[j]).0 != m@ by {
                        assert(self@[i as int].contents[j] == (row.contents@[j].mime@, row.contents@[j].body@));
                    }
                }
                Ok(None)
            },
        }
    }

    /// Every flavour of the entry with `id`, in the order they were offered;
    /// none where there is no such entry.
    pub fn load_all(&self, id: EntryId) -> (r: Result<Vec<Flavor>, DbError>)
        ensures
            r matches Ok(flavors) && contents_view(flavors@) == match index_of(self@, id.0) {
                Some(i) => self@[i].contents,
                None => seq![],
            },
    {
        let Some(i) = self.find_id(id.0) else {
            let none: Vec<Flavor> = Vec::new();
            assert(contents_view(none@) =~= seq![]);
            return Ok(none);
        };
        let row = &self.rows[i];
        assert(self@[i as int] == row_view(self.rows@[i as int]));
        let mut out: Vec<Flavor> = Vec::new();
        let mut k: usize = 0;
        while k < row.contents.len()
            invariant
                k <= row.contents.len(),
                contents_view(out@) == contents_view(row.contents@).take(k as int),
            decreases row.contents.len() - k,
        {
            let ghost before_out = out@;
            let f = copy_flavor(&row.contents[k]);
            out.push(f);
            proof {
                lemma_contents_push(before_out, f);
                assert(contents_view(row.contents@).take(k + 1) =~= contents_view(row.contents@).take(
                    k as int,
                ).push(contents_view(row.contents@)[k as int]));
            }
            k += 1;
        }
        assert(contents_view(row.contents@).take(k as int) =~= contents_view(row.contents@));
        Ok(out)
    }

    /// The thumbnail of the entry with `id`, if it has one.
    pub fn thumbnail(&self, id: EntryId) -> (r: Result<Option<Thumbnail>, DbError>)
        ensures
            r matches Ok(found) && match index_of(self@, id.0) {
                Some(i) => match found {
                    Some(t) => self@[i].thumbnail == Some(thumb_view(t)),
                    None => self@[i].thumbnail is None,
                },
                None => found is None,
            },
    {
        let Some(i) = self.find_id(id.0) else {
            return Ok(None);
        };
        assert(self@[i as int] == row_view(self.rows@[i as int]));
        match &self.rows[i].thumbnail {
            Some(t) => Ok(Some(copy_thumbnail(t))),
            None => Ok(None),
        }
    }

    /// Records a use of the entry with `id` at `now`; nothing where there is
    /// no such entry.
    pub fn touch(&mut self, id: EntryId, now: Timestamp) -> (r: Result<(), DbError>)
        ensures
            well_formed(final(self)@),
            r is Ok,
            final(self)@ == match index_of(old(self)@, id.0) {
                Some(i) => replaced(old(self)@, i, used(old(self)@[i], now)),
                None => old(self)@,
            },
    {
        proof {
            use_type_invariant(&*self);
        }
        let Some(i) = self.find_id(id.0) else {
            return Ok(());
        };
        let ghost s = self@;
        proof {
            lemma_index_of(s, id.0);
        }
        let mut rows = self.take_rows();
        let mut row = rows.remove(i);
        proof {
            assert(row_view(row) == s[i as int]);
            assert(rows_view(rows@) =~= s.remove(i as int));
            lemma_remove_wf(s, i as int);
        }
        if row.use_count < i64::MAX {
            row.use_count = row.use_count + 1;
        }
        row.last_used_at = now;
        assert(row_view(row) == used(s[i as int], now));
        Self::place(&mut rows, row);
        proof {
            lemma_placed_wf(s.remove(i as int), used(s[i as int], now));
        }
        self.rows = rows;
        Ok(())
    }

    /// Removes the entry with `id`, with its flavours, thumbnail and pin.
    pub fn delete(&mut self, id: EntryId) -> (r: Result<(), DbError>)
        ensures
            well_formed(final(self)@),
            r is Ok,
            final(self)@ == match index_of(old(self)@, id.0) {
                Some(i) => old(self)@.remove(i),
                None => old(self)@,
            },
    {
        proof {
            use_type_invariant(&*self);
        }
        let Some(i) = self.find_id(id.0) else {
            return Ok(());
        };
        let ghost s = self@;
        proof {
            lemma_index_of(s, id.0);
            lemma_remove_wf(s, i as int);
        }
        let mut rows = self.take_rows();
        rows.remove(i);
        assert(rows_view(rows@) =~= s.remove(i as int));
        self.rows = rows;
        Ok(())
    }

    /// Removes every entry, or every unpinned one.
    pub fn clear(&mut self, include_pinned: bool) -> (r: Result<(), DbError>)
        ensures
            well_formed(final(self)@),
            r is Ok,
            final(self)@ == if include_pinned {
                Seq::<EntryView>::empty()
            } else {
                pinned_only(old(self)@)
            },
    {
        proof {
            use_type_invariant(&*self);
        }
        let ghost s = self@;
        let rows = self.take_rows();
        let mut kept: Vec<Row> = Vec::new();
        if !include_pinned {
            let mut rows = rows;
            let mut i: usize = 0;
            while i < rows.len()
                invariant
                    i <= rows.len(),
                    rows_view(rows@) == s,
                    rows_view(kept@) == pinned_only(s.take(i as int)),
                    well_formed(s),
                decreases rows.len() - i,
            {
                proof {
                    assert(s.take(i + 1).drop_last() =~= s.take(i as int));
                    assert(s.take(i + 1).last() == row_view(rows@[i as int]));
                }
                if rows[i].pin.is_some() {
                    let row = Self::copy_row(&rows[i]);
                    let ghost before_kept = kept@;
                    kept.push(row);
                    proof {
                        lemma_rows_push(before_kept, row);
                    }
                }
                i += 1;
            }
            assert(s.take(i as int) =~= s);
            proof {
                lemma_pinned_only_wf(s);
            }
        } else {
            assert(rows_view(kept@) =~= Seq::<EntryView>::empty());
        }
        self.rows = kept;
        Ok(())
    }

    fn copy_row(row: &Row) -> (r: Row)
        ensures
            row_view(r) == row_view(*row),
    {
        let mut contents: Vec<Flavor> = Vec::new();
        let mut k: usize = 0;
        while k < row.contents.len()
            invariant
                k <= row.contents.len(),
                contents_view(contents@) == contents_view(row.contents@).take(k as int),
            decreases row.contents.len() - k,
        {
            let ghost before_contents = contents@;
            let f = copy_flavor(&row.contents[k]);
            contents.push(f);
            proof {
                lemma_contents_push(before_contents, f);
                assert(contents_view(row.contents@).take(k + 1) =~= contents_view(row.contents@).take(
                    k as int,
                ).push(contents_view(row.contents@)[k as int]));
            }
            k += 1;
        }
        assert(contents_view(row.contents@).take(k as int) =~= contents_view(row.contents@));
        Row {
            id: row.id,
            hash: copy_bytes(&row.hash),
            kind: row.kind,
            preview: copy_string(&row.preview),
            byte_size: row.byte_size,
            source_app: copy_opt_string(&row.source_app),
            created_at: row.created_at,
            last_used_at: row.last_used_at,
            use_count: row.use_count,
            contents,
            thumbnail: match &row.thumbnail {
                Some(t) => Some(copy_thumbnail(t)),
                None => None,
            },
            pin: row.pin,
        }
    }

    fn max_pin(&self) -> (r: Option<i64>)
        ensures
            r == max_pin(self@),
    {
        let mut m: Option<i64> = None;
        let mut i: usize = 0;
        while i < self.rows.len()
            invariant
                i <= self.rows.len(),
                m == max_pin(self@.take(i as int)),
            decreases self.rows.len() - i,
        {
            proof {
                assert(self@.take(i + 1).drop_last() =~= self@.take(i as int));
                assert(self@.take(i + 1).last() == row_view(self.rows@[i as int]));
            }
            match self.rows[i].pin {
                None => {},
                Some(p) => {
                    m = match m {
                        None => Some(p),
                        Some(q) => if p > q {
                            Some(p)
                        } else {
                            Some(q)
                        },
                    };
                },
            }
            i += 1;
        }
        assert(self@.take(i as int) =~= self@);
        m
    }

    /// Pins the entry with `id` after every other pin, or unpins it. Pinning
    /// a pinned entry changes nothing; there is nothing to pin where there
    /// is no such entry.
    pub fn set_pinned(&mut self, id: EntryId, pinned: bool) -> (r: Result<(), DbError>)
        ensures
            well_formed(final(self)@),
            (final(self)@, r) == pinning(old(self)@, id.0, pinned),
    {
        proof {
            use_type_invariant(&*self);
        }
        let Some(i) = self.find_id(id.0) else {
            return if pinned {
                Err(DbError::NoSuchEntry)
            } else {
                Ok(())
            };
        };
        let ghost s = self@;
        proof {
            lemma_index_of(s, id.0);
        }
        let current = self.rows[i].pin;
        assert(current == s[i as int].pin);
        let position = if pinned {
            if current.is_some() {
                return Ok(());
            }
            match self.max_pin() {
                Some(p) => {
                    if p == i64::MAX {
                        return Err(DbError::Exhausted);
                    }
                    Some(p + 1)
                },
                None => Some(0),
            }
        } else {
            if current.is_none() {
                return Ok(());
            }
            None
        };
        let mut rows = self.take_rows();
        let mut row = rows.remove(i);
        proof {
            assert(row_view(row) == s[i as int]);
            assert(rows_view(rows@) =~= s.remove(i as int));
            lemma_remove_wf(s, i as int);
        }
        row.pin = position;
        let ghost changed = row_view(row);
        Self::place(&mut rows, row);
        proof {
            lemma_placed_wf(s.remove(i as int), changed);
        }
        self.rows = rows;
        Ok(())
    }

    /// Removes what the settings no longer allow: unpinned entries beyond
    /// the `max_entries` most recently used ones and, with an age limit,
    /// unpinned entries not used within it. A pin is never removed. Answers
    /// how many entries went.
    pub fn prune(&mut self, settings: &Settings, now: Timestamp) -> (r: Result<usize, DbError>)
        requires
            settings.max_age_days matches Some(days) ==> now - days * DAY_MS >= i64::MIN,
        ensures
            well_formed(final(self)@),
            final(self)@ == pruned(old(self)@, settings.max_entries, cutoff_of(*settings, now)),
            r == Ok::<usize, DbError>((old(self)@.len() - final(self)@.len()) as usize),
    {
        proof {
            use_type_invariant(&*self);
        }
        let cutoff: Option<i64> = match settings.max_age_days {
            Some(days) => Some(now - (days as i64) * DAY_MS),
            None => None,
        };
        let ghost s = self@;
        let rows = self.take_rows();
        let mut kept: Vec<Row> = Vec::new();
        let mut unpinned: u64 = 0;
        let mut i: usize = 0;
        while i < rows.len()
            invariant
                i <= rows.len(),
                rows_view(rows@) == s,
                well_formed(s),
                cutoff == cutoff_of(*settings, now),
                rows_view(kept@) == pruned(s.take(i as int), settings.max_entries, cutoff),
                unpinned == unpinned_count(s.take(i as int)),
                kept@.len() <= i,
            decreases rows.len() - i,
        {
            proof {
                assert(s.take(i + 1).drop_last() =~= s.take(i as int));
                assert(s.take(i + 1).last() == row_view(rows@[i as int]));
                lemma_pinned_count_bound(s.take(i as int));
                lemma_pruned_len(s.take(i as int), settings.max_entries, cutoff);
            }
            let row = &rows[i];
            let keep = row.pin.is_some() || (unpinned < settings.max_entries as u64 && match cutoff {
                Some(c) => row.last_used_at >= c,
                None => true,
            });
            if keep {
                let copy = Self::copy_row(row);
                let ghost before_kept = kept@;
                kept.push(copy);
                proof {
                    lemma_rows_push(before_kept, copy);
                }
            }
            if row.pin.is_none() {
                unpinned = unpinned + 1;
            }
            i += 1;
        }
        assert(s.take(i as int) =~= s);
        proof {
            lemma_pruned_wf(s, settings.max_entries, cutoff);
        }
        let removed = rows.len() - kept.len();
        self.rows = kept;
        Ok(removed)
    }
}

proof fn lemma_contents_push(c: Seq<Flavor>, f: Flavor)
    ensures
        contents_view(c.push(f)) == contents_view(c).push((f.mime@, f.body@)),
{
    assert(contents_view(c.push(f)).len() == c.len() + 1);
    assert(contents_view(c).len() == c.len());
    assert forall|k: int| 0 <= k < c.len() + 1 implies #[trigger] contents_view(c.push(f))[k] == contents_view(c).push((f.mime@, f.body@))[k] by {
        if k < c.len() {
            assert(c.push(f)[k] == c[k]);
        }
    }
    assert(contents_view(c.push(f)) =~= contents_view(c).push((f.mime@, f.body@)));
}

proof fn lemma_rows_push(rows: Seq<Row>, r: Row)
    ensures
        rows_view(rows.push(r)) == rows_view(rows).push(row_view(r)),
{
    assert(rows_view(rows.push(r)).len() == rows.len() + 1);
    assert(rows_view(rows).len() == rows.len());
    assert forall|k: int| 0 <= k < rows.len() + 1 implies #[trigger] rows_view(rows.push(r))[k] == rows_view(rows).push(row_view(r))[k] by {
        if k < rows.len() {
            assert(rows.push(r)[k] == rows[k]);
        }
    }
    assert(rows_view(rows.push(r)) =~= rows_view(rows).push(row_view(r)));
}

proof fn lemma_flavor_bytes_prefix(flavors: Seq<Flavor>, n: int)
    requires
        0 <= n <= flavors.len(),
    ensures
        0 <= flavor_bytes(flavors.take(n)) <= flavor_bytes(flavors),
    decreases flavors.len() - n,
{
    lemma_flavor_bytes_nonneg(flavors.take(n));
    if n < flavors.len() {
        lemma_flavor_bytes_prefix(flavors, n + 1);
        assert(flavors.take(n + 1).drop_last() =~= flavors.take(n));
    } else {
        assert(flavors.take(n) =~= flavors);
    }
}

proof fn lemma_flavor_bytes_nonneg(flavors: Seq<Flavor>)
    ensures
        flavor_bytes(flavors) >= 0,
    decreases flavors.len(),
{
    if flavors.len() > 0 {
        lemma_flavor_bytes_nonneg(flavors.drop_last());
    }
}

proof fn lemma_pinned_count_bound(s: Seq<EntryView>)
    ensures
        pinned_count(s) <= s.len(),
    decreases s.len(),
{
    if s.len() > 0 {
        lemma_pinned_count_bound(s.drop_last());
    }
}

proof fn lemma_pruned_len(s: Seq<EntryView>, max_entries: u32, cutoff: Option<i64>)
    ensures
        pruned(s, max_entries, cutoff).len() <= s.len(),
    decreases s.len(),
{
    if s.len() > 0 {
        lemma_pruned_len(s.drop_last(), max_entries, cutoff);
    }
}

/// A subsequence of a history, in order, is in order.
proof fn lemma_subseq_wf(s: Seq<EntryView>, t: Seq<EntryView>, idx: Seq<int>)
    requires
        well_formed(s),
        idx.len() == t.len(),
        forall|a: int| 0 <= a < idx.len() ==> 0 <= #[trigger] idx[a] < s.len() && t[a] == s[idx[a]],
        forall|a: int, b: int| 0 <= a < b < idx.len() ==> #[trigger] idx[a] < #[trigger] idx[b],
    ensures
        well_formed(t),
{
    assert forall|a: int, b: int| 0 <= a < b < t.len() implies #[trigger] ranks_before(t[a], t[b]) by {
        assert(idx[a] < idx[b]);
    }
    assert forall|a: int, b: int| 0 <= a < t.len() && 0 <= b < t.len() && a != b implies #[trigger] t[a].id != #[trigger] t[b].id by {
        if a < b {
            assert(idx[a] < idx[b]);
        } else {
            assert(idx[b] < idx[a]);
        }
    }
    assert forall|a: int, b: int| 0 <= a < t.len() && 0 <= b < t.len() && a != b implies #[trigger] t[a].hash != #[trigger] t[b].hash by {
        if a < b {
            assert(idx[a] < idx[b]);
        } else {
            assert(idx[b] < idx[a]);
        }
    }
    assert forall|a: int| 0 <= a < t.len() implies #[trigger] t[a].id >= 1 by {
        assert(t[a] == s[idx[a]]);
    }
}

/// The indices of `s` that pruning keeps.
spec fn pruned_indices(s: Seq<EntryView>, max_entries: u32, cutoff: Option<i64>) -> Seq<int>
    decreases s.len(),
{
    if s.len() == 0 {
        seq![]
    } else {
        let kept = pruned_indices(s.drop_last(), max_entries, cutoff);
        if survives(s.last(), unpinned_count(s.drop_last()), max_entries, cutoff) {
            kept.push(s.len() - 1)
        } else {
            kept
        }
    }
}

proof fn lemma_pruned_indices(s: Seq<EntryView>, max_entries: u32, cutoff: Option<i64>)
    ensures
        ({
            let idx = pruned_indices(s, max_entries, cutoff);
            let t = pruned(s, max_entries, cutoff);
            &&& idx.len() == t.len()
            &&& forall|a: int| 0 <= a < idx.len() ==> 0 <= #[trigger] idx[a] < s.len() && t[a] == s[idx[a]]
            &&& forall|a: int, b: int| 0 <= a < b < idx.len() ==> #[trigger] idx[a] < #[trigger] idx[b]
        }),
    decreases s.len(),
{
    if s.len() > 0 {
        let p = s.drop_last();
        lemma_pruned_indices(p, max_entries, cutoff);
        let idx = pruned_indices(s, max_entries, cutoff);
        let t = pruned(s, max_entries, cutoff);
        let pidx = pruned_indices(p, max_entries, cutoff);
        let pt = pruned(p, max_entries, cutoff);
        assert forall|a: int| 0 <= a < pidx.len() implies 0 <= #[trigger] pidx[a] < s.len() - 1 && pt[a] == s[pidx[a]] by {
            assert(p[pidx[a]] == s[pidx[a]]);
        }
        if survives(s.last(), unpinned_count(p), max_entries, cutoff) {
            assert forall|a: int| 0 <= a < idx.len() implies 0 <= #[trigger] idx[a] < s.len() && t[a] == s[idx[a]] by {
                if a < pidx.len() {
                    assert(idx[a] == pidx[a] && t[a] == pt[a]);
                }
            }
            assert forall|a: int, b: int| 0 <= a < b < idx.len() implies #[trigger] idx[a] < #[trigger] idx[b] by {
                if b < pidx.len() {
                    assert(idx[a] == pidx[a] && idx[b] == pidx[b]);
                } else {
                    assert(idx[a] == pidx[a]);
                }
            }
        }
    }
}

proof fn lemma_pruned_wf(s: Seq<EntryView>, max_entries: u32, cutoff: Option<i64>)
    requires
        well_formed(s),
    ensures
        well_formed(pruned(s, max_entries, cutoff)),
{
    lemma_pruned_indices(s, max_entries, cutoff);
    lemma_subseq_wf(s, pruned(s, max_entries, cutoff), pruned_indices(s, max_entries, cutoff));
}

spec fn pinned_indices(s: Seq<EntryView>) -> Seq<int>
    decreases s.len(),
{
    if s.len() == 0 {
        seq![]
    } else {
        let kept = pinned_indices(s.drop_last());
        if s.last().pin is Some {
            kept.push(s.len() - 1)
        } else {
            kept
        }
    }
}

proof fn lemma_pinned_only_wf(s: Seq<EntryView>)
    requires
        well_formed(s),
    ensures
        well_formed(pinned_only(s)),
{
    lemma_pinned_indices(s);
    lemma_subseq_wf(s, pinned_only(s), pinned_indices(s));
}

proof fn lemma_pinned_indices(s: Seq<EntryView>)
    ensures
        ({
            let idx = pinned_indices(s);
            let t = pinned_only(s);
            &&& idx.len() == t.len()
            &&& forall|a: int| 0 <= a < idx.len() ==> 0 <= #[trigger] idx[a] < s.len() && t[a] == s[idx[a]]
            &&& forall|a: int, b: int| 0 <= a < b < idx.len() ==> #[trigger] idx[a] < #[trigger] idx[b]
        }),
    decreases s.len(),
{
    if s.len() > 0 {
        let p = s.drop_last();
        lemma_pinned_indices(p);
        let idx = pinned_indices(s);
        let t = pinned_only(s);
        let pidx = pinned_indices(p);
        let pt = pinned_only(p);
        assert forall|a: int| 0 <= a < pidx.len() implies 0 <= #[trigger] pidx[a] < s.len() - 1 && pt[a] == s[pidx[a]] by {
            assert(p[pidx[a]] == s[pidx[a]]);
        }
        if s.last().pin is Some {
            assert forall|a: int| 0 <= a < idx.len() implies 0 <= #[trigger] idx[a] < s.len() && t[a] == s[idx[a]] by {
                if a < pidx.len() {
                    assert(idx[a] == pidx[a] && t[a] == pt[a]);
                }
            }
            assert forall|a: int, b: int| 0 <= a < b < idx.len() implies #[trigger] idx[a] < #[trigger] idx[b] by {
                if b < pidx.len() {
                    assert(idx[a] == pidx[a] && idx[b] == pidx[b]);
                } else {
                    assert(idx[a] == pidx[a]);
                }
            }
        }
    }
}

// ------------------------------------------------------------------------
// Keeping the history elsewhere
// ------------------------------------------------------------------------

/// One entry as a history kept elsewhere (on disk) holds it.
#[derive(Debug)]
pub struct Record {
    pub id: i64,
    pub hash: Vec<u8>,
    pub kind: EntryKind,
    pub preview: String,
    pub byte_size: i64,
    pub source_app: Option<String>,
    pub created_at: i64,
    pub last_used_at: i64,
    pub use_count: i64,
    pub contents: Vec<Flavor>,
    pub thumbnail: Option<Thumbnail>,
    pub pin: Option<i64>,
}

/// Where the history is kept: under `data_home` where it is an absolute
/// path, else under `.local/share` in `home`, else under `temp_dir`, in a
/// directory of its own.
pub open spec fn history_path(data_home: Option<Seq<char>>, home: Option<Seq<char>>, temp_dir: Seq<char>) -> Seq<char> {
    let base = match data_home {
        Some(d) => if d.len() > 0 && d[0] == '/' {
            d
        } else {
            match home {
                Some(h) => joined_path(h, ".local/share"@),
                None => temp_dir,
            }
        },
        None => match home {
            Some(h) => joined_path(h, ".local/share"@),
            None => temp_dir,
        },
    };
    joined_path(joined_path(base, "cosmic-clip-keep"@), "history.db"@)
}

/// Where the history is kept, from the data directory, the home directory
/// and the temporary directory the environment names; see `history_path`.
pub fn default_path(data_home: Option<&str>, home: Option<&str>, temp_dir: &str) -> (r: String)
    ensures
        r@ == history_path(
            match data_home {
                Some(d) => Some(d@),
                None => None,
            },
            match home {
                Some(h) => Some(h@),
                None => None,
            },
            temp_dir@,
        ),
{
    let absolute = match data_home {
        Some(d) => {
            let chars = chars_of(d);
            chars.len() > 0 && chars[0] == '/'
        },
        None => false,
    };
    let base: Vec<char> = if absolute {
        match data_home {
            Some(d) => chars_of(d),
            None => chars_of(temp_dir),
        }
    } else {
        match home {
            Some(h) => join_path(h, ".local/share"),
            None => chars_of(temp_dir),
        }
    };
    let base = string_of(base.as_slice());
    let dir = string_of(join_path(base.as_str(), "cosmic-clip-keep").as_slice());
    string_of(join_path(dir.as_str(), "history.db").as_slice())
}

/// What the history knows of a record.
pub open spec fn record_view(r: Record) -> EntryView {
    EntryView {
        id: r.id,
        hash: r.hash@,
        kind: r.kind,
        preview: r.preview@,
        byte_size: r.byte_size,
        source_app: opt_string_view(r.source_app),
        created_at: r.created_at,
        last_used_at: r.last_used_at,
        use_count: r.use_count,
        contents: contents_view(r.contents@),
        thumbnail: match r.thumbnail {
            Some(t) => Some(thumb_view(t)),
            None => None,
        },
        pin: r.pin,
    }
}

/// The views of records.
pub open spec fn records_view(records: Seq<Record>) -> Seq<EntryView> {
    records.map_values(|r: Record| record_view(r))
}

/// The history the entries make, each put in its place in turn; none where
/// two share an id or a hash, or an id is below one.
pub open spec fn restored(entries: Seq<EntryView>) -> Option<Seq<EntryView>>
    decreases entries.len(),
{
    if entries.len() == 0 {
        Some(seq![])
    } else {
        match restored(entries.drop_last()) {
            None => None,
            Some(s) => {
                let e = entries.last();
                if e.id < 1 || index_of(s, e.id) is Some || index_of_hash(s, e.hash) is Some {
                    None
                } else {
                    Some(placed(s, e))
                }
            },
        }
    }
}

impl Db {
    /// A history made of the records kept elsewhere, in list order whatever
    /// order they come in; refused where two share an id or a hash, or an
    /// id is below one.
    pub fn restore(records: Vec<Record>) -> (r: Result<Db, DbError>)
        ensures
            match r {
                Ok(db) => restored(records_view(records@)) == Some(db@) && well_formed(db@),
                Err(e) => restored(records_view(records@)) is None && e == DbError::Corrupt,
            },
    {
        let ghost all = records_view(records@);
        let total = records.len();
        let mut rest = records;
        let mut db = Db { rows: Vec::new() };
        assert(db@ =~= Seq::<EntryView>::empty());
        let mut k: usize = 0;
        assert(all.take(0) =~= Seq::<EntryView>::empty());
        assert(records_view(rest@) =~= all.skip(0));
        while rest.len() > 0
            invariant
                k + rest@.len() == all.len(),
                all.len() == total,
                all == records_view(records@),
                records_view(rest@) == all.skip(k as int),
                restored(all.take(k as int)) == Some(db@),
                well_formed(db@),
            decreases rest@.len(),
        {
            proof {
                use_type_invariant(&db);
            }
            let ghost old_rest = rest@;
            let record = rest.remove(0);
            proof {
                assert(record == old_rest[0]);
                assert(records_view(old_rest)[0] == record_view(old_rest[0]));
                assert(all.skip(k as int)[0] == all[k as int]);
                assert(record_view(record) == all[k as int]);
                assert(rest@ =~= old_rest.skip(1));
                assert forall|m: int| 0 <= m < rest@.len() implies #[trigger] records_view(rest@)[m]
                    == all.skip(k + 1)[m] by {
                    assert(rest@[m] == old_rest[m + 1]);
                    assert(records_view(old_rest)[m + 1] == all.skip(k as int)[m + 1]);
                }
                assert(records_view(rest@) =~= all.skip(k + 1));
                assert(all.take(k + 1).drop_last() =~= all.take(k as int));
                assert(all.take(k + 1).last() == all[k as int]);
            }
            if record.id < 1 || db.find_id(record.id).is_some() || db.find_hash(record.hash.as_slice()).is_some() {
                proof {
                    lemma_restored_none(all, k as int + 1);
                }
                return Err(DbError::Corrupt);
            }
            let row = Row {
                id: record.id,
                hash: record.hash,
                kind: record.kind,
                preview: record.preview,
                byte_size: record.byte_size,
                source_app: record.source_app,
                created_at: record.created_at,
                last_used_at: record.last_used_at,
                use_count: record.use_count,
                contents: record.contents,
                thumbnail: record.thumbnail,
                pin: record.pin,
            };
            assert(row_view(row) == all[k as int]);
            let ghost before = db@;
            proof {
                lemma_index_of(before, row.id);
                lemma_index_of_hash(before, row.hash@);
                lemma_placed_wf(before, row_view(row));
            }
            let mut rows = db.take_rows();
            Self::place(&mut rows, row);
            db = Db { rows };
            k += 1;
        }
        assert(all.take(k as int) =~= all);
        Ok(db)
    }

    /// Every entry, in list order, to be kept elsewhere.
    pub fn records(&self) -> (r: Vec<Record>)
        ensures
            records_view(r@) == self@,
    {
        let mut out: Vec<Record> = Vec::new();
        let mut i: usize = 0;
        while i < self.rows.len()
            invariant
                i <= self.rows@.len(),
                records_view(out@) == self@.take(i as int),
                self@.len() == self.rows@.len(),
                out@.len() == i,
            decreases self.rows@.len() - i,
        {
            let row = &self.rows[i];
            let mut contents: Vec<Flavor> = Vec::new();
            let mut j: usize = 0;
            while j < row.contents.len()
                invariant
                    j <= row.contents@.len(),
                    contents_view(contents@) == contents_view(row.contents@).take(j as int),
                    contents@.len() == j,
                decreases row.contents@.len() - j,
            {
                let ghost prev = contents@;
                contents.push(copy_flavor(&row.contents[j]));
                proof {
                    assert forall|m: int| 0 <= m <= j implies #[trigger] contents_view(contents@)[m]
                        == contents_view(row.contents@).take(j + 1)[m] by {
                        if m < j {
                            assert(contents_view(prev)[m] == contents_view(row.contents@).take(j as int)[m]);
                        }
                    }
                }
                j += 1;
                assert(contents_view(contents@) =~= contents_view(row.contents@).take(j as int));
            }
            assert(contents_view(row.contents@).take(j as int) =~= contents_view(row.contents@));
            let thumbnail = match &row.thumbnail {
                Some(t) => Some(copy_thumbnail(t)),
                None => None,
            };
            let record = Record {
                id: row.id,
                hash: copy_bytes(&row.hash),
                kind: row.kind,
                preview: copy_string(&row.preview),
                byte_size: row.byte_size,
                source_app: copy_opt_string(&row.source_app),
                created_at: row.created_at,
                last_used_at: row.last_used_at,
                use_count: row.use_count,
                contents,
                thumbnail,
                pin: row.pin,
            };
            assert(record_view(record) == self@[i as int]);
            let ghost prev = out@;
            out.push(record);
            proof {
                assert forall|m: int| 0 <= m <= i implies #[trigger] records_view(out@)[m] == self@.take(
                    i + 1,
                )[m] by {
                    if m < i {
                        assert(records_view(prev)[m] == self@.take(i as int)[m]);
                    }
                }
            }
            i += 1;
            assert(records_view(out@) =~= self@.take(i as int));
        }
        assert(self@.take(i as int) =~= self@);
        out
    }
}

/// Once a prefix cannot be restored, nothing longer can.
proof fn lemma_restored_none(entries: Seq<EntryView>, n: int)
    requires
        0 < n <= entries.len(),
        restored(entries.take(n)) is None,
    ensures
        restored(entries) is None,
    decreases entries.len() - n,
{
    if n < entries.len() {
        assert(entries.take(n + 1).drop_last() =~= entries.take(n));
        lemma_restored_none(entries, n + 1);
    } else {
        assert(entries.take(n) =~= entries);
    }
}

/// Keeping the history elsewhere and restoring it gives back the same
/// history.
pub proof fn a_kept_history_restores_as_it_was(s: Seq<EntryView>)
    requires
        well_formed(s),
    ensures
        restored(s) == Some(s),
    decreases s.len(),
{
    if s.len() > 0 {
        let p = s.drop_last();
        let e = s.last();
        assert(well_formed(p)) by {
            assert forall|i: int, j: int| 0 <= i < j < p.len() implies #[trigger] ranks_before(p[i], p[j]) by {
                assert(p[i] == s[i] && p[j] == s[j]);
            }
            assert forall|i: int, j: int| 0 <= i < p.len() && 0 <= j < p.len() && i != j implies #[trigger] p[i].id != #[trigger] p[j].id by {
                assert(p[i] == s[i] && p[j] == s[j]);
            }
            assert forall|i: int, j: int| 0 <= i < p.len() && 0 <= j < p.len() && i != j implies #[trigger] p[i].hash != #[trigger] p[j].hash by {
                assert(p[i] == s[i] && p[j] == s[j]);
            }
            assert forall|i: int| 0 <= i < p.len() implies #[trigger] p[i].id >= 1 by {
                assert(p[i] == s[i]);
            }
        }
        a_kept_history_restores_as_it_was(p);
        lemma_index_of(p, e.id);
        lemma_index_of_hash(p, e.hash);
        assert forall|k: int| 0 <= k < p.len() implies #[trigger] p[k].id != e.id by {
            assert(p[k] == s[k]);
            assert(s[k].id != s[s.len() - 1].id);
        }
        assert forall|k: int| 0 <= k < p.len() implies #[trigger] p[k].hash != e.hash by {
            assert(p[k] == s[k]);
            assert(s[k].hash != s[s.len() - 1].hash);
        }
        assert(s[s.len() - 1].id >= 1);
        lemma_placed_last(p, e);
        assert(p.insert(p.len() as int, e) =~= s);
    }
}

/// An entry that every entry of a sorted history ranks before goes last.
proof fn lemma_placed_last(p: Seq<EntryView>, e: EntryView)
    requires
        forall|k: int| 0 <= k < p.len() ==> #[trigger] ranks_before(p[k], e),
    ensures
        placed(p, e) == p.insert(p.len() as int, e),
{
    lemma_rank_all(p, e);
}

proof fn lemma_rank_all(p: Seq<EntryView>, e: EntryView)
    requires
        forall|k: int| 0 <= k < p.len() ==> #[trigger] ranks_before(p[k], e),
    ensures
        rank_of(p, e) == p.len(),
    decreases p.len(),
{
    if p.len() > 0 {
        let q = p.drop_last();
        assert forall|k: int| 0 <= k < q.len() implies #[trigger] ranks_before(q[k], e) by {
            assert(q[k] == p[k]);
        }
        lemma_rank_all(q, e);
        assert(ranks_before(p[p.len() - 1], e));
    }
}

// ------------------------------------------------------------------------
// Laws of the history
// ------------------------------------------------------------------------

/// Pinned entries sit above the rest of the list.
pub proof fn pins_sit_above_the_rest(s: Seq<EntryView>, i: int, j: int)
    requires
        well_formed(s),
        0 <= i < j < s.len(),
        s[j].pin is Some,
    ensures
        s[i].pin is Some,
        s[i].pin->0 <= s[j].pin->0,
{
    assert(ranks_before(s[i], s[j]));
}

/// Among unpinned entries, the most recently used comes first.
pub proof fn most_recently_used_first(s: Seq<EntryView>, i: int, j: int)
    requires
        well_formed(s),
        0 <= i < j < s.len(),
        s[i].pin is None,
    ensures
        s[j].pin is None,
        s[i].last_used_at >= s[j].last_used_at,
{
    assert(ranks_before(s[i], s[j]));
}

/// Storing content the history already holds adds no entry: the entry it
/// met keeps its id, kind, preview, flavours, thumbnail, pin and the time
/// it was first copied, and is now used at the time of the store.
pub proof fn a_repeat_bumps_instead_of_duplicating(s: Seq<EntryView>, entry: NewEntry, now: i64)
    requires
        well_formed(s),
        index_of_hash(s, entry.hash@) is Some,
    ensures
        ({
            let i = index_of_hash(s, entry.hash@)->0;
            let (t, r) = store_spec(s, entry, now);
            &&& t.len() == s.len()
            &&& r == Ok::<Stored, DbError>(Stored::Repeated(EntryId(s[i].id)))
            &&& t.contains(met_again(s[i], now))
            &&& met_again(s[i], now).created_at == s[i].created_at
            &&& met_again(s[i], now).contents == s[i].contents
            &&& met_again(s[i], now).last_used_at == now
            &&& met_again(s[i], now).use_count == if now - s[i].last_used_at >= ECHO_WINDOW_MS {
                one_more(s[i].use_count)
            } else {
                s[i].use_count
            }
            &&& well_formed(t)
        }),
{
    let i = index_of_hash(s, entry.hash@)->0;
    lemma_index_of_hash(s, entry.hash@);
    lemma_remove_wf(s, i);
    let e = met_again(s[i], now);
    lemma_placed_wf(s.remove(i), e);
    lemma_rank_bound(s.remove(i), e);
    let t = placed(s.remove(i), e);
    assert(t[rank_of(s.remove(i), e) as int] == e);
}

/// A copy the history does not hold becomes one more entry, with an id no
/// other entry has.
pub proof fn a_new_copy_adds_one_entry(s: Seq<EntryView>, entry: NewEntry, now: i64)
    requires
        well_formed(s),
        index_of_hash(s, entry.hash@) is None,
        max_id(s) < i64::MAX,
    ensures
        ({
            let (t, r) = store_spec(s, entry, now);
            &&& t.len() == s.len() + 1
            &&& r matches Ok(Stored::Inserted(id)) && forall|k: int| 0 <= k < s.len() ==> #[trigger] s[k].id != id.0
            &&& well_formed(t)
        }),
{
    let id = (max_id(s) + 1) as i64;
    let e = new_entry_view(entry, id, now);
    lemma_max_id(s);
    lemma_index_of_hash(s, entry.hash@);
    assert forall|k: int| 0 <= k < s.len() implies #[trigger] s[k].id != e.id by {}
    lemma_placed_wf(s, e);
}

/// No two flavours share a type.
pub open spec fn distinct_mimes(flavors: Seq<Flavor>) -> bool {
    forall|a: int, b: int| 0 <= a < b < flavors.len() ==> #[trigger] flavors[a].mime@ != #[trigger] flavors[b].mime@
}

proof fn lemma_without_absent(c: Seq<(Seq<char>, Seq<u8>)>, mime: Seq<char>)
    requires
        forall|k: int| 0 <= k < c.len() ==> (#[trigger] c[k]).0 != mime,
    ensures
        without_mime(c, mime) == c,
    decreases c.len(),
{
    if c.len() > 0 {
        let p = c.drop_last();
        assert forall|k: int| 0 <= k < p.len() implies (#[trigger] p[k]).0 != mime by {
            assert(p[k] == c[k]);
        }
        lemma_without_absent(p, mime);
        assert(c.last().0 != mime);
        assert(p.push(c.last()) =~= c);
    }
}

/// Flavours of distinct types are stored as they were offered.
proof fn lemma_stored_distinct(flavors: Seq<Flavor>)
    requires
        distinct_mimes(flavors),
    ensures
        stored_contents(flavors) == contents_view(flavors),
    decreases flavors.len(),
{
    if flavors.len() > 0 {
        let p = flavors.drop_last();
        let f = flavors.last();
        assert(distinct_mimes(p)) by {
            assert forall|a: int, b: int| 0 <= a < b < p.len() implies #[trigger] p[a].mime@ != #[trigger] p[b].mime@ by {
                assert(p[a] == flavors[a] && p[b] == flavors[b]);
            }
        }
        lemma_stored_distinct(p);
        assert forall|k: int| 0 <= k < contents_view(p).len() implies (#[trigger] contents_view(p)[k]).0 != f.mime@ by {
            assert(p[k] == flavors[k]);
            assert(flavors[k].mime@ != flavors[flavors.len() - 1].mime@);
        }
        lemma_without_absent(contents_view(p), f.mime@);
        lemma_contents_push(p, f);
        assert(p.push(f) =~= flavors);
    }
}

/// What a store writes, a read gives back: a copy the history did not hold
/// is found again under the id it was given, with its flavours as stored;
/// where no two flavours share a type, those are the flavours as offered,
/// in order, the first of them first.
pub proof fn what_is_stored_reads_back(s: Seq<EntryView>, entry: NewEntry, now: i64)
    requires
        well_formed(s),
        index_of_hash(s, entry.hash@) is None,
        max_id(s) < i64::MAX,
    ensures
        ({
            let (t, r) = store_spec(s, entry, now);
            r matches Ok(Stored::Inserted(id)) && (index_of(t, id.0) matches Some(k) && {
                &&& t[k].contents == stored_contents(entry.flavors@)
                &&& distinct_mimes(entry.flavors@) ==> t[k].contents == contents_view(entry.flavors@)
                &&& distinct_mimes(entry.flavors@) && entry.flavors@.len() > 0 ==> t[k].contents.len() > 0
                    && t[k].contents[0] == (entry.flavors@[0].mime@, entry.flavors@[0].body@)
            })
        }),
{
    let id = (max_id(s) + 1) as i64;
    let e = new_entry_view(entry, id, now);
    lemma_max_id(s);
    lemma_index_of_hash(s, entry.hash@);
    assert forall|k: int| 0 <= k < s.len() implies #[trigger] s[k].id != e.id by {}
    lemma_placed_wf(s, e);
    lemma_rank_bound(s, e);
    let t = placed(s, e);
    let r = rank_of(s, e) as int;
    assert(t[r] == e);
    lemma_index_of_is(t, id, r);
    if distinct_mimes(entry.flavors@) {
        lemma_stored_distinct(entry.flavors@);
    }
}

/// Pruning never removes a pinned entry, and keeps nothing that was not
/// there.
pub proof fn pruning_never_touches_a_pin(s: Seq<EntryView>, max_entries: u32, cutoff: Option<i64>)
    ensures
        forall|i: int| 0 <= i < s.len() && (#[trigger] s[i]).pin is Some ==> pruned(s, max_entries, cutoff).contains(s[i]),
        forall|e: EntryView| #[trigger] pruned(s, max_entries, cutoff).contains(e) ==> s.contains(e),
    decreases s.len(),
{
    if s.len() > 0 {
        let p = s.drop_last();
        pruning_never_touches_a_pin(p, max_entries, cutoff);
        let t = pruned(s, max_entries, cutoff);
        let pt = pruned(p, max_entries, cutoff);
        assert forall|i: int| 0 <= i < s.len() && (#[trigger] s[i]).pin is Some implies t.contains(s[i]) by {
            if i < p.len() {
                assert(s[i] == p[i]);
                assert(pt.contains(p[i]));
                let k = choose|k: int| 0 <= k < pt.len() && pt[k] == p[i];
                if survives(s.last(), unpinned_count(p), max_entries, cutoff) {
                    assert(t[k] == pt[k]);
                }
            } else {
                assert(t[t.len() - 1] == s[i]);
            }
        }
        assert forall|e: EntryView| #[trigger] t.contains(e) implies s.contains(e) by {
            let k = choose|k: int| 0 <= k < t.len() && t[k] == e;
            if k < pt.len() {
                assert(t[k] == pt[k]);
                assert(pt.contains(e));
                let m = choose|m: int| 0 <= m < p.len() && p[m] == e;
                assert(s[m] == e);
            } else {
                assert(s[s.len() - 1] == e);
            }
        }
    }
}

/// Without an age limit, pruning keeps the `max_entries` most recently used
/// unpinned entries and every pinned one: the unpinned entry at `i`
/// survives exactly when fewer than `max_entries` unpinned entries come
/// before it.
pub proof fn pruning_keeps_the_newest(s: Seq<EntryView>, max_entries: u32, i: int)
    requires
        well_formed(s),
        0 <= i < s.len(),
        s[i].pin is None,
    ensures
        pruned(s, max_entries, None).contains(s[i]) <==> unpinned_count(s.take(i)) < max_entries,
    decreases s.len(),
{
    let p = s.drop_last();
    let t = pruned(s, max_entries, None);
    let pt = pruned(p, max_entries, None);
    lemma_pruned_indices(s, max_entries, None);
    if i < s.len() - 1 {
        assert(well_formed(p)) by {
            lemma_remove_wf(s, s.len() - 1);
            assert(s.remove(s.len() - 1) =~= p);
        }
        assert(p[i] == s[i]);
        assert(p.take(i) =~= s.take(i));
        pruning_keeps_the_newest(p, max_entries, i);
        if pt.contains(s[i]) {
            let k = choose|k: int| 0 <= k < pt.len() && pt[k] == s[i];
            assert(t[k] == pt[k]);
            assert(t.contains(s[i]));
        }
        if t.contains(s[i]) {
            let k = choose|k: int| 0 <= k < t.len() && t[k] == s[i];
            if k < pt.len() {
                assert(t[k] == pt[k]);
                assert(pt.contains(s[i]));
            } else {
                assert(t[k] == s.last());
                assert(s[s.len() - 1].id != s[i].id);
            }
        }
    } else {
        assert(s.take(i) =~= p);
        if survives(s.last(), unpinned_count(p), max_entries, None) {
            assert(t[t.len() - 1] == s[i]);
            assert(t.contains(s[i]));
        }
        if t.contains(s[i]) {
            let k = choose|k: int| 0 <= k < t.len() && t[k] == s[i];
            if k < pt.len() {
                lemma_pruned_indices(p, max_entries, None);
                let idx = pruned_indices(p, max_entries, None);
                assert(pt[k] == p[idx[k]]);
                assert(p[idx[k]] == s[idx[k]]);
                assert(s[idx[k]].id != s[i].id);
            }
        }
    }
}

/// With an age limit, an unpinned entry is kept exactly when fewer than
/// `max_entries` unpinned entries come before it and it was last used at
/// or after the cutoff: a copy used again lately stays however long ago it
/// was first copied, and when it was first copied plays no part.
pub proof fn pruning_by_age_looks_at_the_last_use(s: Seq<EntryView>, max_entries: u32, c: i64, i: int)
    requires
        well_formed(s),
        0 <= i < s.len(),
        s[i].pin is None,
    ensures
        pruned(s, max_entries, Some(c)).contains(s[i]) <==> (unpinned_count(s.take(i)) < max_entries
            && s[i].last_used_at >= c),
    decreases s.len(),
{
    let p = s.drop_last();
    let t = pruned(s, max_entries, Some(c));
    let pt = pruned(p, max_entries, Some(c));
    lemma_pruned_indices(s, max_entries, Some(c));
    if i < s.len() - 1 {
        assert(well_formed(p)) by {
            lemma_remove_wf(s, s.len() - 1);
            assert(s.remove(s.len() - 1) =~= p);
        }
        assert(p[i] == s[i]);
        assert(p.take(i) =~= s.take(i));
        pruning_by_age_looks_at_the_last_use(p, max_entries, c, i);
        if pt.contains(s[i]) {
            let k = choose|k: int| 0 <= k < pt.len() && pt[k] == s[i];
            assert(t[k] == pt[k]);
            assert(t.contains(s[i]));
        }
        if t.contains(s[i]) {
            let k = choose|k: int| 0 <= k < t.len() && t[k] == s[i];
            if k < pt.len() {
                assert(t[k] == pt[k]);
                assert(pt.contains(s[i]));
            } else {
                assert(t[k] == s.last());
                assert(s[s.len() - 1].id != s[i].id);
            }
        }
    } else {
        assert(s.take(i) =~= p);
        if survives(s.last(), unpinned_count(p), max_entries, Some(c)) {
            assert(t[t.len() - 1] == s[i]);
            assert(t.contains(s[i]));
        }
        if t.contains(s[i]) {
            let k = choose|k: int| 0 <= k < t.len() && t[k] == s[i];
            if k < pt.len() {
                lemma_pruned_indices(p, max_entries, Some(c));
                let idx = pruned_indices(p, max_entries, Some(c));
                assert(pt[k] == p[idx[k]]);
                assert(p[idx[k]] == s[idx[k]]);
                assert(s[idx[k]].id != s[i].id);
            }
        }
    }
}

/// Clearing without the pins keeps exactly the pinned entries; clearing
/// with them empties the history.
pub proof fn clearing_spares_pins(s: Seq<EntryView>)
    ensures
        forall|e: EntryView| #[trigger] pinned_only(s).contains(e) <==> (s.contains(e) && e.pin is Some),
    decreases s.len(),
{
    if s.len() > 0 {
        let p = s.drop_last();
        clearing_spares_pins(p);
        let t = pinned_only(s);
        let pt = pinned_only(p);
        assert forall|e: EntryView| #[trigger] t.contains(e) <==> (s.contains(e) && e.pin is Some) by {
            if t.contains(e) {
                let k = choose|k: int| 0 <= k < t.len() && t[k] == e;
                if k < pt.len() {
                    assert(t[k] == pt[k]);
                    assert(pt.contains(e));
                    let m = choose|m: int| 0 <= m < p.len() && p[m] == e;
                    assert(s[m] == e);
                } else {
                    assert(s[s.len() - 1] == e);
                }
            }
            if s.contains(e) && e.pin is Some {
                let m = choose|m: int| 0 <= m < s.len() && s[m] == e;
                if m < p.len() {
                    assert(p[m] == e);
                    assert(pt.contains(e));
                    let k = choose|k: int| 0 <= k < pt.len() && pt[k] == e;
                    assert(t[k] == e);
                } else {
                    assert(t[t.len() - 1] == e);
                }
            }
        }
    }
}

/// Once deleted, an entry is gone, with its flavours, thumbnail and pin.
pub proof fn a_deleted_entry_is_gone(s: Seq<EntryView>, id: i64)
    requires
        well_formed(s),
        index_of(s, id) is Some,
    ensures
        index_of(s.remove(index_of(s, id)->0), id) is None,
        s.remove(index_of(s, id)->0).len() == s.len() - 1,
{
    let i = index_of(s, id)->0;
    lemma_index_of(s, id);
    lemma_remove_wf(s, i);
    lemma_index_of(s.remove(i), id);
    if index_of(s.remove(i), id) is Some {
        let k = index_of(s.remove(i), id)->0;
        assert(s.remove(i)[k].id != s[i].id);
    }
}

} // verus!
