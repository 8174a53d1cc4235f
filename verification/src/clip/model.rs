//! The values that travel between the capture backend and the interface:
//! entries, their flavours, thumbnails and the published snapshot.

use std::sync::Arc;
use std::time::{Duration, SystemTime, UNIX_EPOCH};

use vstd::prelude::*;

use crate::text::{chars_of, string_of};

verus! {

/// Milliseconds since the Unix epoch.
pub type Timestamp = i64;

/// The whole milliseconds of a clock reading, or 0 where the clock stands
/// before the epoch, saturated to what a timestamp holds.
pub open spec fn timestamp_of(elapsed: Option<u128>) -> Timestamp {
    match elapsed {
        None => 0,
        Some(ms) => if ms > i64::MAX as u128 {
            i64::MAX
        } else {
            ms as i64
        },
    }
}

/// A clock reading turned into a timestamp, as `now` does with the clock.
pub fn timestamp_from_millis(elapsed: Option<u128>) -> (t: Timestamp)
    ensures
        t == timestamp_of(elapsed),
{
    match elapsed {
        None => 0,
        Some(ms) => if ms > i64::MAX as u128 {
            i64::MAX
        } else {
            ms as i64
        },
    }
}

#[verifier::external_type_specification]
#[verifier::external_body]
pub struct ExSystemTime(SystemTime);

/// `SystemTime::now`: a reading of the system clock, of which nothing is
/// promised.
#[verifier::external_body]
fn system_now() -> SystemTime {
    SystemTime::now()
}

/// `SystemTime::duration_since` from `UNIX_EPOCH`: the time from the epoch
/// to `t`, or `None` where `t` stands before the epoch. `t` is a reading of
/// the clock, so nothing is promised of the result.
#[verifier::external_body]
fn since_epoch(t: SystemTime) -> Option<Duration> {
    t.duration_since(UNIX_EPOCH).ok()
}

/// What `Duration::as_millis` gives of `d`: its whole milliseconds.
pub uninterp spec fn millis_of(d: Duration) -> u128;

/// `Duration::as_millis`: the whole milliseconds of `d`, which depend on
/// `d` alone.
#[verifier::external_body]
pub(crate) fn whole_millis(d: Duration) -> (r: u128)
    ensures
        r == millis_of(d),
{
    d.as_millis()
}

/// The current time in milliseconds since the epoch: never negative.
pub fn now() -> (t: Timestamp)
    ensures
        t >= 0,
{
    let elapsed = match since_epoch(system_now()) {
        Some(d) => Some(whole_millis(d)),
        None => None,
    };
    timestamp_from_millis(elapsed)
}

/// The row id of a history entry.
#[derive(Clone, Copy, Debug, PartialEq, Eq, Structural, PartialOrd, Ord, Hash)]
pub struct EntryId(pub i64);

/// What a history entry holds.
#[derive(Clone, Copy, Debug, PartialEq, Eq, Structural, PartialOrd, Ord, Hash)]
pub enum EntryKind {
    Text,
    Image,
    Files,
}

/// The number each kind is stored under.
pub open spec fn kind_code(kind: EntryKind) -> i64 {
    match kind {
        EntryKind::Text => 0,
        EntryKind::Image => 1,
        EntryKind::Files => 2,
    }
}

impl EntryKind {
    /// The kind stored under `value`, if any.
    pub fn from_i64(value: i64) -> (r: Option<Self>)
        ensures
            match r {
                Some(kind) => kind_code(kind) == value,
                None => !(0 <= value <= 2),
            },
    {
        match value {
            0 => Some(Self::Text),
            1 => Some(Self::Image),
            2 => Some(Self::Files),
            _ => None,
        }
    }

    /// The kind stored under `value`, and text for a number no kind is
    /// stored under.
    pub fn read(value: i64) -> (r: Self)
        ensures
            0 <= value <= 2 ==> kind_code(r) == value,
            !(0 <= value <= 2) ==> r == EntryKind::Text,
    {
        match Self::from_i64(value) {
            Some(kind) => kind,
            None => Self::Text,
        }
    }

    /// The number this kind is stored under.
    pub fn code(self) -> (r: i64)
        ensures
            r == kind_code(self),
    {
        match self {
            Self::Text => 0,
            Self::Image => 1,
            Self::Files => 2,
        }
    }
}

/// One representation of a copied item: a MIME type and its bytes.
#[derive(Clone, Debug, PartialEq, Eq)]
pub struct Flavor {
    pub mime: String,
    pub body: Vec<u8>,
}

impl Flavor {
    pub fn new(mime: &str, body: Vec<u8>) -> (r: Self)
        ensures
            r.mime@ == mime@,
            r.body@ == body@,
    {
        Self { mime: string_of(chars_of(mime).as_slice()), body }
    }
}

/// What a selection delivered: its kind, its flavours in order of
/// preference, and the application it came from.
#[derive(Clone, Debug)]
pub struct Capture {
    pub kind: EntryKind,
    pub flavors: Vec<Flavor>,
    pub source_app: Option<String>,
}

/// The number of bytes in all of `flavors`.
pub open spec fn total_bytes(flavors: Seq<Flavor>) -> nat
    decreases flavors.len(),
{
    if flavors.len() == 0 {
        0
    } else {
        total_bytes(flavors.drop_last()) + flavors.last().body@.len()
    }
}

impl Capture {
    /// The flavour the capture is known by: the first.
    pub fn primary(&self) -> (r: Option<&Flavor>)
        ensures
            match r {
                Some(flavor) => self.flavors@.len() > 0 && *flavor == self.flavors@[0],
                None => self.flavors@.len() == 0,
            },
    {
        if self.flavors.len() > 0 {
            Some(&self.flavors[0])
        } else {
            None
        }
    }

    /// The size of every flavour together.
    pub fn byte_size(&self) -> (r: u64)
        requires
            total_bytes(self.flavors@) <= u64::MAX,
        ensures
            r == total_bytes(self.flavors@),
    {
        let mut sum: u64 = 0;
        let mut i: usize = 0;
        while i < self.flavors.len()
            invariant
                i <= self.flavors@.len(),
                total_bytes(self.flavors@) <= u64::MAX,
                sum == total_bytes(self.flavors@.take(i as int)),
            decreases self.flavors@.len() - i,
        {
            proof {
                assert(self.flavors@.take(i + 1 as int).drop_last() =~= self.flavors@.take(i as int));
                lemma_total_bytes_prefix(self.flavors@, i + 1 as int);
            }
            sum = sum + self.flavors[i].body.len() as u64;
            i += 1;
        }
        assert(self.flavors@.take(i as int) =~= self.flavors@);
        sum
    }
}

/// A prefix never holds more bytes than the whole.
pub proof fn lemma_total_bytes_prefix(flavors: Seq<Flavor>, n: int)
    requires
        0 <= n <= flavors.len(),
    ensures
        total_bytes(flavors.take(n)) <= total_bytes(flavors),
    decreases flavors.len() - n,
{
    if n < flavors.len() {
        lemma_total_bytes_prefix(flavors, n + 1);
        assert(flavors.take(n + 1).drop_last() =~= flavors.take(n));
    } else {
        assert(flavors.take(n) =~= flavors);
    }
}

/// A small PNG standing for an image entry, with the size of the original.
#[derive(Clone, Debug, PartialEq, Eq)]
pub struct Thumbnail {
    pub width: u32,
    pub height: u32,
    pub png: Vec<u8>,
}

/// What the list shows of a history entry.
#[derive(Clone, Debug, PartialEq, Eq)]
pub struct EntryMeta {
    pub id: EntryId,
    pub kind: EntryKind,
    pub preview: String,
    pub byte_size: u64,
    pub source_app: Option<String>,
    pub created_at: Timestamp,
    pub last_used_at: Timestamp,
    pub use_count: u32,
    pub pinned: Option<u32>,
    pub image_size: Option<(u32, u32)>,
}

impl EntryMeta {
    /// The text a row is labelled with: the preview.
    pub fn label(&self) -> (r: &str)
        ensures
            r@ == self.preview@,
    {
        self.preview.as_str()
    }
}

/// The most characters a preview keeps.
pub const PREVIEW_CHARS: usize = 200;

/// At most the first `max` characters of `text`.
pub fn truncate_chars(text: &str, max: usize) -> (r: String)
    ensures
        r@ == if text@.len() <= max { text@ } else { text@.take(max as int) },
{
    let chars = chars_of(text);
    if chars.len() <= max {
        string_of(chars.as_slice())
    } else {
        let kept = crate::text::slice_range(chars.as_slice(), 0, max);
        assert(kept@ =~= text@.take(max as int));
        string_of(kept.as_slice())
    }
}

/// The data-control protocol the capture runs on.
#[derive(Clone, Copy, Debug, PartialEq, Eq, Structural)]
pub enum Backend {
    Ext,
    Wlr,
}

impl Backend {
    /// The Wayland interface name of the protocol.
    pub fn protocol(self) -> (r: &'static str)
        ensures
            r@ == match self {
                Backend::Ext => "ext_data_control_manager_v1"@,
                Backend::Wlr => "zwlr_data_control_manager_v1"@,
            },
    {
        match self {
            Self::Ext => "ext_data_control_manager_v1",
            Self::Wlr => "zwlr_data_control_manager_v1",
        }
    }
}

/// Whether clipboard capture is running, and why not where it is not.
#[derive(Clone, Debug, PartialEq, Eq)]
pub enum CaptureState {
    Starting,
    Active(Backend),
    Paused,
    Unavailable { reason: String },
}

impl Default for CaptureState {
    fn default() -> (r: Self)
        ensures
            r == CaptureState::Starting,
    {
        CaptureState::Starting
    }
}

/// What the interface is shown: the capture state, the listed entries and a
/// revision that changes with every publication.
#[derive(Clone, Debug, PartialEq, Eq)]
pub struct Snapshot {
    pub capture: CaptureState,
    pub entries: Arc<[EntryMeta]>,
    pub revision: u64,
}

impl Default for Snapshot {
    fn default() -> (r: Self)
        ensures
            r.capture == CaptureState::Starting,
            r.entries@.len() == 0,
            r.revision == 0,
    {
        let entries: Vec<EntryMeta> = Vec::new();
        Snapshot { capture: CaptureState::Starting, entries: arc_of(entries), revision: 0 }
    }
}

/// `Arc<[T]>::from(Vec<T>)`, which the contract takes to keep the items.
#[verifier::external_body]
pub(crate) fn arc_of<T>(items: Vec<T>) -> (r: Arc<[T]>)
    ensures
        r@ == items@,
{
    Arc::from(items)
}

} // verus!
