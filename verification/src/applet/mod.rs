//! The popup's state and what it does with a key press or a fresh
//! snapshot: which rows are listed, which one has focus, which page is
//! open. The toolkit around it performs the effects it answers with.

pub mod keys;
pub mod message;
pub mod shell;
pub mod thumbs;
pub mod view;

use std::time::{Duration, Instant};

use vstd::prelude::*;

use crate::clip::model::{millis_of, whole_millis, EntryId, EntryKind, EntryMeta};
use crate::clip::search::{filter, matching, needle_of, str_views};
use crate::text::{chars_of, string_of};
use keys::Action;

verus! {

/// How long after the popup was dismissed a click on the panel button is
/// taken as the click that dismissed it, in milliseconds.
pub const REOPEN_GUARD_MS: u128 = 400;

/// The most rows the list shows.
pub const VISIBLE_ROWS: usize = 50;

#[verifier::external_type_specification]
#[verifier::external_body]
pub struct ExInstant(Instant);

/// What `Instant::duration_since` gives: the time from `earlier` to `now`,
/// zero where `earlier` is later.
pub uninterp spec fn since_instant(now: Instant, earlier: Instant) -> Duration;

/// `Instant::duration_since`: the time from `earlier` to `now`, which
/// depends on the two instants alone.
#[verifier::external_body]
fn duration_since(now: Instant, earlier: Instant) -> (r: Duration)
    ensures
        r == since_instant(now, earlier),
{
    now.duration_since(earlier)
}

/// `Instant`'s `==`: whether the two are the same instant.
#[verifier::external_body]
fn same_instant(a: &Instant, b: &Instant) -> (r: bool)
    ensures
        r == (*a == *b),
{
    *a == *b
}

/// The whole milliseconds from `earlier` to `now`, zero where `earlier` is
/// later.
pub open spec fn millis_between(now: Instant, earlier: Instant) -> u128 {
    millis_of(since_instant(now, earlier))
}

/// Whether a press of the panel button at `now` comes just after the popup
/// was dismissed: at that very instant, or less than `REOPEN_GUARD_MS`
/// after it. A popup never dismissed is never guarded.
pub open spec fn guarded_at(dismissed_at: Option<Instant>, now: Instant) -> bool {
    match dismissed_at {
        None => false,
        Some(t) => t == now || millis_between(now, t) < REOPEN_GUARD_MS,
    }
}

/// Whether `elapsed_ms` after a dismissal is still within the guard.
pub fn within_guard(elapsed_ms: u128) -> (r: bool)
    ensures
        r == (elapsed_ms < REOPEN_GUARD_MS),
{
    elapsed_ms < REOPEN_GUARD_MS
}

/// Whether the popup was dismissed a moment before `now` (less than
/// `REOPEN_GUARD_MS` ago), so that the click on the panel button that
/// dismissed it does not open it again; see `guarded_at`.
pub fn just_dismissed(dismissed_at: Option<Instant>, now: Instant) -> (r: bool)
    ensures
        r == guarded_at(dismissed_at, now),
{
    match dismissed_at {
        // no time passes from an instant to itself
        Some(at) => if same_instant(&at, &now) {
            true
        } else {
            within_guard(whole_millis(duration_since(now, at)))
        },
        None => false,
    }
}

/// The labels rows are searched by.
pub open spec fn labels(entries: Seq<EntryMeta>) -> Seq<Seq<char>> {
    entries.map_values(|e: EntryMeta| e.preview@)
}

/// The positions of the rows shown for `query`: those that match it, in
/// history order, at most `VISIBLE_ROWS` of them.
pub open spec fn shown(entries: Seq<EntryMeta>, query: Seq<char>) -> Seq<usize> {
    let found = matching(labels(entries), needle_of(query));
    if found.len() > VISIBLE_ROWS {
        found.take(VISIBLE_ROWS as int)
    } else {
        found
    }
}

/// The ids of the rows shown for `query`, in order.
pub open spec fn listed_ids(entries: Seq<EntryMeta>, query: Seq<char>) -> Seq<EntryId> {
    shown(entries, query).map_values(|i: usize| entries[i as int].id)
}

/// The positions of the rows shown for `query`.
pub fn visible(entries: &[EntryMeta], query: &str) -> (r: Vec<usize>)
    ensures
        r@ == shown(entries@, query@),
{
    let mut rows: Vec<&str> = Vec::new();
    let mut i: usize = 0;
    while i < entries.len()
        invariant
            i <= entries@.len(),
            str_views(rows@) == labels(entries@.take(i as int)),
            rows@.len() == i,
        decreases entries@.len() - i,
    {
        let ghost before = rows@;
        rows.push(entries[i].label());
        proof {
            assert forall|j: int| 0 <= j <= i implies #[trigger] str_views(rows@)[j] == labels(
                entries@.take(i + 1),
            )[j] by {
                if j < i {
                    assert(str_views(before)[j] == labels(entries@.take(i as int))[j]);
                }
            }
        }
        i += 1;
        assert(str_views(rows@) =~= labels(entries@.take(i as int)));
    }
    assert(entries@.take(i as int) =~= entries@);
    let mut found = filter(rows.as_slice(), query);
    if found.len() > VISIBLE_ROWS {
        found.truncate(VISIBLE_ROWS);
    }
    found
}

/// The ids of the rows shown for `query`, in order.
pub fn listed(entries: &[EntryMeta], query: &str) -> (r: Vec<EntryId>)
    ensures
        r@ == listed_ids(entries@, query@),
{
    let rows = visible(entries, query);
    let count = entries.len();
    proof {
        assert(labels(entries@).len() == count);
        crate::clip::search::matches_keep_their_place(labels(entries@), needle_of(query@));
    }
    let mut ids: Vec<EntryId> = Vec::new();
    let mut i: usize = 0;
    while i < rows.len()
        invariant
            i <= rows@.len(),
            rows@ == shown(entries@, query@),
            forall|k: int| 0 <= k < rows@.len() ==> (#[trigger] rows@[k] as int) < entries@.len(),
            ids@ == rows@.take(i as int).map_values(|k: usize| entries@[k as int].id),
        decreases rows@.len() - i,
    {
        ids.push(entries[rows[i]].id);
        i += 1;
        assert(ids@ =~= rows@.take(i as int).map_values(|k: usize| entries@[k as int].id));
    }
    assert(rows@.take(i as int) =~= rows@);
    ids
}

/// The first position of `id` in `ids`, if it is there.
pub open spec fn place_of(ids: Seq<EntryId>, id: EntryId) -> Option<int>
    decreases ids.len(),
{
    if ids.len() == 0 {
        None
    } else if ids[0] == id {
        Some(0)
    } else {
        match place_of(ids.drop_first(), id) {
            Some(k) => Some(k + 1),
            None => None,
        }
    }
}

/// Where `id` is in `ids`.
pub fn position(ids: &[EntryId], id: EntryId) -> (r: Option<usize>)
    ensures
        match place_of(ids@, id) {
            Some(k) => 0 <= k < ids@.len() && r == Some(k as usize),
            None => r is None,
        },
        r matches Some(k) ==> k < ids@.len() && ids@[k as int] == id,
{
    let mut i: usize = 0;
    assert(ids@.skip(0) =~= ids@);
    proof {
        if place_of(ids@, id) is Some {
            lemma_place_of_found(ids@, id);
        }
    }
    while i < ids.len()
        invariant
            i <= ids@.len(),
            forall|j: int| 0 <= j < i ==> ids@[j] != id,
            place_of(ids@.skip(i as int), id) matches Some(k) ==> place_of(ids@, id) == Some(k + i),
            place_of(ids@.skip(i as int), id) is None ==> place_of(ids@, id) is None,
        decreases ids@.len() - i,
    {
        proof {
            assert(ids@.skip(i as int).drop_first() =~= ids@.skip(i + 1));
            assert(ids@.skip(i as int)[0] == ids@[i as int]);
        }
        if ids[i].0 == id.0 {
            return Some(i);
        }
        i += 1;
    }
    assert(ids@.skip(i as int) =~= Seq::<EntryId>::empty());
    None
}

/// The first entry not pinned, if any.
pub open spec fn first_unpinned(entries: Seq<EntryMeta>) -> Option<int>
    decreases entries.len(),
{
    if entries.len() == 0 {
        None
    } else if entries[0].pinned is None {
        Some(0)
    } else {
        match first_unpinned(entries.drop_first()) {
            Some(k) => Some(k + 1),
            None => None,
        }
    }
}

/// The entry the popup opens on: the newest copy, that is the first entry
/// not pinned, else the first entry there is.
pub open spec fn newest_of(entries: Seq<EntryMeta>) -> Option<EntryId> {
    match first_unpinned(entries) {
        Some(k) => Some(entries[k].id),
        None => if entries.len() > 0 {
            Some(entries[0].id)
        } else {
            None
        },
    }
}

/// The entry the popup opens on.
pub fn newest(entries: &[EntryMeta]) -> (r: Option<EntryId>)
    ensures
        r == newest_of(entries@),
{
    let mut i: usize = 0;
    assert(entries@.skip(0) =~= entries@);
    while i < entries.len()
        invariant
            i <= entries@.len(),
            forall|j: int| 0 <= j < i ==> entries@[j].pinned is Some,
            first_unpinned(entries@.skip(i as int)) matches Some(k) ==> first_unpinned(entries@)
                == Some(k + i),
            first_unpinned(entries@.skip(i as int)) is None ==> first_unpinned(entries@) is None,
        decreases entries@.len() - i,
    {
        proof {
            assert(entries@.skip(i as int).drop_first() =~= entries@.skip(i + 1));
            assert(entries@.skip(i as int)[0] == entries@[i as int]);
        }
        if entries[i].pinned.is_none() {
            return Some(entries[i].id);
        }
        i += 1;
    }
    assert(entries@.skip(i as int) =~= Seq::<EntryMeta>::empty());
    if entries.len() > 0 {
        Some(entries[0].id)
    } else {
        None
    }
}

/// The row focus moves to from `focused` when stepping down or up through
/// `ids`, wrapping at either end; from no row (or one not listed) a step
/// down starts at the top and a step up at the bottom.
pub open spec fn stepped(ids: Seq<EntryId>, focused: Option<EntryId>, down: bool) -> EntryId {
    let n = ids.len();
    let at = match focused {
        Some(id) => place_of(ids, id),
        None => None,
    };
    let next = match at {
        Some(k) => if down {
            (k + 1) % (n as int)
        } else {
            (k + n - 1) % (n as int)
        },
        None => if down {
            0
        } else {
            n - 1
        },
    };
    ids[next]
}

/// What the popup does next, for the toolkit to carry out.
#[derive(Clone, Copy, Debug, PartialEq, Eq, Structural)]
pub enum Effect {
    /// Nothing beyond the change of state.
    Nothing,
    /// Scroll the focused row into view.
    Reveal,
    /// Put the keyboard focus in the search field.
    FocusSearch,
    /// Close the popup.
    Close,
    /// Put the entry on the clipboard and close the popup.
    Use(EntryId),
    /// Delete the entry.
    Delete(EntryId),
    /// Pin the entry, or unpin it.
    Pin(EntryId, bool),
    /// Load what the details page shows of the entry.
    Details(EntryId, EntryKind),
    /// Clear the history but for its pins.
    Clear,
}

/// Which page and row the popup shows.
#[derive(Clone, Debug, Default, PartialEq, Eq)]
pub struct Browse {
    pub query: String,
    pub focused: Option<EntryId>,
    pub restore: Option<usize>,
    pub showing_settings: bool,
    pub details: Option<EntryId>,
    pub clearing: bool,
}

/// What a `Browse` holds.
pub struct BrowseView {
    pub query: Seq<char>,
    pub focused: Option<EntryId>,
    pub restore: Option<usize>,
    pub showing_settings: bool,
    pub details: Option<EntryId>,
    pub clearing: bool,
}

impl View for Browse {
    type V = BrowseView;

    open spec fn view(&self) -> BrowseView {
        BrowseView {
            query: self.query@,
            focused: self.focused,
            restore: self.restore,
            showing_settings: self.showing_settings,
            details: self.details,
            clearing: self.clearing,
        }
    }
}

/// The state of a popup just opened, or closed: the list, unfiltered.
pub open spec fn fresh() -> BrowseView {
    BrowseView {
        query: seq![],
        focused: None,
        restore: None,
        showing_settings: false,
        details: None,
        clearing: false,
    }
}

/// The list searched for `query`, focus on its first row.
pub open spec fn searched(s: BrowseView, query: Seq<char>, entries: Seq<EntryMeta>) -> BrowseView {
    let ids = listed_ids(entries, query);
    BrowseView {
        query: query,
        showing_settings: false,
        details: None,
        clearing: false,
        focused: if ids.len() > 0 {
            Some(ids[0])
        } else {
            None
        },
        ..s
    }
}

/// The entry with `id`, if the snapshot holds it.
pub open spec fn find_entry(entries: Seq<EntryMeta>, id: EntryId) -> Option<int>
    decreases entries.len(),
{
    if entries.len() == 0 {
        None
    } else if entries[0].id == id {
        Some(0)
    } else {
        match find_entry(entries.drop_first(), id) {
            Some(k) => Some(k + 1),
            None => None,
        }
    }
}

/// The details page opened on `id`, where the snapshot holds it.
pub open spec fn detailed(s: BrowseView, id: Option<EntryId>, entries: Seq<EntryMeta>) -> (
    BrowseView,
    Effect,
) {
    let found = match id {
        Some(wanted) => find_entry(entries, wanted),
        None => None,
    };
    let page = BrowseView {
        showing_settings: false,
        clearing: false,
        details: match found {
            Some(k) => Some(entries[k].id),
            None => None,
        },
        ..s
    };
    match found {
        Some(k) => (page, Effect::Details(entries[k].id, entries[k].kind)),
        None => (page, Effect::Nothing),
    }
}

/// What acting on the focused row of the list does.
pub open spec fn on_focused(s: BrowseView, action: Action, entries: Seq<EntryMeta>) -> (
    BrowseView,
    Effect,
) {
    match s.focused {
        None => (s, Effect::Nothing),
        Some(id) => match action {
            Action::Confirm => (s, Effect::Use(id)),
            Action::Delete => (
                BrowseView {
                    restore: match place_of(listed_ids(entries, s.query), id) {
                        Some(k) => Some(k as usize),
                        None => None,
                    },
                    ..s
                },
                Effect::Delete(id),
            ),
            Action::TogglePin => (
                s,
                Effect::Pin(
                    id,
                    !(find_entry(entries, id) matches Some(k) && entries[k].pinned is Some),
                ),
            ),
            _ => detailed(s, Some(id), entries),
        },
    }
}

/// What a key action does on the list page.
pub open spec fn on_list(s: BrowseView, action: Action, entries: Seq<EntryMeta>) -> (
    BrowseView,
    Effect,
) {
    let ids = listed_ids(entries, s.query);
    match action {
        Action::Down | Action::Up => if ids.len() == 0 {
            (s, Effect::Nothing)
        } else {
            (
                BrowseView { focused: Some(stepped(ids, s.focused, action == Action::Down)), ..s },
                Effect::Reveal,
            )
        },
        Action::Dismiss => (s, Effect::Close),
        Action::FocusSearch => (
            BrowseView { showing_settings: false, details: None, ..s },
            Effect::FocusSearch,
        ),
        Action::Append(text) => (searched(s, s.query + text@, entries), Effect::Reveal),
        Action::Backspace => (
            searched(
                s,
                if s.query.len() > 0 {
                    s.query.drop_last()
                } else {
                    s.query
                },
                entries,
            ),
            Effect::Reveal,
        ),
        _ => on_focused(s, action, entries),
    }
}

/// What a key action does, page by page: on the details page Escape goes
/// back to the list, Enter uses the entry shown and Ctrl+F goes to the
/// search; on the settings page Escape goes back and Ctrl+F goes to the
/// search; while a clear awaits confirmation Escape cancels it, Enter
/// confirms it and anything else cancels it and goes on as on the list.
pub open spec fn acted(s: BrowseView, action: Action, entries: Seq<EntryMeta>) -> (
    BrowseView,
    Effect,
) {
    match s.details {
        Some(id) => match action {
            Action::Dismiss => (BrowseView { details: None, ..s }, Effect::Nothing),
            Action::Confirm => (s, Effect::Use(id)),
            Action::FocusSearch => (
                BrowseView { showing_settings: false, details: None, ..s },
                Effect::FocusSearch,
            ),
            _ => (s, Effect::Nothing),
        },
        None => if s.showing_settings {
            match action {
                Action::Dismiss => (BrowseView { showing_settings: false, ..s }, Effect::Nothing),
                Action::FocusSearch => (
                    BrowseView { showing_settings: false, details: None, ..s },
                    Effect::FocusSearch,
                ),
                _ => (s, Effect::Nothing),
            }
        } else if s.clearing {
            match action {
                Action::Dismiss => (BrowseView { clearing: false, ..s }, Effect::Nothing),
                Action::Confirm => (BrowseView { clearing: false, ..s }, Effect::Clear),
                _ => on_list(BrowseView { clearing: false, ..s }, action, entries),
            }
        } else {
            on_list(s, action, entries)
        },
    }
}

/// Where focus settles once the snapshot changed: it stays on a row still
/// listed; otherwise it goes to the row at the remembered place (the last
/// one where the list got shorter), else to the first row.
pub open spec fn settled(s: BrowseView, entries: Seq<EntryMeta>) -> BrowseView {
    let ids = listed_ids(entries, s.query);
    let details = match s.details {
        Some(id) => if find_entry(entries, id) is Some {
            Some(id)
        } else {
            None
        },
        None => None,
    };
    if s.focused matches Some(id) && place_of(ids, id) is Some {
        BrowseView { details: details, restore: None, ..s }
    } else {
        let focused = match s.restore {
            Some(at) => if ids.len() > 0 {
                Some(
                    ids[if at < ids.len() {
                        at as int
                    } else {
                        ids.len() - 1
                    }],
                )
            } else {
                None
            },
            None => if ids.len() > 0 {
                Some(ids[0])
            } else {
                None
            },
        };
        BrowseView { details: details, restore: None, focused: focused, ..s }
    }
}

/// The characters of `a` followed by those of `b`.
fn joined(a: &str, b: &str) -> (r: String)
    ensures
        r@ == a@ + b@,
{
    let mut chars = chars_of(a);
    let mut more = chars_of(b);
    chars.append(&mut more);
    string_of(chars.as_slice())
}

/// `s` without its last character, if it has one.
fn shortened(s: &str) -> (r: String)
    ensures
        r@ == if s@.len() > 0 {
            s@.drop_last()
        } else {
            s@
        },
{
    let mut chars = chars_of(s);
    if chars.len() > 0 {
        chars.pop();
    }
    string_of(chars.as_slice())
}

/// Whether the entry with `id` is pinned.
pub(crate) fn is_pinned(entries: &[EntryMeta], id: EntryId) -> (r: bool)
    ensures
        r == (find_entry(entries@, id) matches Some(k) && entries@[k].pinned is Some),
{
    match find(entries, id) {
        Some(k) => entries[k].pinned.is_some(),
        None => false,
    }
}

/// Where the entry with `id` is in the snapshot.
pub(crate) fn find(entries: &[EntryMeta], id: EntryId) -> (r: Option<usize>)
    ensures
        match find_entry(entries@, id) {
            Some(k) => 0 <= k < entries@.len() && r == Some(k as usize),
            None => r is None,
        },
        r matches Some(k) ==> k < entries@.len(),
{
    let mut i: usize = 0;
    assert(entries@.skip(0) =~= entries@);
    proof {
        lemma_find_entry_bound(entries@, id);
    }
    while i < entries.len()
        invariant
            i <= entries@.len(),
            find_entry(entries@.skip(i as int), id) matches Some(k) ==> find_entry(entries@, id)
                == Some(k + i) && k + i < entries@.len(),
            find_entry(entries@.skip(i as int), id) is None ==> find_entry(entries@, id) is None,
        decreases entries@.len() - i,
    {
        proof {
            assert(entries@.skip(i as int).drop_first() =~= entries@.skip(i + 1));
            assert(entries@.skip(i as int)[0] == entries@[i as int]);
        }
        proof {
            lemma_find_entry_bound(entries@.skip(i + 1), id);
        }
        if entries[i].id.0 == id.0 {
            return Some(i);
        }
        i += 1;
    }
    assert(entries@.skip(i as int) =~= Seq::<EntryMeta>::empty());
    None
}

/// Where `find_entry` finds an entry, it is within the snapshot.
proof fn lemma_find_entry_bound(entries: Seq<EntryMeta>, id: EntryId)
    ensures
        find_entry(entries, id) matches Some(k) ==> 0 <= k < entries.len(),
    decreases entries.len(),
{
    if entries.len() > 0 && entries[0].id != id {
        lemma_find_entry_bound(entries.drop_first(), id);
    }
}

impl Browse {
    /// Back to the list, unfiltered and with no row focused, as when the
    /// popup closes.
    pub fn reset(&mut self)
        ensures
            final(self)@ == fresh(),
    {
        self.query = string_of(Vec::<char>::new().as_slice());
        self.focused = None;
        self.restore = None;
        self.showing_settings = false;
        self.details = None;
        self.clearing = false;
    }

    /// The popup opens: the list, unfiltered, focused on the newest copy.
    pub fn open(&mut self, entries: &[EntryMeta])
        ensures
            final(self)@ == (BrowseView { focused: newest_of(entries@), ..fresh() }),
    {
        self.reset();
        self.focused = newest(entries);
    }

    /// The search field now reads `query`.
    pub fn search(&mut self, query: String, entries: &[EntryMeta]) -> (r: Effect)
        ensures
            final(self)@ == searched(old(self)@, query@, entries@),
            r == Effect::Reveal,
    {
        let ids = listed(entries, query.as_str());
        self.query = query;
        self.showing_settings = false;
        self.details = None;
        self.clearing = false;
        self.focused = if ids.len() > 0 {
            Some(ids[0])
        } else {
            None
        };
        Effect::Reveal
    }

    /// The settings page opens or closes.
    pub fn show_settings(&mut self, showing: bool)
        ensures
            final(self)@ == (BrowseView {
                showing_settings: showing,
                details: None,
                clearing: false,
                ..old(self)@
            }),
    {
        self.showing_settings = showing;
        self.details = None;
        self.clearing = false;
    }

    /// The details page opens on `id`, or closes where the snapshot does
    /// not hold it; answers what the page has to load.
    pub fn show_details(&mut self, id: Option<EntryId>, entries: &[EntryMeta]) -> (r: Effect)
        ensures
            (final(self)@, r) == detailed(old(self)@, id, entries@),
    {
        self.showing_settings = false;
        self.clearing = false;
        let found = match id {
            Some(wanted) => find(entries, wanted),
            None => None,
        };
        match found {
            Some(k) => {
                self.details = Some(entries[k].id);
                Effect::Details(entries[k].id, entries[k].kind)
            },
            None => {
                self.details = None;
                Effect::Nothing
            },
        }
    }

    /// A clear is asked to be confirmed, or no longer.
    pub fn ask_clear(&mut self, asking: bool)
        ensures
            final(self)@ == (BrowseView { clearing: asking, ..old(self)@ }),
    {
        self.clearing = asking;
    }

    /// Focus after a new snapshot; see `settled`.
    pub fn settle_focus(&mut self, entries: &[EntryMeta])
        ensures
            final(self)@ == settled(old(self)@, entries@),
    {
        let ids = listed(entries, self.query.as_str());
        if let Some(id) = self.details {
            if find(entries, id).is_none() {
                self.details = None;
            }
        }
        if let Some(id) = self.focused {
            if position(ids.as_slice(), id).is_some() {
                self.restore = None;
                return;
            }
        }
        self.focused = match self.restore {
            Some(at) => if ids.len() > 0 {
                Some(
                    ids[if at < ids.len() {
                        at
                    } else {
                        ids.len() - 1
                    }],
                )
            } else {
                None
            },
            None => if ids.len() > 0 {
                Some(ids[0])
            } else {
                None
            },
        };
        self.restore = None;
    }

    /// What a key action does; see `acted`.
    pub fn act(&mut self, action: Action, entries: &[EntryMeta]) -> (r: Effect)
        ensures
            (final(self)@, r) == acted(old(self)@, action, entries@),
    {
        if let Some(id) = self.details {
            return match action {
                Action::Dismiss => {
                    self.details = None;
                    Effect::Nothing
                },
                Action::Confirm => Effect::Use(id),
                Action::FocusSearch => {
                    self.showing_settings = false;
                    self.details = None;
                    Effect::FocusSearch
                },
                _ => Effect::Nothing,
            };
        }
        if self.showing_settings {
            return match action {
                Action::Dismiss => {
                    self.showing_settings = false;
                    Effect::Nothing
                },
                Action::FocusSearch => {
                    self.showing_settings = false;
                    self.details = None;
                    Effect::FocusSearch
                },
                _ => Effect::Nothing,
            };
        }
        if self.clearing {
            match action {
                Action::Dismiss => {
                    self.clearing = false;
                    return Effect::Nothing;
                },
                Action::Confirm => {
                    self.clearing = false;
                    return Effect::Clear;
                },
                _ => {
                    self.clearing = false;
                },
            }
        }
        self.on_list(action, entries)
    }

    /// What a key action does on the list page; see `on_list`.
    fn on_list(&mut self, action: Action, entries: &[EntryMeta]) -> (r: Effect)
        requires
            old(self).details is None,
        ensures
            (final(self)@, r) == on_list(old(self)@, action, entries@),
    {
        match action {
            Action::Down => self.step(true, entries),
            Action::Up => self.step(false, entries),
            Action::Dismiss => Effect::Close,
            Action::FocusSearch => {
                self.showing_settings = false;
                self.details = None;
                Effect::FocusSearch
            },
            Action::Append(text) => {
                let query = joined(self.query.as_str(), text.as_str());
                self.search(query, entries)
            },
            Action::Backspace => {
                let query = shortened(self.query.as_str());
                self.search(query, entries)
            },
            Action::Confirm => match self.focused {
                Some(id) => Effect::Use(id),
                None => Effect::Nothing,
            },
            Action::Delete => match self.focused {
                Some(id) => {
                    let ids = listed(entries, self.query.as_str());
                    self.restore = position(ids.as_slice(), id);
                    Effect::Delete(id)
                },
                None => Effect::Nothing,
            },
            Action::TogglePin => match self.focused {
                Some(id) => Effect::Pin(id, !is_pinned(entries, id)),
                None => Effect::Nothing,
            },
            Action::ShowDetails => match self.focused {
                Some(id) => self.show_details(Some(id), entries),
                None => Effect::Nothing,
            },
        }
    }

    /// Moves focus one row down or up through the listed rows, wrapping.
    fn step(&mut self, down: bool, entries: &[EntryMeta]) -> (r: Effect)
        ensures
            ({
                let ids = listed_ids(entries@, old(self)@.query);
                if ids.len() == 0 {
                    final(self)@ == old(self)@ && r == Effect::Nothing
                } else {
                    final(self)@ == (BrowseView {
                        focused: Some(stepped(ids, old(self)@.focused, down)),
                        ..old(self)@
                    }) && r == Effect::Reveal
                }
            }),
    {
        let ids = listed(entries, self.query.as_str());
        if ids.len() == 0 {
            return Effect::Nothing;
        }
        let at = match self.focused {
            Some(id) => position(ids.as_slice(), id),
            None => None,
        };
        let n = ids.len();
        let next = match at {
            Some(k) => if down {
                (k + 1) % n
            } else {
                (k + n - 1) % n
            },
            None => if down {
                0
            } else {
                n - 1
            },
        };
        self.focused = Some(ids[next]);
        Effect::Reveal
    }
}

/// Stepping wraps around: down from the last row is the first, up from the
/// first row is the last.
pub proof fn stepping_wraps_around(ids: Seq<EntryId>)
    requires
        ids.len() > 0,
        forall|a: int, b: int| 0 <= a < b < ids.len() ==> ids[a] != ids[b],
    ensures
        stepped(ids, Some(ids.last()), true) == ids[0],
        stepped(ids, Some(ids[0]), false) == ids.last(),
{
    let n = ids.len() as int;
    lemma_place_of_distinct(ids, n - 1);
    lemma_place_of_distinct(ids, 0);
    assert((n - 1 + 1) % n == 0) by (nonlinear_arith)
        requires
            n > 0,
    ;
    assert((0 + n - 1) % n == n - 1) by (nonlinear_arith)
        requires
            n > 0,
    ;
}

/// A step down undone by a step up comes back to the same row.
pub proof fn a_step_is_undone_by_the_other(ids: Seq<EntryId>, i: int)
    requires
        0 <= i < ids.len(),
        forall|a: int, b: int| 0 <= a < b < ids.len() ==> ids[a] != ids[b],
    ensures
        stepped(ids, Some(stepped(ids, Some(ids[i]), true)), false) == ids[i],
        stepped(ids, Some(stepped(ids, Some(ids[i]), false)), true) == ids[i],
{
    let n = ids.len() as int;
    lemma_place_of_distinct(ids, i);
    let up = (i + 1) % n;
    let back = (i + n - 1) % n;
    lemma_place_of_distinct(ids, up);
    lemma_place_of_distinct(ids, back);
    assert((up + n - 1) % n == i) by (nonlinear_arith)
        requires
            0 <= i < n,
            up == (i + 1) % n,
    ;
    assert((back + 1) % n == i) by (nonlinear_arith)
        requires
            0 <= i < n,
            back == (i + n - 1) % n,
    ;
}

/// In a list without repeats, a row is found where it stands.
pub proof fn lemma_place_of_distinct(ids: Seq<EntryId>, i: int)
    requires
        0 <= i < ids.len(),
        forall|a: int, b: int| 0 <= a < b < ids.len() ==> ids[a] != ids[b],
    ensures
        place_of(ids, ids[i]) == Some(i),
    decreases i,
{
    if i > 0 {
        let rest = ids.drop_first();
        assert forall|a: int, b: int| 0 <= a < b < rest.len() implies rest[a] != rest[b] by {
            assert(rest[a] == ids[a + 1] && rest[b] == ids[b + 1]);
        }
        lemma_place_of_distinct(rest, i - 1);
        assert(rest[i - 1] == ids[i]);
        assert(ids[0] != ids[i]);
    }
}

/// Escape on the details page or the settings page goes back to the list
/// and never closes the popup; on the list it closes the popup.
pub proof fn escape_goes_back_before_it_closes(s: BrowseView, entries: Seq<EntryMeta>)
    ensures
        s.details is Some ==> acted(s, Action::Dismiss, entries).0.details is None && acted(
            s,
            Action::Dismiss,
            entries,
        ).1 != Effect::Close,
        s.details is None && s.showing_settings ==> !acted(s, Action::Dismiss, entries).0.showing_settings
            && acted(s, Action::Dismiss, entries).1 != Effect::Close,
        s.details is None && !s.showing_settings && !s.clearing ==> acted(
            s,
            Action::Dismiss,
            entries,
        ).1 == Effect::Close,
{
}

/// After a new snapshot focus is on a listed row, or on none where nothing
/// is listed.
pub proof fn focus_settles_on_a_listed_row(s: BrowseView, entries: Seq<EntryMeta>)
    ensures
        ({
            let ids = listed_ids(entries, s.query);
            let after = settled(s, entries);
            &&& ids.len() == 0 ==> after.focused is None || after.focused == s.focused
            &&& ids.len() > 0 ==> (after.focused matches Some(id) && ids.contains(id))
        }),
{
    let ids = listed_ids(entries, s.query);
    let after = settled(s, entries);
    if ids.len() > 0 {
        if s.focused matches Some(id) && place_of(ids, id) is Some {
            lemma_place_of_found(ids, s.focused.unwrap());
        } else {
            match s.restore {
                Some(at) => {
                    let k = if at < ids.len() {
                        at as int
                    } else {
                        ids.len() - 1
                    };
                    assert(ids[k] == ids[k]);
                },
                None => {
                    assert(ids[0] == ids[0]);
                },
            }
        }
    }
}

/// Where `place_of` finds a row, the row is there.
pub proof fn lemma_place_of_found(ids: Seq<EntryId>, id: EntryId)
    requires
        place_of(ids, id) is Some,
    ensures
        0 <= place_of(ids, id).unwrap() < ids.len(),
        ids[place_of(ids, id).unwrap()] == id,
        ids.contains(id),
    decreases ids.len(),
{
    if ids[0] != id {
        lemma_place_of_found(ids.drop_first(), id);
        assert(ids[place_of(ids, id).unwrap()] == ids.drop_first()[place_of(ids.drop_first(), id).unwrap()]);
    }
}

} // verus!
