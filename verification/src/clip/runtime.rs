//! The decisions of the capture backend: what to read of a selection, how
//! the flavours of a transfer arrive, and what becomes of a finished one.
//! The event loop that opens the pipes and runs the timers performs them.

use vstd::prelude::*;

use super::db::{
    contents_view, cutoff_of, flavor_bytes, index_of, index_of_hash, opt_string_view, pinned_only,
    pinning, pruned, replaced, same_bytes, stored_as, thumb_view, used, Db, DbError, EntryView, NewEntry,
    Stored, DAY_MS,
};
use super::ClipCommand;
use super::dedup::{hash, hashed_bytes, preview, preview_spec, sha256_of};
use super::mime::{aliases, choice, choose_mimes, limit_of, size_limit, text_aliases, PASSWORD_HINT};
use super::model::{Backend, Capture, CaptureState, EntryId, EntryKind, Flavor, Thumbnail, Timestamp};
use super::privacy::{hint_is_secret, is_secret_hint, refusal, Filter, Refusal};
use super::settings::{sanitised_spec, Settings};
use crate::text::{chars_of, string_of, views};
use super::thumbnail::{generate, thumbnail_of};

verus! {

/// Whether a selection is the one this process put on the clipboard and is
/// serving: its source is still active and it hashes as what was offered.
pub open spec fn reflected(source_active: bool, owned_hash: Option<Seq<u8>>, incoming: Seq<u8>) -> bool {
    source_active && owned_hash == Some(incoming)
}

/// Whether the selection that arrived is the one this process is serving,
/// come back to it.
pub fn is_reflected_selection(
    source_active: bool,
    owned_hash: Option<[u8; 32]>,
    incoming_hash: [u8; 32],
) -> (r: bool)
    ensures
        r == reflected(
            source_active,
            match owned_hash {
                Some(h) => Some(h@),
                None => None,
            },
            incoming_hash@,
        ),
{
    if !source_active {
        return false;
    }
    match owned_hash {
        Some(owned) => same_bytes(&owned, &incoming_hash),
        None => false,
    }
}

/// What a flavour being read is for.
#[derive(Clone, Copy, Debug, PartialEq, Eq, Structural)]
pub enum Role {
    /// It is part of what is recorded.
    Content,
    /// It is a password manager's mark, read to decide.
    PasswordHint,
}

/// How far one flavour of a transfer has come.
#[derive(Debug)]
pub enum SlotState {
    Reading,
    Done(Vec<u8>),
    Failed,
}

/// One flavour of a transfer.
#[derive(Debug)]
pub struct Slot {
    pub mime: String,
    pub role: Role,
    pub state: SlotState,
}

/// A selection being read: its kind, the application it came from, its
/// flavours, and whether it was the selection found on start.
#[derive(Debug)]
pub struct Transfer {
    pub kind: EntryKind,
    pub source_app: Option<String>,
    pub slots: Vec<Slot>,
    pub priming: bool,
}

/// Whether a flavour is done with, one way or the other.
pub open spec fn settled(slot: Slot) -> bool {
    !(slot.state is Reading)
}

/// Whether every flavour is done with.
pub open spec fn all_settled(slots: Seq<Slot>) -> bool {
    forall|i: int| 0 <= i < slots.len() ==> #[trigger] settled(slots[i])
}

/// Whether the source marked the copy as a secret: the first hint flavour
/// decides; one that did not arrive counts as a secret, to be safe.
pub open spec fn secret_of(slots: Seq<Slot>) -> bool
    decreases slots.len(),
{
    if slots.len() == 0 {
        false
    } else if slots[0].role == Role::PasswordHint {
        match slots[0].state {
            SlotState::Done(body) => is_secret_hint(body@),
            _ => true,
        }
    } else {
        secret_of(slots.drop_first())
    }
}

/// Whether one of `flavors` holds `body`.
pub open spec fn holds_body(flavors: Seq<Flavor>, body: Seq<u8>) -> bool {
    exists|i: int| 0 <= i < flavors.len() && (#[trigger] flavors[i]).body@ == body
}

/// The flavours a transfer keeps: the content ones that arrived with
/// something in them, in order, but for any whose body an earlier kept
/// flavour already holds.
pub open spec fn content_flavors(slots: Seq<Slot>) -> Seq<Flavor>
    decreases slots.len(),
{
    if slots.len() == 0 {
        seq![]
    } else {
        let rest = content_flavors(slots.drop_last());
        let slot = slots.last();
        match slot.state {
            SlotState::Done(body) => if slot.role == Role::Content && body@.len() > 0 && !holds_body(
                rest,
                body@,
            ) {
                rest.push(Flavor { mime: slot.mime, body: body })
            } else {
                rest
            },
            _ => rest,
        }
    }
}

/// A slot with the same flavour in another state.
pub open spec fn restated(slot: Slot, state: SlotState) -> Slot {
    Slot { mime: slot.mime, role: slot.role, state: state }
}

/// A slot given up on: one still reading has failed.
pub open spec fn given_up(slot: Slot) -> Slot {
    if slot.state is Reading {
        restated(slot, SlotState::Failed)
    } else {
        slot
    }
}

/// The MIME types of the flavours still being read, in order.
pub open spec fn reading_mimes(slots: Seq<Slot>) -> Seq<Seq<char>>
    decreases slots.len(),
{
    if slots.len() == 0 {
        seq![]
    } else {
        let rest = reading_mimes(slots.drop_last());
        if slots.last().state is Reading {
            rest.push(slots.last().mime@)
        } else {
            rest
        }
    }
}

proof fn lemma_secret_skip(slots: Seq<Slot>, i: int)
    requires
        0 <= i < slots.len(),
        slots[i].role != Role::PasswordHint,
    ensures
        secret_of(slots.skip(i)) == secret_of(slots.skip(i + 1)),
{
    assert(slots.skip(i).drop_first() =~= slots.skip(i + 1));
}

/// Whether one of `flavors` holds `body`.
fn holding(flavors: &Vec<Flavor>, body: &Vec<u8>) -> (r: bool)
    ensures
        r == holds_body(flavors@, body@),
{
    let mut i: usize = 0;
    while i < flavors.len()
        invariant
            i <= flavors@.len(),
            forall|j: int| 0 <= j < i ==> (#[trigger] flavors@[j]).body@ != body@,
        decreases flavors@.len() - i,
    {
        if same_bytes(flavors[i].body.as_slice(), body.as_slice()) {
            assert(flavors@[i as int].body@ == body@);
            return true;
        }
        i += 1;
    }
    false
}

impl Transfer {
    /// Whether every flavour has arrived or failed.
    pub fn is_settled(&self) -> (r: bool)
        ensures
            r == all_settled(self.slots@),
    {
        let mut i: usize = 0;
        while i < self.slots.len()
            invariant
                i <= self.slots@.len(),
                forall|j: int| 0 <= j < i ==> #[trigger] settled(self.slots@[j]),
            decreases self.slots@.len() - i,
        {
            if let SlotState::Reading = self.slots[i].state {
                assert(!settled(self.slots@[i as int]));
                return false;
            }
            i += 1;
        }
        true
    }

    /// Puts a flavour into `state`; an index past the flavours changes
    /// nothing.
    fn set_state(&mut self, slot: usize, state: SlotState)
        ensures
            final(self).kind == old(self).kind,
            final(self).source_app == old(self).source_app,
            final(self).priming == old(self).priming,
            final(self).slots@ == if slot < old(self).slots@.len() {
                old(self).slots@.update(slot as int, restated(old(self).slots@[slot as int], state))
            } else {
                old(self).slots@
            },
    {
        if slot < self.slots.len() {
            let mut changed = self.slots.remove(slot);
            changed.state = state;
            self.slots.insert(slot, changed);
            assert(self.slots@ =~= old(self).slots@.update(
                slot as int,
                restated(old(self).slots@[slot as int], state),
            ));
        }
    }

    /// The flavour at `slot` arrived with `body`. Answers whether it is the
    /// primary one, after which the others are given only a short grace.
    pub fn slot_done(&mut self, slot: usize, body: Vec<u8>) -> (primary: bool)
        ensures
            final(self).kind == old(self).kind,
            final(self).source_app == old(self).source_app,
            final(self).priming == old(self).priming,
            final(self).slots@ == if slot < old(self).slots@.len() {
                old(self).slots@.update(
                    slot as int,
                    restated(old(self).slots@[slot as int], SlotState::Done(body)),
                )
            } else {
                old(self).slots@
            },
            primary == (slot == 0),
    {
        self.set_state(slot, SlotState::Done(body));
        slot == 0
    }

    /// The flavour at `slot` failed: it was too large, or its pipe broke.
    pub fn slot_failed(&mut self, slot: usize)
        ensures
            final(self).kind == old(self).kind,
            final(self).source_app == old(self).source_app,
            final(self).priming == old(self).priming,
            final(self).slots@ == if slot < old(self).slots@.len() {
                old(self).slots@.update(
                    slot as int,
                    restated(old(self).slots@[slot as int], SlotState::Failed),
                )
            } else {
                old(self).slots@
            },
    {
        self.set_state(slot, SlotState::Failed);
    }

    /// Gives up on the flavours still being read: each of them fails, and
    /// their MIME types are answered, in order.
    pub fn abandon(&mut self) -> (stalled: Vec<String>)
        ensures
            final(self).kind == old(self).kind,
            final(self).source_app == old(self).source_app,
            final(self).priming == old(self).priming,
            final(self).slots@ == old(self).slots@.map_values(|slot: Slot| given_up(slot)),
            all_settled(final(self).slots@),
            stalled@.map_values(|m: String| m@) == reading_mimes(old(self).slots@),
    {
        let ghost original = self.slots@;
        let mut stalled: Vec<String> = Vec::new();
        let mut i: usize = 0;
        while i < self.slots.len()
            invariant
                self.slots@.len() == original.len(),
                i <= original.len(),
                self.kind == old(self).kind,
                self.source_app == old(self).source_app,
                self.priming == old(self).priming,
                original == old(self).slots@,
                forall|j: int| 0 <= j < i ==> self.slots@[j] == given_up(#[trigger] original[j]),
                forall|j: int| i <= j < original.len() ==> self.slots@[j] == original[j],
                stalled@.map_values(|m: String| m@) == reading_mimes(original.take(i as int)),
            decreases original.len() - i,
        {
            assert(original.take(i + 1).drop_last() =~= original.take(i as int));
            if let SlotState::Reading = self.slots[i].state {
                stalled.push(self.slots[i].mime.clone());
                self.set_state(i, SlotState::Failed);
            }
            i += 1;
            assert(stalled@.map_values(|m: String| m@) =~= reading_mimes(original.take(i as int)));
        }
        assert(self.slots@ =~= original.map_values(|slot: Slot| given_up(slot)));
        assert(original.take(i as int) =~= original);
        assert forall|j: int| 0 <= j < self.slots@.len() implies #[trigger] settled(self.slots@[j]) by {
            assert(self.slots@[j] == given_up(original[j]));
        }
        stalled
    }

    /// Whether the source marked the copy as a secret.
    fn secret(&self) -> (r: bool)
        ensures
            r == secret_of(self.slots@),
    {
        let mut i: usize = 0;
        assert(self.slots@.skip(0) =~= self.slots@);
        while i < self.slots.len()
            invariant
                i <= self.slots@.len(),
                secret_of(self.slots@.skip(i as int)) == secret_of(self.slots@),
            decreases self.slots@.len() - i,
        {
            let slot = &self.slots[i];
            if slot.role == Role::PasswordHint {
                assert(self.slots@.skip(i as int)[0] == self.slots@[i as int]);
                return match &slot.state {
                    SlotState::Done(body) => hint_is_secret(body.as_slice()),
                    _ => true,
                };
            }
            proof {
                lemma_secret_skip(self.slots@, i as int);
            }
            i += 1;
        }
        assert(self.slots@.skip(i as int) =~= Seq::<Slot>::empty());
        false
    }

    /// The copy a settled transfer makes, and whether its source marked it
    /// as a secret.
    pub fn into_capture(self) -> (r: (Capture, bool))
        ensures
            r.0.kind == self.kind,
            r.0.flavors@ == content_flavors(self.slots@),
            r.0.source_app == self.source_app,
            r.1 == secret_of(self.slots@),
    {
        let secret = self.secret();
        let ghost original = self.slots@;
        let Transfer { kind, source_app, slots, priming: _ } = self;
        let total = slots.len();
        let mut rest = slots;
        let mut flavors: Vec<Flavor> = Vec::new();
        let mut k: usize = 0;
        assert(original.skip(0) =~= original);
        assert(original.take(0) =~= Seq::<Slot>::empty());
        while rest.len() > 0
            invariant
                k + rest@.len() == original.len(),
                original.len() == total,
                rest@ == original.skip(k as int),
                flavors@ == content_flavors(original.take(k as int)),
            decreases rest@.len(),
        {
            let slot = rest.remove(0);
            proof {
                assert(slot == original[k as int]);
                assert(original.take(k + 1).drop_last() =~= original.take(k as int));
                assert(original.take(k + 1).last() == original[k as int]);
                assert(rest@ =~= original.skip(k + 1));
            }
            let Slot { mime, role, state } = slot;
            match state {
                SlotState::Done(body) => {
                    if role == Role::Content && body.len() > 0 && !holding(&flavors, &body) {
                        flavors.push(Flavor { mime, body });
                    }
                },
                _ => {},
            }
            k += 1;
        }
        assert(original.take(k as int) =~= original);
        (Capture { kind, flavors, source_app }, secret)
    }
}

impl Transfer {
    /// The transfer `plan` starts, for a selection copied in `source_app`:
    /// one flavour per request, in order, being read where its pipe could be
    /// opened (`opened`) and failed from the start where it could not.
    pub fn begin(plan: Plan, source_app: Option<String>, opened: &[bool]) -> (r: Transfer)
        requires
            opened@.len() == plan.requests@.len(),
        ensures
            r.kind == plan.kind,
            r.source_app == source_app,
            r.priming == plan.priming,
            r.slots@.len() == plan.requests@.len(),
            forall|k: int|
                0 <= k < r.slots@.len() ==> (#[trigger] r.slots@[k]).mime == plan.requests@[k].0
                    && r.slots@[k].role == plan.requests@[k].1 && r.slots@[k].state == if opened@[k] {
                    SlotState::Reading
                } else {
                    SlotState::Failed
                },
    {
        let Plan { kind, limit: _, requests, priming } = plan;
        let ghost asked = requests@;
        let mut slots: Vec<Slot> = Vec::new();
        let mut rest = requests;
        let mut k: usize = 0;
        while rest.len() > 0
            invariant
                k + rest@.len() == asked.len(),
                rest@ == asked.skip(k as int),
                opened@.len() == asked.len(),
                slots@.len() == k,
                forall|j: int|
                    0 <= j < k ==> (#[trigger] slots@[j]).mime == asked[j].0 && slots@[j].role
                        == asked[j].1 && slots@[j].state == if opened@[j] {
                        SlotState::Reading
                    } else {
                        SlotState::Failed
                    },
            decreases rest@.len(),
        {
            let (mime, role) = rest.remove(0);
            proof {
                assert(asked.skip(k as int)[0] == asked[k as int]);
                assert(rest@ =~= asked.skip(k + 1));
            }
            let state = if opened[k] {
                SlotState::Reading
            } else {
                SlotState::Failed
            };
            slots.push(Slot { mime, role, state });
            k += 1;
        }
        Transfer { kind, source_app, slots, priming }
    }
}

/// How long a transfer may go without progress before it is given up, in
/// milliseconds.
pub const TRANSFER_TIMEOUT_MS: u64 = 2000;

/// How long the flavours after the primary one are waited for once it has
/// arrived, in milliseconds.
pub const SECONDARY_GRACE_MS: u64 = 300;

/// What to read of a selection: the kind it makes, the most bytes one
/// flavour may hold, the flavours to ask for, each with what it is for, and
/// whether it is the selection found on start.
#[derive(Debug)]
pub struct Plan {
    pub kind: EntryKind,
    pub limit: usize,
    pub requests: Vec<(String, Role)>,
    pub priming: bool,
}

/// The flavours to ask for: the chosen ones as content, then the password
/// hint where one is offered and such hints are honoured.
pub open spec fn requests_for(
    offered: Seq<Seq<char>>,
    chosen: Seq<Seq<char>>,
    respect_password_hint: bool,
) -> Seq<(Seq<char>, Role)> {
    chosen.map_values(|m: Seq<char>| (m, Role::Content)) + if respect_password_hint
        && offered.contains(PASSWORD_HINT@) {
        seq![(PASSWORD_HINT@, Role::PasswordHint)]
    } else {
        seq![]
    }
}

/// The view of the requests of a plan.
pub open spec fn requests_view(requests: Seq<(String, Role)>) -> Seq<(Seq<char>, Role)> {
    requests.map_values(|q: (String, Role)| (q.0@, q.1))
}

/// Decides what to read of a selection offering `offered`. The first
/// selection seen is the one found on start, which `primed` remembers,
/// whatever becomes of it. Nothing is read in private mode, nor of a
/// selection with nothing worth keeping.
pub fn plan(filter: &Filter, settings: &Settings, offered: &[String], primed: &mut bool) -> (r: Option<Plan>)
    ensures
        *final(primed),
        match r {
            None => filter.private_mode() || choice(views(offered@), settings.capture_images) is None,
            Some(p) => {
                &&& !filter.private_mode()
                &&& p.priming == !*old(primed)
                &&& choice(views(offered@), settings.capture_images) matches Some((kind, chosen))
                &&& p.kind == kind
                &&& p.limit == limit_of(kind)
                &&& requests_view(p.requests@) == requests_for(
                    views(offered@),
                    chosen,
                    settings.respect_password_hint,
                )
            },
        },
{
    let priming = !*primed;
    *primed = true;
    if !filter.accepts_offers() {
        return None;
    }
    let wanted = choose_mimes(offered, settings.capture_images)?;
    let mut requests: Vec<(String, Role)> = Vec::new();
    let mut i: usize = 0;
    while i < wanted.mimes.len()
        invariant
            i <= wanted.mimes@.len(),
            requests_view(requests@) == views(wanted.mimes@).take(i as int).map_values(
                |m: Seq<char>| (m, Role::Content),
            ),
            requests@.len() == i,
        decreases wanted.mimes@.len() - i,
    {
        let ghost prev = requests@;
        let m = wanted.mimes[i].clone();
        requests.push((m, Role::Content));
        proof {
            assert(requests@ == prev.push((m, Role::Content)));
            assert(m == wanted.mimes@[i as int]);
            assert forall|j: int| 0 <= j <= i implies #[trigger] requests_view(requests@)[j]
                == views(wanted.mimes@).take(i + 1).map_values(|m: Seq<char>| (m, Role::Content))[j] by {
                if j < i {
                    assert(requests_view(prev)[j] == views(wanted.mimes@).take(i as int).map_values(
                        |m: Seq<char>| (m, Role::Content),
                    )[j]);
                }
            }
        }
        i += 1;
        assert(requests_view(requests@) =~= views(wanted.mimes@).take(i as int).map_values(
            |m: Seq<char>| (m, Role::Content),
        ));
    }
    assert(views(wanted.mimes@).take(i as int) =~= views(wanted.mimes@));
    if wanted.password_hint && settings.respect_password_hint {
        let hint = string_of(chars_of(PASSWORD_HINT).as_slice());
        requests.push((hint, Role::PasswordHint));
    }
    assert(requests_view(requests@) =~= requests_for(
        views(offered@),
        views(wanted.mimes@),
        settings.respect_password_hint,
    ));
    Some(Plan { kind: wanted.kind, limit: size_limit(wanted.kind), requests, priming })
}

/// How much longer a transfer idle for `idle_ms` may wait, or `None` where
/// its time is up.
pub fn time_left(idle_ms: u64) -> (r: Option<u64>)
    ensures
        r == if idle_ms <= TRANSFER_TIMEOUT_MS {
            Some((TRANSFER_TIMEOUT_MS - idle_ms) as u64)
        } else {
            None::<u64>
        },
{
    TRANSFER_TIMEOUT_MS.checked_sub(idle_ms)
}

/// The kind of entry a set of flavours makes, as a selection offering
/// them would be read with images kept; text where none is recognised.
pub open spec fn offer_kind(mimes: Seq<Seq<char>>) -> EntryKind {
    match choice(mimes, true) {
        Some((kind, _)) => kind,
        None => EntryKind::Text,
    }
}

/// The view of the MIME types of flavours.
pub open spec fn mimes_of(flavors: Seq<Flavor>) -> Seq<Seq<char>> {
    flavors.map_values(|f: Flavor| f.mime@)
}

/// The kind of entry `flavors` make when they are put on the clipboard.
pub fn kind_of_offer(flavors: &[Flavor]) -> (r: EntryKind)
    ensures
        r == offer_kind(mimes_of(flavors@)),
{
    let mut offered: Vec<String> = Vec::new();
    let mut i: usize = 0;
    while i < flavors.len()
        invariant
            i <= flavors@.len(),
            views(offered@) == mimes_of(flavors@.take(i as int)),
            offered@.len() == i,
        decreases flavors@.len() - i,
    {
        let ghost prev = offered@;
        let m = flavors[i].mime.clone();
        offered.push(m);
        proof {
            assert(offered@ == prev.push(m));
            assert(m == flavors@[i as int].mime);
            assert forall|j: int| 0 <= j <= i implies #[trigger] views(offered@)[j] == mimes_of(
                flavors@.take(i + 1),
            )[j] by {
                if j < i {
                    assert(views(prev)[j] == mimes_of(flavors@.take(i as int))[j]);
                }
            }
        }
        i += 1;
        assert(views(offered@) =~= mimes_of(flavors@.take(i as int)));
    }
    assert(flavors@.take(i as int) =~= flavors@);
    match choose_mimes(offered.as_slice(), true) {
        Some(wanted) => wanted.kind,
        None => EntryKind::Text,
    }
}

/// The capture state once private mode is as `private_mode` says: active
/// capture pauses, a pause resumes on `backend` (or starts over where there
/// is none yet), and any other state stays.
pub open spec fn capture_after_spec(
    current: CaptureState,
    private_mode: bool,
    backend: Option<Backend>,
) -> CaptureState {
    match current {
        CaptureState::Active(_) => if private_mode {
            CaptureState::Paused
        } else {
            current
        },
        CaptureState::Paused => if private_mode {
            current
        } else {
            match backend {
                Some(b) => CaptureState::Active(b),
                None => CaptureState::Starting,
            }
        },
        _ => current,
    }
}

/// The capture state once private mode is as `private_mode` says.
pub fn capture_after(current: CaptureState, private_mode: bool, backend: Option<Backend>) -> (r:
    CaptureState)
    ensures
        r == capture_after_spec(current, private_mode, backend),
{
    match current {
        CaptureState::Active(b) => if private_mode {
            CaptureState::Paused
        } else {
            CaptureState::Active(b)
        },
        CaptureState::Paused => if private_mode {
            CaptureState::Paused
        } else {
            match backend {
                Some(b) => CaptureState::Active(b),
                None => CaptureState::Starting,
            }
        },
        other => other,
    }
}

/// The policy the backend applies: the settings, the privacy filter made
/// of them, and whether capture runs.
pub struct Policy {
    pub settings: Settings,
    pub filter: Filter,
    pub capture: CaptureState,
}

/// Whether a filter applies these settings' privacy choices.
pub open spec fn filter_follows(filter: Filter, settings: Settings) -> bool {
    filter.private_mode() == settings.private_mode && filter.respects_hint()
        == settings.respect_password_hint
}

impl Policy {
    /// Takes on new settings, sanitised, when they differ from the current
    /// ones: the filter follows them and the capture state follows private
    /// mode, resuming on `backend`. Answers whether anything changed, after
    /// which the history is pruned under the new settings.
    pub fn apply(&mut self, incoming: Settings, backend: Option<Backend>) -> (changed: bool)
        requires
            filter_follows(old(self).filter, old(self).settings),
        ensures
            changed == (sanitised_spec(incoming) != old(self).settings),
            !changed ==> *final(self) == *old(self),
            changed ==> final(self).settings == sanitised_spec(incoming) && final(self).capture
                == capture_after_spec(old(self).capture, sanitised_spec(incoming).private_mode, backend),
            filter_follows(final(self).filter, final(self).settings),
    {
        let settings = incoming.sanitised();
        if settings == self.settings {
            return false;
        }
        let privacy_changed = settings.private_mode != self.settings.private_mode
            || settings.respect_password_hint != self.settings.respect_password_hint;
        let private_mode = settings.private_mode;
        self.settings = settings;
        if privacy_changed {
            self.filter = Filter::new(&self.settings);
        }
        let mut current = CaptureState::Starting;
        std::mem::swap(&mut current, &mut self.capture);
        self.capture = capture_after(current, private_mode, backend);
        true
    }
}


/// What the history service does about a command besides changing the
/// history.
#[derive(Debug)]
pub struct Reaction {
    /// The history changed and is published again.
    pub changed: bool,
    /// The flavours to offer as the clipboard selection, as this kind.
    pub offer: Option<(EntryKind, Vec<Flavor>)>,
    /// Whether the offered selection is pasted into the focused window.
    pub paste: bool,
}

/// What the history holds of the entry `id`: its kind and its flavours,
/// where it is there.
pub open spec fn kept_as(history: Seq<EntryView>, id: i64) -> Option<(EntryKind, Seq<(Seq<char>, Seq<u8>)>)> {
    match index_of(history, id) {
        Some(i) => Some((history[i].kind, history[i].contents)),
        None => None,
    }
}

/// The entry `id` used at `now`: where the history holds it with
/// something in it, its flavours are offered as its kind (and pasted where
/// `paste` is set) and it counts as used; otherwise nothing happens.
pub fn use_entry(db: &mut Db, id: EntryId, paste: bool, now: Timestamp) -> (r: Reaction)
    ensures
        match kept_as(old(db)@, id.0) {
            Some((kind, contents)) if contents.len() > 0 => {
                &&& r.offer matches Some((k, flavors)) && k == kind && contents_view(flavors@) == contents
                &&& r.changed && r.paste == paste
                &&& final(db)@ == replaced(old(db)@, index_of(old(db)@, id.0).unwrap(), used(old(db)@[index_of(old(db)@, id.0).unwrap()], now))
            },
            _ => r.offer is None && !r.changed && !r.paste && final(db)@ == old(db)@,
        },
{
    let loaded = match db.load_all(id) {
        Ok(flavors) => flavors,
        Err(_) => Vec::new(),
    };
    assert(contents_view(loaded@).len() == loaded@.len());
    if loaded.len() == 0 {
        return Reaction { changed: false, offer: None, paste: false };
    }
    let kind = match db.kind(id) {
        Ok(Some(kind)) => kind,
        _ => kind_of_offer(loaded.as_slice()),
    };
    let touched = db.touch(id, now);
    Reaction { changed: touched.is_ok(), offer: Some((kind, loaded)), paste }
}

/// What the history service does about `command` at `now`, resuming capture
/// on `backend` where settings end private mode. Using an entry offers it
/// (see `use_entry`); an offer is made as the kind its flavours make, unless
/// it is empty; a deletion, a clear and a change of pin change the history
/// as `Db` says; new settings are taken as `Policy::apply` says, and the
/// history pruned under them.
pub fn on_command(
    db: &mut Db,
    policy: &mut Policy,
    command: ClipCommand,
    now: Timestamp,
    backend: Option<Backend>,
) -> (r: Reaction)
    requires
        filter_follows(old(policy).filter, old(policy).settings),
        command matches ClipCommand::Settings(s) ==> (sanitised_spec(s).max_age_days matches Some(
            days,
        ) ==> now - days * DAY_MS >= i64::MIN),
    ensures
        filter_follows(final(policy).filter, final(policy).settings),
        !(command is Settings) ==> *final(policy) == *old(policy),
        match command {
            ClipCommand::Use { id, paste } => match kept_as(old(db)@, id.0) {
                Some((kind, contents)) if contents.len() > 0 => {
                    &&& r.offer matches Some((k, flavors)) && k == kind && contents_view(flavors@)
                        == contents
                    &&& r.changed && r.paste == paste
                    &&& final(db)@ == replaced(
                        old(db)@,
                        index_of(old(db)@, id.0).unwrap(),
                        used(old(db)@[index_of(old(db)@, id.0).unwrap()], now),
                    )
                },
                _ => r.offer is None && !r.changed && !r.paste && final(db)@ == old(db)@,
            },
            ClipCommand::Offer { flavors } => final(db)@ == old(db)@ && !r.changed && !r.paste && if flavors@.len() > 0 {
                r.offer == Some((offer_kind(mimes_of(flavors@)), flavors))
            } else {
                r.offer is None
            },
            ClipCommand::Delete(id) => r.changed && r.offer is None && !r.paste && final(db)@ == match index_of(old(db)@, id.0) {
                Some(i) => old(db)@.remove(i),
                None => old(db)@,
            },
            ClipCommand::Clear { include_pinned } => r.changed && r.offer is None && !r.paste && final(db)@ == if include_pinned {
                Seq::<EntryView>::empty()
            } else {
                pinned_only(old(db)@)
            },
            ClipCommand::SetPinned { id, pinned } => r.offer is None && !r.paste && final(db)@ == pinning(old(db)@, id.0, pinned).0
                && r.changed == pinning(old(db)@, id.0, pinned).1 is Ok,
            ClipCommand::Settings(s) => r.offer is None && !r.paste && r.changed == (sanitised_spec(s) != old(policy).settings) && if r.changed {
                &&& final(policy).settings == sanitised_spec(s)
                &&& final(policy).capture == capture_after_spec(old(policy).capture, sanitised_spec(s).private_mode, backend)
                &&& final(db)@ == pruned(old(db)@, sanitised_spec(s).max_entries, cutoff_of(sanitised_spec(s), now))
            } else {
                final(db)@ == old(db)@
            },
        },
{
    match command {
        ClipCommand::Use { id, paste } => use_entry(db, id, paste, now),
        ClipCommand::Offer { flavors } => {
            if flavors.len() == 0 {
                return Reaction { changed: false, offer: None, paste: false };
            }
            let kind = kind_of_offer(flavors.as_slice());
            Reaction { changed: false, offer: Some((kind, flavors)), paste: false }
        },
        ClipCommand::Delete(id) => {
            let done = db.delete(id);
            Reaction { changed: done.is_ok(), offer: None, paste: false }
        },
        ClipCommand::Clear { include_pinned } => {
            let done = db.clear(include_pinned);
            Reaction { changed: done.is_ok(), offer: None, paste: false }
        },
        ClipCommand::SetPinned { id, pinned } => {
            let done = db.set_pinned(id, pinned);
            Reaction { changed: done.is_ok(), offer: None, paste: false }
        },
        ClipCommand::Settings(settings) => {
            if !policy.apply(settings, backend) {
                return Reaction { changed: false, offer: None, paste: false };
            }
            let _ = db.prune(&policy.settings, now);
            Reaction { changed: true, offer: None, paste: false }
        },
    }
}

/// No two kept flavours hold the same body: a flavour that would only be
/// the same bytes again is left out.
pub proof fn kept_bodies_are_distinct(slots: Seq<Slot>)
    ensures
        forall|a: int, b: int|
            0 <= a < b < content_flavors(slots).len() ==> (#[trigger] content_flavors(slots)[a]).body@
                != (#[trigger] content_flavors(slots)[b]).body@,
    decreases slots.len(),
{
    if slots.len() > 0 {
        let rest = content_flavors(slots.drop_last());
        kept_bodies_are_distinct(slots.drop_last());
        let all = content_flavors(slots);
        assert forall|a: int, b: int| 0 <= a < b < all.len() implies (#[trigger] all[a]).body@
            != (#[trigger] all[b]).body@ by {
            if b < rest.len() {
                assert(all[a] == rest[a] && all[b] == rest[b]);
            } else {
                assert(all[a] == rest[a]);
                if all[a].body@ == all[b].body@ {
                    assert(holds_body(rest, all[b].body@));
                }
            }
        }
    }
}

/// A copy keeps only content flavours that arrived with something in them:
/// each of its flavours is such a flavour of the transfer, the password
/// hint never among them.
pub proof fn only_content_is_kept(slots: Seq<Slot>)
    ensures
        forall|k: int|
            0 <= k < content_flavors(slots).len() ==> exists|i: int|
                0 <= i < slots.len() && slots[i].role == Role::Content && slots[i].state
                    == SlotState::Done(#[trigger] content_flavors(slots)[k].body)
                    && content_flavors(slots)[k].mime == slots[i].mime
                    && content_flavors(slots)[k].body@.len() > 0,
    decreases slots.len(),
{
    if slots.len() > 0 {
        let rest = slots.drop_last();
        only_content_is_kept(rest);
        let n = content_flavors(rest).len();
        assert forall|k: int| 0 <= k < content_flavors(slots).len() implies exists|i: int|
            0 <= i < slots.len() && slots[i].role == Role::Content && slots[i].state
                == SlotState::Done(#[trigger] content_flavors(slots)[k].body)
                && content_flavors(slots)[k].mime == slots[i].mime
                && content_flavors(slots)[k].body@.len() > 0 by {
            if k < n {
                let i = choose|i: int|
                    0 <= i < rest.len() && rest[i].role == Role::Content && rest[i].state
                        == SlotState::Done(#[trigger] content_flavors(rest)[k].body)
                        && content_flavors(rest)[k].mime == rest[i].mime
                        && content_flavors(rest)[k].body@.len() > 0;
                assert(slots[i] == rest[i]);
            } else {
                assert(slots[slots.len() - 1] == slots.last());
            }
        }
    }
}

/// The selection this process is serving is never recorded again when it
/// comes back: whatever the history holds, and however it came about.
pub proof fn an_own_selection_is_not_recorded(
    history: Seq<EntryView>,
    filter: Filter,
    kind: EntryKind,
    flavors: Seq<Flavor>,
    secret: bool,
    priming: bool,
)
    requires
        refusal(filter.private_mode(), filter.respects_hint(), kind, flavors, secret) is None,
    ensures
        verdict(
            history,
            filter,
            kind,
            flavors,
            secret,
            priming,
            true,
            Some(sha256_of(hashed_bytes(kind, flavors))),
        ) == Some(Recorded::Reflected),
{
}

/// A hint that never arrived marks the copy as a secret: in doubt a copy
/// is treated as a password.
pub proof fn a_missing_hint_counts_as_secret(slots: Seq<Slot>, i: int)
    requires
        0 <= i < slots.len(),
        slots[i].role == Role::PasswordHint,
        !(slots[i].state is Done),
        forall|j: int| 0 <= j < i ==> #[trigger] slots[j].role != Role::PasswordHint,
    ensures
        secret_of(slots),
    decreases i,
{
    if i > 0 {
        assert forall|j: int| 0 <= j < i - 1 implies #[trigger] slots.drop_first()[j].role
            != Role::PasswordHint by {
            assert(slots.drop_first()[j] == slots[j + 1]);
        }
        a_missing_hint_counts_as_secret(slots.drop_first(), i - 1);
    }
}

/// Where the flavour a destination asks for is among those offered: the
/// first offered under that exact name, if any.
pub fn served(offered: &[String], mime: &str) -> (r: Option<usize>)
    ensures
        match r {
            Some(i) => i < offered@.len() && offered@[i as int]@ == mime@ && forall|j: int|
                0 <= j < i ==> offered@[j]@ != mime@,
            None => forall|j: int| 0 <= j < offered@.len() ==> offered@[j]@ != mime@,
        },
{
    let wanted = chars_of(mime);
    let mut i: usize = 0;
    while i < offered.len()
        invariant
            i <= offered@.len(),
            wanted@ == mime@,
            forall|j: int| 0 <= j < i ==> offered@[j]@ != mime@,
        decreases offered@.len() - i,
    {
        if crate::text::equal(chars_of(offered[i].as_str()).as_slice(), wanted.as_slice()) {
            return Some(i);
        }
        i += 1;
    }
    None
}

/// The names a selection of flavours named `mimes` is advertised under,
/// each with the flavour whose body serves it: every flavour under its own
/// name, in order, then each spelling of plain text a destination may ask
/// for that is missing (see `aliases`), served from the first flavour.
pub fn advertised(mimes: &[String]) -> (r: Vec<(String, usize)>)
    ensures
        r@.len() == mimes@.len() + aliases(views(mimes@)).len(),
        forall|k: int| 0 <= k < mimes@.len() ==> (#[trigger] r@[k]).0@ == mimes@[k]@ && r@[k].1 == k,
        forall|k: int|
            mimes@.len() <= k < r@.len() ==> (#[trigger] r@[k]).0@ == aliases(views(mimes@))[k
                - mimes@.len()] && r@[k].1 == 0,
{
    let mut out: Vec<(String, usize)> = Vec::new();
    let mut i: usize = 0;
    while i < mimes.len()
        invariant
            i <= mimes@.len(),
            out@.len() == i,
            forall|k: int| 0 <= k < i ==> (#[trigger] out@[k]).0@ == mimes@[k]@ && out@[k].1 == k,
        decreases mimes@.len() - i,
    {
        let name = mimes[i].clone();
        out.push((name, i));
        i += 1;
    }
    let names = text_aliases(mimes);
    let n = mimes.len();
    let mut j: usize = 0;
    while j < names.len()
        invariant
            n == mimes@.len(),
            j <= names@.len(),
            views(names@) == aliases(views(mimes@)),
            out@.len() == n + j,
            forall|k: int| 0 <= k < n ==> (#[trigger] out@[k]).0@ == mimes@[k]@ && out@[k].1 == k,
            forall|k: int|
                n <= k < n + j ==> (#[trigger] out@[k]).0@ == views(names@)[k - n] && out@[k].1 == 0,
        decreases names@.len() - j,
    {
        let alias = names[j].clone();
        assert(views(names@)[j as int] == names@[j as int]@);
        out.push((alias, 0));
        j += 1;
    }
    out
}

/// What became of a finished transfer.
#[derive(Debug)]
pub enum Recorded {
    /// The privacy policy refused it.
    Refused(Refusal),
    /// It was this process's own selection coming back.
    Reflected,
    /// It was on the clipboard on start and the history already holds it.
    AlreadyKnown,
    /// It was stored, anew or again.
    Stored(Stored),
    /// The history could not take it.
    Failed(DbError),
}

/// What a finished transfer comes to before anything is stored, if it
/// stops there: refused, recognised as this process's own selection, or,
/// on start, already known.
pub open spec fn verdict(
    history: Seq<EntryView>,
    filter: Filter,
    kind: EntryKind,
    flavors: Seq<Flavor>,
    secret: bool,
    priming: bool,
    source_active: bool,
    owned_hash: Option<Seq<u8>>,
) -> Option<Recorded> {
    match refusal(filter.private_mode(), filter.respects_hint(), kind, flavors, secret) {
        Some(why) => Some(Recorded::Refused(why)),
        None => {
            let digest = sha256_of(hashed_bytes(kind, flavors));
            if reflected(source_active, owned_hash, digest) {
                Some(Recorded::Reflected)
            } else if priming && index_of_hash(history, digest) is Some {
                Some(Recorded::AlreadyKnown)
            } else {
                None
            }
        },
    }
}

/// The thumbnail a copy is stored with: for an image, the thumbnail of its
/// primary flavour (see `thumbnail_of`); none for anything else.
pub open spec fn thumbnail_fits(kind: EntryKind, flavors: Seq<Flavor>, t: Option<Thumbnail>) -> bool {
    if kind == EntryKind::Image && flavors.len() > 0 {
        match t {
            Some(x) => thumbnail_of(flavors[0].body@) == Some((x.width, x.height, x.png@)),
            None => thumbnail_of(flavors[0].body@) is None,
        }
    } else {
        t is None
    }
}

/// The view of an optional thumbnail.
pub open spec fn thumb_opt(t: Option<Thumbnail>) -> Option<(u32, u32, Seq<u8>)> {
    match t {
        Some(x) => Some(thumb_view(x)),
        None => None,
    }
}

/// What storing a copy does, with `thumbnail` made of it: the history it
/// leaves, pruned after a successful store, and the answer.
pub open spec fn kept(
    history: Seq<EntryView>,
    settings: Settings,
    kind: EntryKind,
    flavors: Seq<Flavor>,
    source_app: Option<String>,
    thumbnail: Option<Thumbnail>,
    now: i64,
) -> (Seq<EntryView>, Recorded) {
    let (stored, answer) = stored_as(
        history,
        sha256_of(hashed_bytes(kind, flavors)),
        kind,
        preview_spec(kind, flavors),
        opt_string_view(source_app),
        flavors,
        thumb_opt(thumbnail),
        now,
    );
    match answer {
        Ok(done) => (pruned(stored, settings.max_entries, cutoff_of(settings, now)), Recorded::Stored(done)),
        Err(error) => (stored, Recorded::Failed(error)),
    }
}

/// Records what a settled transfer brought: the copy is made of its
/// content flavours that arrived with something in them; it is refused as
/// the privacy filter says, ignored where it is this process's own
/// selection come back (`owned_hash` while `source_active`) or, for the
/// selection found on start, where the history holds it already; otherwise
/// it is stored with its preview and, for an image, a thumbnail, and the
/// history pruned as the settings say.
pub fn record(
    db: &mut Db,
    filter: &Filter,
    settings: &Settings,
    transfer: Transfer,
    source_active: bool,
    owned_hash: Option<[u8; 32]>,
    now: Timestamp,
) -> (r: Recorded)
    requires
        flavor_bytes(content_flavors(transfer.slots@)) <= i64::MAX,
        settings.max_age_days matches Some(days) ==> now - days * DAY_MS >= i64::MIN,
    ensures
        ({
            let flavors = content_flavors(transfer.slots@);
            let owned = match owned_hash {
                Some(h) => Some(h@),
                None => None,
            };
            match verdict(
                old(db)@,
                *filter,
                transfer.kind,
                flavors,
                secret_of(transfer.slots@),
                transfer.priming,
                source_active,
                owned,
            ) {
                Some(early) => r == early && final(db)@ == old(db)@,
                None => exists|t: Option<Thumbnail>|
                    thumbnail_fits(transfer.kind, flavors, t) && (final(db)@, r) == kept(
                        old(db)@,
                        *settings,
                        transfer.kind,
                        flavors,
                        transfer.source_app,
                        t,
                        now,
                    ),
            }
        }),
{
    let priming = transfer.priming;
    let (capture, secret) = transfer.into_capture();
    if let Err(why) = filter.accepts(&capture, secret) {
        return Recorded::Refused(why);
    }
    let digest = hash(&capture);
    if is_reflected_selection(source_active, owned_hash, digest) {
        return Recorded::Reflected;
    }
    if priming {
        if let Ok(true) = db.contains(&digest) {
            return Recorded::AlreadyKnown;
        }
    }
    let summary = preview(&capture);
    let thumbnail = if capture.kind == EntryKind::Image {
        match capture.primary() {
            Some(flavor) => generate(flavor.body.as_slice()),
            None => None,
        }
    } else {
        None
    };
    let app: Option<&str> = match &capture.source_app {
        Some(name) => Some(name.as_str()),
        None => None,
    };
    let picture: Option<&Thumbnail> = match &thumbnail {
        Some(t) => Some(t),
        None => None,
    };
    let entry = NewEntry {
        hash: &digest,
        kind: capture.kind,
        preview: summary.as_str(),
        source_app: app,
        flavors: capture.flavors.as_slice(),
        thumbnail: picture,
    };
    let result = match db.store(&entry, now) {
        Ok(done) => {
            let _ = db.prune(settings, now);
            Recorded::Stored(done)
        },
        Err(error) => Recorded::Failed(error),
    };
    assert(thumbnail_fits(capture.kind, capture.flavors@, thumbnail));
    result
}

} // verus!
