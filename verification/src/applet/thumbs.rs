//! The thumbnails the popup has loaded, the least recently drawn dropped
//! first once there are more than it keeps.

use vstd::prelude::*;

use crate::clip::model::EntryId;

verus! {

/// The most thumbnails kept.
pub const CAPACITY: usize = 64;

/// One entry as the cache knows it: drawn, and with its thumbnail once
/// loaded (`Some(None)` for an entry that has none).
pub type Drawn<H> = (EntryId, Option<Option<H>>);

/// The entries in the order they were last drawn, oldest first, with what
/// is loaded for them; and the entries whose loads are in flight.
pub struct Thumbs<H> {
    drawn: Vec<Drawn<H>>,
    pending: Vec<EntryId>,
}

/// Where `id` first stands in `s`, if it does.
pub open spec fn index_in<H>(s: Seq<Drawn<H>>, id: EntryId) -> Option<int>
    decreases s.len(),
{
    if s.len() == 0 {
        None
    } else if s[0].0 == id {
        Some(0)
    } else {
        match index_in(s.drop_first(), id) {
            Some(k) => Some(k + 1),
            None => None,
        }
    }
}

/// What is loaded for `id`.
pub open spec fn held<H>(s: Seq<Drawn<H>>, id: EntryId) -> Option<Option<H>> {
    match index_in(s, id) {
        Some(k) => s[k].1,
        None => None,
    }
}

/// How many entries have their thumbnail loaded.
pub open spec fn loaded_count<H>(s: Seq<Drawn<H>>) -> nat
    decreases s.len(),
{
    if s.len() == 0 {
        0
    } else {
        loaded_count(s.drop_last()) + if s.last().1 is Some {
            1nat
        } else {
            0nat
        }
    }
}

/// The ids of `s`, oldest first.
pub open spec fn ids_of<H>(s: Seq<Drawn<H>>) -> Seq<EntryId> {
    s.map_values(|d: Drawn<H>| d.0)
}

/// Whether no id occurs twice.
pub open spec fn unique(s: Seq<EntryId>) -> bool {
    forall|a: int, b: int| 0 <= a < b < s.len() ==> s[a] != s[b]
}

/// `ids` without `id`, in order.
pub open spec fn others(ids: Seq<EntryId>, id: EntryId) -> Seq<EntryId>
    decreases ids.len(),
{
    if ids.len() == 0 {
        ids
    } else if ids.last() == id {
        others(ids.drop_last(), id)
    } else {
        others(ids.drop_last(), id).push(ids.last())
    }
}

/// `s` without the entry for `id`, where it has one.
pub open spec fn without<H>(s: Seq<Drawn<H>>, id: EntryId) -> Seq<Drawn<H>> {
    match index_in(s, id) {
        Some(k) => s.remove(k),
        None => s,
    }
}

/// The order once `id` is drawn: it moves to the end, with what is loaded
/// for it.
pub open spec fn touched<H>(s: Seq<Drawn<H>>, id: EntryId) -> Seq<Drawn<H>> {
    without(s, id).push((id, held(s, id)))
}

/// How many of the oldest have to go for `s` to fit.
pub open spec fn excess<H>(s: Seq<Drawn<H>>) -> int {
    if s.len() > CAPACITY {
        s.len() - CAPACITY
    } else {
        0
    }
}

/// The cache once the thumbnail `handle` for `id` is loaded: it is the
/// last drawn, and the oldest beyond `CAPACITY` go.
pub open spec fn inserted<H>(s: Seq<Drawn<H>>, id: EntryId, handle: Option<H>) -> Seq<Drawn<H>> {
    let grown = without(s, id).push((id, Some(handle)));
    grown.skip(excess(grown))
}

impl<H> Thumbs<H> {
    /// The entries in the order they were last drawn, oldest first, with
    /// what is loaded for them.
    pub closed spec fn entries(self) -> Seq<Drawn<H>> {
        self.drawn@
    }

    /// The entries whose loads are in flight.
    pub closed spec fn waiting(self) -> Seq<EntryId> {
        self.pending@
    }

    /// What is loaded for `id`: `None` where nothing is, `Some(None)` where
    /// the entry has no thumbnail.
    pub open spec fn thumb(self, id: EntryId) -> Option<Option<H>> {
        held(self.entries(), id)
    }

    /// The cache is consistent: no entry is listed twice, and no more than
    /// `CAPACITY` thumbnails are loaded.
    pub open spec fn wf(self) -> bool {
        &&& unique(ids_of(self.entries()))
        &&& unique(self.waiting())
        &&& loaded_count(self.entries()) <= CAPACITY
    }
}

proof fn lemma_index_in<H>(s: Seq<Drawn<H>>, id: EntryId)
    ensures
        match index_in(s, id) {
            Some(k) => 0 <= k < s.len() && s[k].0 == id && forall|j: int| 0 <= j < k ==> s[j].0 != id,
            None => forall|j: int| 0 <= j < s.len() ==> s[j].0 != id,
        },
    decreases s.len(),
{
    if s.len() > 0 && s[0].0 != id {
        lemma_index_in(s.drop_first(), id);
        assert forall|j: int| 0 < j < s.len() implies s[j] == s.drop_first()[j - 1] by {}
    }
}

proof fn lemma_index_unique<H>(s: Seq<Drawn<H>>, k: int)
    requires
        0 <= k < s.len(),
        unique(ids_of(s)),
    ensures
        index_in(s, s[k].0) == Some(k),
{
    lemma_index_in(s, s[k].0);
    match index_in(s, s[k].0) {
        Some(j) => {
            if j < k {
                assert(ids_of(s)[j] == ids_of(s)[k]);
            }
        },
        None => {},
    }
}

proof fn lemma_count_bound<H>(s: Seq<Drawn<H>>)
    ensures
        loaded_count(s) <= s.len(),
    decreases s.len(),
{
    if s.len() > 0 {
        lemma_count_bound(s.drop_last());
    }
}

proof fn lemma_count_remove<H>(s: Seq<Drawn<H>>, k: int)
    requires
        0 <= k < s.len(),
    ensures
        loaded_count(s.remove(k)) + (if s[k].1 is Some {
            1nat
        } else {
            0nat
        }) == loaded_count(s),
    decreases s.len(),
{
    if k < s.len() - 1 {
        lemma_count_remove(s.drop_last(), k);
        assert(s.remove(k).drop_last() =~= s.drop_last().remove(k));
        assert(s.remove(k).last() == s.last());
    } else {
        assert(s.remove(k) =~= s.drop_last());
    }
}

proof fn lemma_unique_remove<H>(s: Seq<Drawn<H>>, k: int)
    requires
        0 <= k < s.len(),
        unique(ids_of(s)),
    ensures
        unique(ids_of(s.remove(k))),
        forall|j: int| 0 <= j < s.remove(k).len() ==> #[trigger] s.remove(k)[j].0 != s[k].0,
{
    let r = s.remove(k);
    assert forall|a: int, b: int| 0 <= a < b < r.len() implies ids_of(r)[a] != ids_of(r)[b] by {
        let a0 = if a < k {
            a
        } else {
            a + 1
        };
        let b0 = if b < k {
            b
        } else {
            b + 1
        };
        assert(ids_of(r)[a] == ids_of(s)[a0] && ids_of(r)[b] == ids_of(s)[b0]);
    }
    assert forall|j: int| 0 <= j < r.len() implies #[trigger] r[j].0 != s[k].0 by {
        let j0 = if j < k {
            j
        } else {
            j + 1
        };
        assert(ids_of(s)[j0] != ids_of(s)[k]);
    }
}

/// With `id` gone from `s`, pushing it keeps the ids unique.
proof fn lemma_unique_push<H>(s: Seq<Drawn<H>>, d: Drawn<H>)
    requires
        unique(ids_of(s)),
        forall|j: int| 0 <= j < s.len() ==> #[trigger] s[j].0 != d.0,
    ensures
        unique(ids_of(s.push(d))),
{
    assert forall|a: int, b: int| 0 <= a < b < s.push(d).len() implies ids_of(s.push(d))[a] != ids_of(
        s.push(d),
    )[b] by {
        if b < s.len() {
            assert(ids_of(s)[a] != ids_of(s)[b]);
        } else {
            assert(s.push(d)[a] == s[a]);
        }
    }
}

/// `without` takes the entry for `id` out, and what is left is unique.
proof fn lemma_without<H>(s: Seq<Drawn<H>>, id: EntryId)
    requires
        unique(ids_of(s)),
    ensures
        unique(ids_of(without(s, id))),
        forall|j: int| 0 <= j < without(s, id).len() ==> #[trigger] without(s, id)[j].0 != id,
        loaded_count(without(s, id)) + (if held(s, id) is Some {
            1nat
        } else {
            0nat
        }) == loaded_count(s),
{
    lemma_index_in(s, id);
    match index_in(s, id) {
        Some(k) => {
            lemma_unique_remove(s, k);
            lemma_count_remove(s, k);
        },
        None => {},
    }
}

/// The ids of a suffix are unique where those of the whole are.
proof fn lemma_unique_skip<H>(s: Seq<Drawn<H>>, n: int)
    requires
        0 <= n <= s.len(),
        unique(ids_of(s)),
    ensures
        unique(ids_of(s.skip(n))),
{
    assert forall|a: int, b: int| 0 <= a < b < s.skip(n).len() implies ids_of(s.skip(n))[a] != ids_of(
        s.skip(n),
    )[b] by {
        assert(ids_of(s.skip(n))[a] == ids_of(s)[a + n] && ids_of(s.skip(n))[b] == ids_of(s)[b + n]);
    }
}

/// Whether `id` is among `ids`.
fn contains(ids: &Vec<EntryId>, id: EntryId) -> (r: bool)
    ensures
        r == ids@.contains(id),
{
    let mut i: usize = 0;
    while i < ids.len()
        invariant
            i <= ids@.len(),
            forall|k: int| 0 <= k < i ==> ids@[k] != id,
        decreases ids@.len() - i,
    {
        if ids[i].0 == id.0 {
            return true;
        }
        i += 1;
    }
    false
}

/// `ids` without `id`, in order.
fn retain_other(ids: &Vec<EntryId>, id: EntryId) -> (r: Vec<EntryId>)
    ensures
        r@ == others(ids@, id),
{
    let mut kept: Vec<EntryId> = Vec::new();
    let mut i: usize = 0;
    while i < ids.len()
        invariant
            i <= ids@.len(),
            kept@ == others(ids@.take(i as int), id),
        decreases ids@.len() - i,
    {
        proof {
            assert(ids@.take(i + 1).drop_last() =~= ids@.take(i as int));
            assert(ids@.take(i + 1).last() == ids@[i as int]);
        }
        if ids[i].0 != id.0 {
            kept.push(ids[i]);
        }
        i += 1;
    }
    assert(ids@.take(i as int) =~= ids@);
    kept
}

/// What `others` keeps: every id but `id`, each once where it was once.
proof fn lemma_others(ids: Seq<EntryId>, id: EntryId)
    requires
        unique(ids),
    ensures
        unique(others(ids, id)),
        forall|x: EntryId| #[trigger] others(ids, id).contains(x) <==> (x != id && ids.contains(x)),
    decreases ids.len(),
{
    if ids.len() > 0 {
        let rest = ids.drop_last();
        assert forall|a: int, b: int| 0 <= a < b < rest.len() implies rest[a] != rest[b] by {
            assert(rest[a] == ids[a] && rest[b] == ids[b]);
        }
        lemma_others(rest, id);
        assert forall|x: EntryId| ids.contains(x) <==> (rest.contains(x) || x == ids.last()) by {
            if ids.contains(x) {
                let k = ids.index_of(x);
                if k < ids.len() - 1 {
                    assert(rest[k] == x);
                }
            }
            if rest.contains(x) {
                let k = rest.index_of(x);
                assert(ids[k] == x);
            }
        }
        if ids.last() != id {
            let o = others(rest, id);
            assert(!rest.contains(ids.last())) by {
                if rest.contains(ids.last()) {
                    let k = rest.index_of(ids.last());
                    assert(ids[k] == ids[ids.len() - 1]);
                }
            }
            assert forall|a: int, b: int| 0 <= a < b < o.push(ids.last()).len() implies o.push(
                ids.last(),
            )[a] != o.push(ids.last())[b] by {
                if b == o.len() {
                    assert(o.contains(o[a]));
                }
            }
            assert forall|x: EntryId| #[trigger] o.push(ids.last()).contains(x) <==> (o.contains(x) || x
                == ids.last()) by {
                if o.push(ids.last()).contains(x) {
                    let k = o.push(ids.last()).index_of(x);
                    if k < o.len() {
                        assert(o[k] == x);
                    }
                }
                if o.contains(x) {
                    let k = o.index_of(x);
                    assert(o.push(ids.last())[k] == x);
                }
                if x == ids.last() {
                    assert(o.push(ids.last())[o.len() as int] == x);
                }
            }
        }
    }
}

impl<H> Thumbs<H> {
    /// An empty cache.
    pub fn new() -> (r: Self)
        ensures
            r.wf(),
            r.entries() == Seq::<Drawn<H>>::empty(),
            r.waiting() == Seq::<EntryId>::empty(),
    {
        Thumbs { drawn: Vec::new(), pending: Vec::new() }
    }

    /// Where `id` stands in the drawing order.
    fn slot_of(&self, id: EntryId) -> (r: Option<usize>)
        ensures
            match r {
                Some(k) => k < self.drawn@.len() && index_in(self.drawn@, id) == Some(k as int),
                None => index_in(self.drawn@, id) is None,
            },
    {
        proof {
            lemma_index_in(self.drawn@, id);
        }
        let mut i: usize = 0;
        while i < self.drawn.len()
            invariant
                i <= self.drawn@.len(),
                forall|k: int| 0 <= k < i ==> self.drawn@[k].0 != id,
                match index_in(self.drawn@, id) {
                    Some(k) => 0 <= k < self.drawn@.len() && self.drawn@[k].0 == id && forall|j: int|
                        0 <= j < k ==> self.drawn@[j].0 != id,
                    None => forall|j: int| 0 <= j < self.drawn@.len() ==> self.drawn@[j].0 != id,
                },
            decreases self.drawn@.len() - i,
        {
            if self.drawn[i].0.0 == id.0 {
                return Some(i);
            }
            i += 1;
        }
        None
    }

    /// The thumbnail to draw for `id`, where one is loaded.
    pub fn get(&self, id: EntryId) -> (r: Option<&H>)
        ensures
            match self.thumb(id) {
                Some(Some(h)) => r == Some(&h),
                _ => r is None,
            },
    {
        match self.slot_of(id) {
            Some(k) => {
                assert(self.thumb(id) == self.drawn@[k as int].1);
                match &self.drawn[k].1 {
                    Some(Some(handle)) => Some(handle),
                    _ => None,
                }
            },
            None => None,
        }
    }

    /// Whether a load should be started for `id`: nothing is loaded for it
    /// and none is in flight.
    pub fn wants(&self, id: EntryId) -> (r: bool)
        ensures
            r == (self.thumb(id) is None && !self.waiting().contains(id)),
    {
        let loaded = match self.slot_of(id) {
            Some(k) => {
                assert(self.thumb(id) == self.drawn@[k as int].1);
                self.drawn[k].1.is_some()
            },
            None => false,
        };
        !loaded && !contains(&self.pending, id)
    }

    /// Notes that a load for `id` is in flight.
    pub fn mark_pending(&mut self, id: EntryId)
        requires
            old(self).wf(),
        ensures
            final(self).wf(),
            final(self).entries() == old(self).entries(),
            final(self).waiting() == if old(self).waiting().contains(id) {
                old(self).waiting()
            } else {
                old(self).waiting().push(id)
            },
    {
        if !contains(&self.pending, id) {
            let ghost prev = self.pending@;
            self.pending.push(id);
            proof {
                assert forall|a: int, b: int| 0 <= a < b < self.pending@.len() implies self.pending@[a]
                    != self.pending@[b] by {
                    if b == prev.len() {
                        assert(prev.contains(self.pending@[a]));
                    }
                }
            }
        }
    }

    /// Takes the entry for `id` out of the drawing order, answering what
    /// was loaded for it.
    fn take_out(&mut self, id: EntryId) -> (r: Option<Option<H>>)
        requires
            old(self).wf(),
        ensures
            final(self).drawn@ == without(old(self).drawn@, id),
            final(self).pending@ == old(self).pending@,
            r == held(old(self).drawn@, id),
    {
        match self.slot_of(id) {
            Some(k) => {
                let (_, loaded) = self.drawn.remove(k);
                loaded
            },
            None => None,
        }
    }

    /// Notes that `id` was drawn, which makes it the last to go.
    pub fn touch(&mut self, id: EntryId)
        requires
            old(self).wf(),
        ensures
            final(self).wf(),
            final(self).entries() == touched(old(self).entries(), id),
            final(self).waiting() == old(self).waiting(),
    {
        proof {
            lemma_without(self.drawn@, id);
        }
        let loaded = self.take_out(id);
        self.drawn.push((id, loaded));
        proof {
            lemma_unique_push(without(old(self).drawn@, id), (id, loaded));
            assert(self.drawn@.drop_last() =~= without(old(self).drawn@, id));
        }
    }

    /// Keeps the thumbnail `handle` for `id` (`None` where the entry has
    /// none), no longer in flight, as the last drawn; the least recently
    /// drawn beyond `CAPACITY` go.
    pub fn insert(&mut self, id: EntryId, handle: Option<H>)
        requires
            old(self).wf(),
        ensures
            final(self).wf(),
            final(self).entries() == inserted(old(self).entries(), id, handle),
            final(self).waiting() == others(old(self).waiting(), id),
    {
        let pending = retain_other(&self.pending, id);
        proof {
            lemma_others(self.pending@, id);
        }
        self.pending = pending;
        proof {
            lemma_without(self.drawn@, id);
        }
        let _ = self.take_out(id);
        self.drawn.push((id, Some(handle)));
        let ghost grown = self.drawn@;
        proof {
            lemma_unique_push(without(old(self).drawn@, id), (id, Some(handle)));
        }
        let mut dropped: usize = 0;
        assert(grown.skip(0) =~= grown);
        let total = self.drawn.len();
        while self.drawn.len() > CAPACITY
            invariant
                self.drawn@ == grown.skip(dropped as int),
                dropped <= excess(grown),
                excess(grown) <= grown.len(),
                grown.len() == total,
                self.pending@ == others(old(self).pending@, id),
                unique(self.pending@),
            decreases self.drawn@.len(),
        {
            self.drawn.remove(0);
            dropped += 1;
            assert(self.drawn@ =~= grown.skip(dropped as int));
        }
        proof {
            lemma_unique_skip(grown, dropped as int);
            lemma_count_bound(self.drawn@);
        }
    }

    /// Forgets every thumbnail and every load in flight.
    pub fn clear(&mut self)
        ensures
            final(self).wf(),
            final(self).entries() == Seq::<Drawn<H>>::empty(),
            final(self).waiting() == Seq::<EntryId>::empty(),
    {
        self.drawn = Vec::new();
        self.pending = Vec::new();
    }

    /// How many thumbnails are loaded: never more than `CAPACITY`.
    pub fn len(&self) -> (r: usize)
        requires
            self.wf(),
        ensures
            r == loaded_count(self.entries()),
            r <= CAPACITY,
    {
        let mut n: usize = 0;
        let mut i: usize = 0;
        while i < self.drawn.len()
            invariant
                i <= self.drawn@.len(),
                n == loaded_count(self.drawn@.take(i as int)),
                loaded_count(self.drawn@) <= CAPACITY,
            decreases self.drawn@.len() - i,
        {
            proof {
                assert(self.drawn@.take(i + 1).drop_last() =~= self.drawn@.take(i as int));
                lemma_count_prefix(self.drawn@, i + 1);
            }
            if self.drawn[i].1.is_some() {
                n += 1;
            }
            i += 1;
        }
        assert(self.drawn@.take(i as int) =~= self.drawn@);
        n
    }

    /// Whether no thumbnail is loaded.
    pub fn is_empty(&self) -> (r: bool)
        requires
            self.wf(),
        ensures
            r == (loaded_count(self.entries()) == 0),
    {
        self.len() == 0
    }
}

proof fn lemma_count_prefix<H>(s: Seq<Drawn<H>>, n: int)
    requires
        0 <= n <= s.len(),
    ensures
        loaded_count(s.take(n)) <= loaded_count(s),
    decreases s.len() - n,
{
    if n < s.len() {
        lemma_count_prefix(s, n + 1);
        assert(s.take(n + 1).drop_last() =~= s.take(n));
    } else {
        assert(s.take(n) =~= s);
    }
}

/// A thumbnail just loaded is kept: it is the last drawn, and only older
/// ones make room for it.
pub proof fn a_new_thumbnail_is_kept<H>(s: Seq<Drawn<H>>, id: EntryId, handle: Option<H>)
    requires
        unique(ids_of(s)),
    ensures
        held(inserted(s, id, handle), id) == Some(handle),
        inserted(s, id, handle).len() <= CAPACITY,
{
    lemma_without(s, id);
    let grown = without(s, id).push((id, Some(handle)));
    lemma_unique_push(without(s, id), (id, Some(handle)));
    let kept = grown.skip(excess(grown));
    lemma_unique_skip(grown, excess(grown));
    lemma_index_unique(kept, kept.len() - 1);
}

/// A full cache makes room by dropping the least recently drawn entry: the
/// others keep their order, the new thumbnail comes last, and the cache
/// stays full.
pub proof fn a_full_cache_drops_the_least_recently_drawn<H>(s: Seq<Drawn<H>>, id: EntryId, handle: Option<H>)
    requires
        unique(ids_of(s)),
        s.len() == CAPACITY,
        index_in(s, id) is None,
    ensures
        inserted(s, id, handle) == s.drop_first().push((id, Some(handle))),
        inserted(s, id, handle).len() == CAPACITY,
        held(inserted(s, id, handle), s[0].0) is None,
        held(inserted(s, id, handle), id) == Some(handle),
{
    lemma_index_in(s, id);
    let grown = s.push((id, Some(handle)));
    assert(without(s, id) == s);
    assert(excess(grown) == 1);
    let kept = grown.skip(1);
    assert(kept =~= s.drop_first().push((id, Some(handle))));
    lemma_unique_push(s, (id, Some(handle)));
    lemma_unique_skip(grown, 1);
    lemma_index_in(kept, s[0].0);
    if index_in(kept, s[0].0) is Some {
        let k = index_in(kept, s[0].0)->0;
        if k < kept.len() - 1 {
            assert(kept[k] == s[k + 1]);
            assert(ids_of(s)[0] != ids_of(s)[k + 1]);
        } else {
            assert(kept[k] == (id, Some(handle)));
            assert(s[0].0 != id);
        }
    }
    lemma_index_unique(kept, kept.len() - 1);
}

/// Drawing an entry again saves it from the next eviction: once touched,
/// the thumbnail of an entry held in a cache within bounds survives the
/// loading of another.
pub proof fn drawing_again_saves_from_eviction<H>(
    s: Seq<Drawn<H>>,
    id: EntryId,
    other: EntryId,
    handle: Option<H>,
)
    requires
        unique(ids_of(s)),
        s.len() <= CAPACITY,
        index_in(s, id) is Some,
        other != id,
    ensures
        held(inserted(touched(s, id), other, handle), id) == held(s, id),
{
    lemma_without(s, id);
    lemma_index_in(s, id);
    let t = touched(s, id);
    lemma_unique_push(without(s, id), (id, held(s, id)));
    assert(t.len() == s.len());
    lemma_without(t, other);
    lemma_index_in(t, other);
    let base = without(t, other);
    let grown = base.push((other, Some(handle)));
    lemma_unique_push(base, (other, Some(handle)));
    // `id` is the last of `t`, and stays just before `other`
    let at = t.len() - 1;
    let pos = if index_in(t, other) is Some {
        at - 1
    } else {
        at
    };
    assert(base[pos] == t[at]) by {
        match index_in(t, other) {
            Some(k) => {
                assert(k != at);
                assert(k < at);
            },
            None => {},
        }
    }
    assert(grown.len() <= CAPACITY + 1);
    let e = excess(grown);
    assert(e <= 1);
    assert(pos >= e) by {
        assert(CAPACITY >= 2);
    }
    let kept = grown.skip(e);
    lemma_unique_skip(grown, e);
    assert(kept[pos - e] == grown[pos]);
    lemma_index_unique(kept, pos - e);
}

} // verus!
