//! What a history row says.

use vstd::prelude::*;

use crate::applet::{shown, visible};
use crate::clip::model::{CaptureState, EntryKind, EntryMeta, Snapshot};
use crate::text::{all_ws, chars_of, is_blank, lines, split_lines, string_of};

verus! {

/// The first line with something other than whitespace on it, or nothing.
pub open spec fn first_filled(lines: Seq<Seq<char>>) -> Seq<char>
    decreases lines.len(),
{
    if lines.len() == 0 {
        seq![]
    } else if !all_ws(lines[0]) {
        lines[0]
    } else {
        first_filled(lines.drop_first())
    }
}

/// The line a row shows of a text: the first that has something on it.
pub fn one_line(text: &str) -> (r: String)
    ensures
        r@ == first_filled(lines(text@)),
{
    let all = split_lines(chars_of(text).as_slice());
    let mut i: usize = 0;
    assert(crate::text::cv(all@).skip(0) =~= crate::text::cv(all@));
    while i < all.len()
        invariant
            i <= all@.len(),
            crate::text::cv(all@) == lines(text@),
            first_filled(crate::text::cv(all@).skip(i as int)) == first_filled(lines(text@)),
        decreases all@.len() - i,
    {
        proof {
            let rest = crate::text::cv(all@).skip(i as int);
            assert(rest[0] == all@[i as int]@);
            assert(rest.drop_first() =~= crate::text::cv(all@).skip(i + 1));
        }
        if !is_blank(all[i].as_slice()) {
            return string_of(all[i].as_slice());
        }
        i += 1;
    }
    assert(crate::text::cv(all@).skip(i as int) =~= Seq::<Seq<char>>::empty());
    string_of(Vec::<char>::new().as_slice())
}

/// What a row is labelled with: an image by its size, put into words by
/// the page; anything else by the first line of its preview.
#[derive(Clone, Debug, PartialEq, Eq)]
pub enum RowLabel {
    Image { width: u32, height: u32 },
    Text(String),
}

/// The label of a row.
pub fn label(entry: &EntryMeta) -> (r: RowLabel)
    ensures
        match (entry.kind, entry.image_size) {
            (EntryKind::Image, Some((w, h))) => r == RowLabel::Image { width: w, height: h },
            _ => r matches RowLabel::Text(t) && t@ == first_filled(lines(entry.preview@)),
        },
{
    match (entry.kind, entry.image_size) {
        (EntryKind::Image, Some((width, height))) => RowLabel::Image { width, height },
        _ => RowLabel::Text(one_line(entry.label())),
    }
}


/// What the list page says where nothing is listed.
#[derive(Clone, Copy, Debug, PartialEq, Eq, Structural)]
pub enum Empty {
    /// The history holds nothing yet.
    History,
    /// Nothing matches the search.
    NoResults,
}

/// How the list page is laid out.
#[derive(Clone, Debug, PartialEq, Eq)]
pub struct HistoryPage {
    /// Why capture is not running, shown above the list where it is not.
    pub notice: Option<String>,
    /// The pinned rows listed, by their place in the snapshot, in order.
    pub pinned: Vec<usize>,
    /// The other rows listed, in order.
    pub recent: Vec<usize>,
    /// What the page says where nothing is listed.
    pub empty: Option<Empty>,
    /// Whether the clear button is live: the history holds something that
    /// is not pinned.
    pub can_clear: bool,
    /// Whether the search field offers to empty itself.
    pub can_reset_search: bool,
}

/// The rows of `rows` whose entries are pinned (`pinned`) or not, in order.
pub open spec fn rows_where(entries: Seq<EntryMeta>, rows: Seq<usize>, pinned: bool) -> Seq<usize>
    decreases rows.len(),
{
    if rows.len() == 0 {
        seq![]
    } else {
        let rest = rows_where(entries, rows.drop_last(), pinned);
        if (entries[rows.last() as int].pinned is Some) == pinned {
            rest.push(rows.last())
        } else {
            rest
        }
    }
}

/// Whether the history holds an entry that is not pinned.
pub open spec fn any_unpinned(entries: Seq<EntryMeta>) -> bool {
    exists|i: int| 0 <= i < entries.len() && (#[trigger] entries[i]).pinned is None
}

/// The list page for `snapshot` searched for `query`: the notice of a
/// capture that is unavailable; the listed rows, pins in a section of
/// their own above the rest; what is said where nothing is listed (that the
/// history is empty, or that nothing matches a search); whether there is
/// anything for the clear button; whether the search can be emptied.
pub fn history_page(snapshot: &Snapshot, query: &str) -> (r: HistoryPage)
    ensures
        match snapshot.capture {
            CaptureState::Unavailable { reason } => r.notice matches Some(n) && n@ == reason@,
            _ => r.notice is None,
        },
        r.pinned@ == rows_where(snapshot.entries@, shown(snapshot.entries@, query@), true),
        r.recent@ == rows_where(snapshot.entries@, shown(snapshot.entries@, query@), false),
        r.empty == if shown(snapshot.entries@, query@).len() > 0 {
            None
        } else if query@.len() == 0 {
            Some(Empty::History)
        } else {
            Some(Empty::NoResults)
        },
        r.can_clear == any_unpinned(snapshot.entries@),
        r.can_reset_search == (query@.len() > 0),
{
    let entries: &[EntryMeta] = &snapshot.entries;
    let notice = match &snapshot.capture {
        CaptureState::Unavailable { reason } => Some(reason.clone()),
        _ => None,
    };
    let rows = visible(entries, query);
    let count = entries.len();
    proof {
        assert(crate::applet::labels(entries@).len() == count);
        crate::clip::search::matches_keep_their_place(
            crate::applet::labels(entries@),
            crate::clip::search::needle_of(query@),
        );
    }
    let mut pinned: Vec<usize> = Vec::new();
    let mut recent: Vec<usize> = Vec::new();
    let mut i: usize = 0;
    while i < rows.len()
        invariant
            i <= rows@.len(),
            rows@ == shown(entries@, query@),
            forall|k: int| 0 <= k < rows@.len() ==> (#[trigger] rows@[k] as int) < entries@.len(),
            pinned@ == rows_where(entries@, rows@.take(i as int), true),
            recent@ == rows_where(entries@, rows@.take(i as int), false),
        decreases rows@.len() - i,
    {
        proof {
            assert(rows@.take(i + 1).drop_last() =~= rows@.take(i as int));
            assert(rows@.take(i + 1).last() == rows@[i as int]);
        }
        let row = rows[i];
        if entries[row].pinned.is_some() {
            pinned.push(row);
        } else {
            recent.push(row);
        }
        i += 1;
    }
    assert(rows@.take(i as int) =~= rows@);
    let searching = chars_of(query).len() > 0;
    let empty = if rows.len() > 0 {
        None
    } else if !searching {
        Some(Empty::History)
    } else {
        Some(Empty::NoResults)
    };
    let mut can_clear = false;
    let mut j: usize = 0;
    while j < entries.len()
        invariant
            j <= entries@.len(),
            can_clear == exists|k: int| 0 <= k < j && (#[trigger] entries@[k]).pinned is None,
        decreases entries@.len() - j,
    {
        if entries[j].pinned.is_none() {
            can_clear = true;
        }
        j += 1;
    }
    HistoryPage { notice, pinned, recent, empty, can_clear, can_reset_search: searching }
}


/// Every listed row stands in exactly one section: the pinned section holds
/// pins only, the other section no pin, and the two together hold as many
/// rows as are listed.
pub proof fn every_row_has_one_section(entries: Seq<EntryMeta>, rows: Seq<usize>)
    ensures
        rows_where(entries, rows, true).len() + rows_where(entries, rows, false).len() == rows.len(),
        forall|k: int|
            0 <= k < rows_where(entries, rows, true).len() ==> entries[#[trigger] rows_where(
                entries,
                rows,
                true,
            )[k] as int].pinned is Some,
        forall|k: int|
            0 <= k < rows_where(entries, rows, false).len() ==> entries[#[trigger] rows_where(
                entries,
                rows,
                false,
            )[k] as int].pinned is None,
    decreases rows.len(),
{
    if rows.len() > 0 {
        every_row_has_one_section(entries, rows.drop_last());
        let p = rows_where(entries, rows.drop_last(), true);
        let q = rows_where(entries, rows.drop_last(), false);
        assert forall|k: int| 0 <= k < rows_where(entries, rows, true).len() implies entries[
            #[trigger] rows_where(entries, rows, true)[k] as int].pinned is Some by {
            if k < p.len() {
                assert(rows_where(entries, rows, true)[k] == p[k]);
            }
        }
        assert forall|k: int| 0 <= k < rows_where(entries, rows, false).len() implies entries[
            #[trigger] rows_where(entries, rows, false)[k] as int].pinned is None by {
            if k < q.len() {
                assert(rows_where(entries, rows, false)[k] == q[k]);
            }
        }
    }
}

} // verus!
