//! Finding history rows by what they say.

use vstd::prelude::*;

use crate::text::{chars_of, contains, trim, trimmed};

verus! {

/// What `str::to_lowercase` makes of `s`.
pub uninterp spec fn lowercase_of(s: Seq<char>) -> Seq<char>;

/// `str::to_lowercase`, in characters: the contract names its result, and
/// takes from the documentation that the empty string stays empty.
#[verifier::external_body]
fn lowercase(s: &str) -> (r: Vec<char>)
    ensures
        r@ == lowercase_of(s@),
        s@.len() == 0 ==> r@.len() == 0,
{
    s.to_lowercase().chars().collect()
}

/// Whether a row reading `text` matches the lowered, trimmed `needle`.
pub open spec fn matches(text: Seq<char>, needle: Seq<char>) -> bool {
    needle.len() == 0 || contains(lowercase_of(text), needle)
}

/// The query as it is matched: trimmed, then lowered.
pub open spec fn needle_of(query: Seq<char>) -> Seq<char> {
    lowercase_of(trim(query))
}

/// The indices of the rows that match, in order.
pub open spec fn matching(rows: Seq<Seq<char>>, needle: Seq<char>) -> Seq<usize>
    decreases rows.len(),
{
    if rows.len() == 0 {
        seq![]
    } else {
        let earlier = matching(rows.drop_last(), needle);
        if matches(rows.last(), needle) {
            earlier.push((rows.len() - 1) as usize)
        } else {
            earlier
        }
    }
}

/// The views of a sequence of string slices.
pub open spec fn str_views(rows: Seq<&str>) -> Seq<Seq<char>> {
    rows.map_values(|s: &str| s@)
}

fn holds_run(hay: &[char], needle: &[char]) -> (r: bool)
    ensures
        r == contains(hay@, needle@),
{
    if needle.len() > hay.len() {
        return false;
    }
    let last = hay.len() - needle.len();
    let mut i: usize = 0;
    while i <= last
        invariant
            last == hay.len() - needle.len(),
            i <= last + 1,
            forall|k: int| 0 <= k < i ==> #[trigger] hay@.subrange(k, k + needle@.len()) != needle@,
        decreases last + 1 - i,
    {
        let mut j: usize = 0;
        while j < needle.len() && hay[i + j] == needle[j]
            invariant
                i <= last,
                last == hay.len() - needle.len(),
                j <= needle.len(),
                forall|m: int| 0 <= m < j ==> hay@[i + m] == needle@[m],
            decreases needle.len() - j,
        {
            j += 1;
        }
        if j == needle.len() {
            assert(hay@.subrange(i as int, i + needle@.len()) =~= needle@);
            return true;
        }
        assert(hay@.subrange(i as int, i + needle@.len())[j as int] != needle@[j as int]);
        i += 1;
    }
    false
}

/// The indices of the rows whose text holds the query, ignoring case on
/// both sides; a query of only whitespace keeps every row. The matches
/// keep their place in the history.
pub fn filter(haystacks: &[&str], query: &str) -> (r: Vec<usize>)
    ensures
        r@ == matching(str_views(haystacks@), needle_of(query@)),
        trim(query@).len() == 0 ==> r@ == Seq::new(haystacks@.len(), |i: int| i as usize),
{
    let q = trimmed(chars_of(query).as_slice());
    let needle = lowercase(crate::text::string_of(q.as_slice()).as_str());
    let mut out: Vec<usize> = Vec::new();
    let mut i: usize = 0;
    while i < haystacks.len()
        invariant
            i <= haystacks.len(),
            needle@ == needle_of(query@),
            out@ == matching(str_views(haystacks@).take(i as int), needle_of(query@)),
            needle@.len() == 0 ==> out@ == Seq::new(i as nat, |k: int| k as usize),
        decreases haystacks.len() - i,
    {
        proof {
            assert(str_views(haystacks@).take(i + 1).drop_last() =~= str_views(haystacks@).take(i as int));
            assert(str_views(haystacks@).take(i + 1).last() == haystacks@[i as int]@);
        }
        let keep = needle.len() == 0 || holds_run(lowercase(haystacks[i]).as_slice(), needle.as_slice());
        if keep {
            out.push(i);
        }
        proof {
            if needle@.len() == 0 {
                assert(out@ =~= Seq::new((i + 1) as nat, |k: int| k as usize));
            }
        }
        i += 1;
    }
    assert(str_views(haystacks@).take(i as int) =~= str_views(haystacks@));
    out
}

/// The matches are in ascending order, each the index of a row that matches.
pub proof fn matches_keep_their_place(rows: Seq<Seq<char>>, needle: Seq<char>)
    requires
        rows.len() <= usize::MAX,
    ensures
        forall|a: int, b: int|
            0 <= a < b < matching(rows, needle).len() ==> matching(rows, needle)[a] < matching(
                rows,
                needle,
            )[b],
        forall|a: int|
            0 <= a < matching(rows, needle).len() ==> (matching(rows, needle)[a] as int)
                < rows.len() && matches(rows[matching(rows, needle)[a] as int], needle),
    decreases rows.len(),
{
    if rows.len() > 0 {
        let prefix = rows.drop_last();
        matches_keep_their_place(prefix, needle);
        let earlier = matching(prefix, needle);
        let all = matching(rows, needle);
        assert forall|a: int| 0 <= a < earlier.len() implies (earlier[a] as int) < rows.len() - 1
            && rows[earlier[a] as int] == prefix[earlier[a] as int] by {
        }
        if matches(rows.last(), needle) {
            assert(((rows.len() - 1) as usize) as int == rows.len() - 1);
            assert(all == earlier.push((rows.len() - 1) as usize));
            assert forall|a: int, b: int| 0 <= a < b < all.len() implies all[a] < all[b] by {
                if b < earlier.len() {
                    assert(all[a] == earlier[a] && all[b] == earlier[b]);
                }
            }
            assert forall|a: int| 0 <= a < all.len() implies (all[a] as int) < rows.len() && matches(
                rows[all[a] as int],
                needle,
            ) by {
                if a < earlier.len() {
                    assert(all[a] == earlier[a]);
                }
            }
        } else {
            assert(all == earlier);
        }
    }
}

/// A row is found exactly when the needle is empty or occurs somewhere in
/// the lowered text of the row, at any position, whatever lines the row
/// holds.
pub proof fn a_row_is_found_wherever_the_needle_occurs(rows: Seq<Seq<char>>, needle: Seq<char>, i: int)
    requires
        rows.len() <= usize::MAX,
        0 <= i < rows.len(),
    ensures
        matching(rows, needle).contains(i as usize) <==> (needle.len() == 0 || exists|k: int|
            0 <= k && k + needle.len() <= lowercase_of(rows[i]).len() && #[trigger] lowercase_of(rows[i]).subrange(
                k,
                k + needle.len(),
            ) == needle),
    decreases rows.len(),
{
    matches_keep_their_place(rows, needle);
    let all = matching(rows, needle);
    let prefix = rows.drop_last();
    let earlier = matching(prefix, needle);
    let last = rows.len() - 1;
    if i < last {
        a_row_is_found_wherever_the_needle_occurs(prefix, needle, i);
        assert(prefix[i] == rows[i]);
        matches_keep_their_place(prefix, needle);
        if earlier.contains(i as usize) {
            let a = choose|a: int| 0 <= a < earlier.len() && earlier[a] == i as usize;
            assert(all[a] == earlier[a]);
            assert(all.contains(i as usize));
        }
        if all.contains(i as usize) {
            let a = choose|a: int| 0 <= a < all.len() && all[a] == i as usize;
            if a < earlier.len() {
                assert(all[a] == earlier[a]);
                assert(earlier.contains(i as usize));
            } else {
                assert(all[a] as int == last);
            }
        }
    } else {
        if matches(rows.last(), needle) {
            assert(all[all.len() - 1] == i as usize);
            assert(all.contains(i as usize));
        } else {
            assert(all == earlier);
            if all.contains(i as usize) {
                let a = choose|a: int| 0 <= a < all.len() && all[a] == i as usize;
                assert(matches(rows[all[a] as int], needle));
            }
        }
    }
}

/// An empty needle keeps every row, in order.
pub proof fn an_empty_needle_keeps_everything(rows: Seq<Seq<char>>, needle: Seq<char>)
    requires
        rows.len() <= usize::MAX,
        needle.len() == 0,
    ensures
        matching(rows, needle) == Seq::new(rows.len(), |i: int| i as usize),
    decreases rows.len(),
{
    if rows.len() > 0 {
        an_empty_needle_keeps_everything(rows.drop_last(), needle);
        assert(matching(rows, needle) =~= Seq::new(rows.len(), |i: int| i as usize));
    }
}

} // verus!
