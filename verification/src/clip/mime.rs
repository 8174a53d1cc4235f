//! Which of the flavours a selection offers are worth keeping, and which
//! spellings of plain text a restored entry should answer to.

use vstd::prelude::*;

use super::model::EntryKind;
use crate::text::{
    base_of, chars_of, chars_of_all, cv, eq_ci, eq_ignore_case, equal, mime_base, slice_range,
    strings_of_all, views,
};

verus! {

/// The most flavours kept beside the plain text.
pub const MAX_EXTRA_FLAVORS: usize = 4;

/// The target a password manager offers to mark a copy as secret.
pub const PASSWORD_HINT: &'static str = "x-kde-passwordManagerHint";

/// The value of that target that marks a secret.
pub const PASSWORD_HINT_SECRET: &'static str = "secret";

/// The spellings of plain text, best encoding first.
pub open spec fn text_mimes() -> Seq<Seq<char>> {
    seq![
        "text/plain;charset=utf-8"@,
        "text/plain;charset=UTF-8"@,
        "UTF8_STRING"@,
        "text/plain"@,
        "STRING"@,
        "TEXT"@,
    ]
}

/// The rich text flavours, in the order they are kept.
pub open spec fn rich_order() -> Seq<Seq<char>> {
    seq!["text/html"@, "text/rtf"@, "application/rtf"@, "text/richtext"@, "text/markdown"@, "text/csv"@]
}

/// The image formats, best first.
pub open spec fn image_mimes() -> Seq<Seq<char>> {
    seq!["image/png"@, "image/jpeg"@, "image/bmp"@, "image/gif"@]
}

/// The file list format.
pub open spec fn file_mimes() -> Seq<Seq<char>> {
    seq!["text/uri-list"@]
}

pub(crate) fn text_mimes_exec() -> (r: Vec<Vec<char>>)
    ensures
        cv(r@) == text_mimes(),
{
    let r = vec![
        chars_of("text/plain;charset=utf-8"),
        chars_of("text/plain;charset=UTF-8"),
        chars_of("UTF8_STRING"),
        chars_of("text/plain"),
        chars_of("STRING"),
        chars_of("TEXT"),
    ];
    assert(cv(r@) =~= text_mimes());
    r
}

fn rich_order_exec() -> (r: Vec<Vec<char>>)
    ensures
        cv(r@) == rich_order(),
{
    let r = vec![
        chars_of("text/html"),
        chars_of("text/rtf"),
        chars_of("application/rtf"),
        chars_of("text/richtext"),
        chars_of("text/markdown"),
        chars_of("text/csv"),
    ];
    assert(cv(r@) =~= rich_order());
    r
}

fn image_mimes_exec() -> (r: Vec<Vec<char>>)
    ensures
        cv(r@) == image_mimes(),
{
    let r = vec![
        chars_of("image/png"),
        chars_of("image/jpeg"),
        chars_of("image/bmp"),
        chars_of("image/gif"),
    ];
    assert(cv(r@) =~= image_mimes());
    r
}

pub(crate) fn file_mimes_exec() -> (r: Vec<Vec<char>>)
    ensures
        cv(r@) == file_mimes(),
{
    let r = vec![chars_of("text/uri-list")];
    assert(cv(r@) =~= file_mimes());
    r
}

/// What a selection is worth reading: its kind, the flavours to read in
/// order, and whether it carries a password manager's hint.
#[derive(Clone, Debug, PartialEq, Eq)]
pub struct Wanted {
    pub kind: EntryKind,
    pub mimes: Vec<String>,
    pub password_hint: bool,
}

/// Whether some item of `list` equals `m` ignoring ASCII case.
pub open spec fn any_ci(list: Seq<Seq<char>>, m: Seq<char>) -> bool {
    exists|i: int| 0 <= i < list.len() && #[trigger] eq_ci(list[i], m)
}

/// `i` is the first index whose item equals `m` ignoring ASCII case.
pub open spec fn is_first_ci(list: Seq<Seq<char>>, m: Seq<char>, i: int) -> bool {
    &&& 0 <= i < list.len()
    &&& eq_ci(list[i], m)
    &&& forall|j: int| 0 <= j < i ==> !#[trigger] eq_ci(list[j], m)
}

/// The first item of `list` that equals `m` ignoring ASCII case.
pub open spec fn first_ci(list: Seq<Seq<char>>, m: Seq<char>) -> Option<Seq<char>> {
    if any_ci(list, m) {
        Some(list[choose|i: int| is_first_ci(list, m, i)])
    } else {
        None
    }
}

/// Of the `candidates` in order, the first that is offered, spelled as offered.
pub open spec fn first_of(offered: Seq<Seq<char>>, candidates: Seq<Seq<char>>) -> Option<Seq<char>>
    decreases candidates.len(),
{
    if candidates.len() == 0 {
        None
    } else if any_ci(offered, candidates[0]) {
        first_ci(offered, candidates[0])
    } else {
        first_of(offered, candidates.drop_first())
    }
}

/// The subtype of a `text/...` type.
pub open spec fn text_subtype(mime: Seq<char>) -> Option<Seq<char>> {
    if mime.len() >= 5 && eq_ci(mime.take(5), "text/"@) {
        Some(mime.skip(5))
    } else {
        None
    }
}

/// A subtype an application keeps for itself.
pub open spec fn is_private_subtype(subtype: Seq<char>) -> bool {
    ||| subtype.len() > 0 && subtype[0] == '_'
    ||| subtype.len() >= 6 && eq_ci(subtype.take(6), "x-moz-"@)
}

/// Some spelling of plain text.
pub open spec fn is_plain_text(mime: Seq<char>) -> bool {
    any_ci(text_mimes(), mime) || eq_ci(mime_base(mime), "text/plain"@)
}

/// A text flavour worth keeping beside the plain one.
pub open spec fn is_extra_text(mime: Seq<char>, primary: Seq<char>) -> bool {
    let base = mime_base(mime);
    &&& !eq_ci(mime, primary)
    &&& !is_plain_text(mime)
    &&& (eq_ci(base, "application/rtf"@) || match text_subtype(base) {
        Some(subtype) => !is_private_subtype(subtype),
        None => false,
    })
}

/// The offered flavours, in order, that are worth keeping beside `primary`.
pub open spec fn extra_candidates(offered: Seq<Seq<char>>, primary: Seq<char>) -> Seq<Seq<char>>
    decreases offered.len(),
{
    if offered.len() == 0 {
        seq![]
    } else {
        let rest = extra_candidates(offered.drop_last(), primary);
        if is_extra_text(offered.last(), primary) {
            rest.push(offered.last())
        } else {
            rest
        }
    }
}

/// `chosen` with `m` added at the end unless some spelling of it is there.
pub open spec fn push_once(chosen: Seq<Seq<char>>, m: Seq<char>) -> Seq<Seq<char>> {
    if any_ci(chosen, m) {
        chosen
    } else {
        chosen.push(m)
    }
}

/// Each of `ms` in turn added to `chosen` once.
pub open spec fn push_all_once(chosen: Seq<Seq<char>>, ms: Seq<Seq<char>>) -> Seq<Seq<char>>
    decreases ms.len(),
{
    if ms.len() == 0 {
        chosen
    } else {
        push_once(push_all_once(chosen, ms.drop_last()), ms.last())
    }
}

/// The well-known rich flavours among `wanted`, in the order of `order`.
pub open spec fn rich_first(wanted: Seq<Seq<char>>, order: Seq<Seq<char>>) -> Seq<Seq<char>>
    decreases order.len(),
{
    if order.len() == 0 {
        seq![]
    } else {
        let chosen = rich_first(wanted, order.drop_last());
        match first_ci(wanted, order.last()) {
            Some(m) => push_once(chosen, m),
            None => chosen,
        }
    }
}

/// The flavours kept beside the plain text `primary`: the well-known rich
/// ones first, the rest as offered, each once, at most `MAX_EXTRA_FLAVORS`.
pub open spec fn extras(offered: Seq<Seq<char>>, primary: Seq<char>) -> Seq<Seq<char>> {
    let wanted = extra_candidates(offered, primary);
    let chosen = push_all_once(rich_first(wanted, rich_order()), wanted);
    if chosen.len() > MAX_EXTRA_FLAVORS {
        chosen.take(MAX_EXTRA_FLAVORS as int)
    } else {
        chosen
    }
}

/// What `choose_mimes` picks: an image if one is offered (and images are kept),
/// else a file list, else the best plain text with its extra flavours.
pub open spec fn choice(offered: Seq<Seq<char>>, capture_images: bool) -> Option<
    (EntryKind, Seq<Seq<char>>),
> {
    match first_of(offered, image_mimes()) {
        Some(image) => if capture_images {
            Some((EntryKind::Image, seq![image]))
        } else {
            None
        },
        None => match first_of(offered, file_mimes()) {
            Some(files) => Some((EntryKind::Files, seq![files])),
            None => match first_of(offered, text_mimes()) {
                Some(text) => Some((EntryKind::Text, seq![text] + extras(offered, text))),
                None => None,
            },
        },
    }
}

/// The spellings of plain text a destination may ask for that `offered`
/// lacks, when the entry is plain text.
pub open spec fn aliases(offered: Seq<Seq<char>>) -> Seq<Seq<char>> {
    if offered.len() == 0 || !is_plain_text(offered[0]) {
        seq![]
    } else {
        missing_aliases(offered, text_mimes())
    }
}

/// Each of `names` that `offered` lacks, once.
pub open spec fn missing_aliases(offered: Seq<Seq<char>>, names: Seq<Seq<char>>) -> Seq<
    Seq<char>,
>
    decreases names.len(),
{
    if names.len() == 0 {
        seq![]
    } else {
        let chosen = missing_aliases(offered, names.drop_last());
        if any_ci(offered, names.last()) {
            chosen
        } else {
            push_once(chosen, names.last())
        }
    }
}

proof fn lemma_first_unique(list: Seq<Seq<char>>, m: Seq<char>, i: int, k: int)
    requires
        is_first_ci(list, m, i),
        is_first_ci(list, m, k),
    ensures
        i == k,
{
    if i < k {
        assert(eq_ci(list[i], m));
    } else if k < i {
        assert(eq_ci(list[k], m));
    }
}

/// Where some item of `list` matches `m`, a first one does.
proof fn lemma_first_exists(list: Seq<Seq<char>>, m: Seq<char>)
    requires
        any_ci(list, m),
    ensures
        exists|i: int| is_first_ci(list, m, i),
    decreases list.len(),
{
    let init = list.drop_last();
    if any_ci(init, m) {
        lemma_first_exists(init, m);
        let i = choose|i: int| is_first_ci(init, m, i);
        assert forall|j: int| 0 <= j < i implies !#[trigger] eq_ci(list[j], m) by {
            assert(list[j] == init[j]);
        }
        assert(list[i] == init[i]);
        assert(is_first_ci(list, m, i));
    } else {
        let k = choose|k: int| 0 <= k < list.len() && #[trigger] eq_ci(list[k], m);
        if k < list.len() - 1 {
            assert(init[k] == list[k]);
            assert(eq_ci(init[k], m));
        }
        assert forall|j: int| 0 <= j < list.len() - 1 implies !#[trigger] eq_ci(list[j], m) by {
            assert(list[j] == init[j]);
            if eq_ci(list[j], m) {
                assert(eq_ci(init[j], m));
            }
        }
        assert(is_first_ci(list, m, list.len() - 1));
    }
}

/// What `first_ci` finds is an item of the list that matches.
proof fn lemma_first_ci_found(list: Seq<Seq<char>>, m: Seq<char>)
    requires
        first_ci(list, m) is Some,
    ensures
        list.contains(first_ci(list, m).unwrap()),
        eq_ci(first_ci(list, m).unwrap(), m),
{
    lemma_first_exists(list, m);
    let i = choose|i: int| is_first_ci(list, m, i);
    assert(list[i] == first_ci(list, m).unwrap());
}

/// What `first_of` finds is offered, and matches one of the candidates.
proof fn lemma_first_of_found(offered: Seq<Seq<char>>, candidates: Seq<Seq<char>>)
    requires
        first_of(offered, candidates) is Some,
    ensures
        offered.contains(first_of(offered, candidates).unwrap()),
        any_ci(candidates, first_of(offered, candidates).unwrap()),
    decreases candidates.len(),
{
    let found = first_of(offered, candidates).unwrap();
    if any_ci(offered, candidates[0]) {
        lemma_first_ci_found(offered, candidates[0]);
        assert(eq_ci(candidates[0], found));
    } else {
        lemma_first_of_found(offered, candidates.drop_first());
        let k = choose|k: int| 0 <= k < candidates.drop_first().len() && #[trigger] eq_ci(
            candidates.drop_first()[k],
            found,
        );
        assert(candidates[k + 1] == candidates.drop_first()[k]);
    }
}

/// The candidates beside the plain text are offered, and none is plain text.
proof fn lemma_candidates(offered: Seq<Seq<char>>, primary: Seq<char>)
    ensures
        forall|k: int|
            0 <= k < extra_candidates(offered, primary).len() ==> offered.contains(
                #[trigger] extra_candidates(offered, primary)[k],
            ) && is_extra_text(extra_candidates(offered, primary)[k], primary),
    decreases offered.len(),
{
    if offered.len() > 0 {
        let init = offered.drop_last();
        lemma_candidates(init, primary);
        let rest = extra_candidates(init, primary);
        assert forall|k: int| 0 <= k < extra_candidates(offered, primary).len() implies offered.contains(
            #[trigger] extra_candidates(offered, primary)[k],
        ) && is_extra_text(extra_candidates(offered, primary)[k], primary) by {
            if k < rest.len() {
                assert(extra_candidates(offered, primary)[k] == rest[k]);
                let j = choose|j: int| 0 <= j < init.len() && init[j] == rest[k];
                assert(offered[j] == init[j]);
            } else {
                assert(offered[offered.len() - 1] == offered.last());
            }
        }
    }
}

/// Adding once keeps what was chosen and adds only `m`.
proof fn lemma_push_once(chosen: Seq<Seq<char>>, m: Seq<char>, pool: Seq<Seq<char>>)
    requires
        forall|k: int| 0 <= k < chosen.len() ==> pool.contains(#[trigger] chosen[k]),
        pool.contains(m),
    ensures
        forall|k: int| 0 <= k < push_once(chosen, m).len() ==> pool.contains(#[trigger] push_once(chosen, m)[k]),
{
    assert forall|k: int| 0 <= k < push_once(chosen, m).len() implies pool.contains(
        #[trigger] push_once(chosen, m)[k],
    ) by {
        if k < chosen.len() {
            assert(push_once(chosen, m)[k] == chosen[k]);
        }
    }
}

/// Adding all of `ms` once takes nothing from outside `pool`.
proof fn lemma_push_all_once(chosen: Seq<Seq<char>>, ms: Seq<Seq<char>>, pool: Seq<Seq<char>>)
    requires
        forall|k: int| 0 <= k < chosen.len() ==> pool.contains(#[trigger] chosen[k]),
        forall|k: int| 0 <= k < ms.len() ==> pool.contains(#[trigger] ms[k]),
    ensures
        forall|k: int|
            0 <= k < push_all_once(chosen, ms).len() ==> pool.contains(#[trigger] push_all_once(chosen, ms)[k]),
    decreases ms.len(),
{
    if ms.len() > 0 {
        assert forall|k: int| 0 <= k < ms.drop_last().len() implies pool.contains(#[trigger] ms.drop_last()[k]) by {
            assert(ms.drop_last()[k] == ms[k]);
        }
        lemma_push_all_once(chosen, ms.drop_last(), pool);
        assert(pool.contains(ms[ms.len() - 1]));
        lemma_push_once(push_all_once(chosen, ms.drop_last()), ms.last(), pool);
    }
}

/// The well-known rich flavours are picked from `wanted`.
proof fn lemma_rich_first(wanted: Seq<Seq<char>>, order: Seq<Seq<char>>)
    ensures
        forall|k: int| 0 <= k < rich_first(wanted, order).len() ==> wanted.contains(#[trigger] rich_first(wanted, order)[k]),
    decreases order.len(),
{
    if order.len() > 0 {
        lemma_rich_first(wanted, order.drop_last());
        let chosen = rich_first(wanted, order.drop_last());
        if first_ci(wanted, order.last()) is Some {
            lemma_first_ci_found(wanted, order.last());
            lemma_push_once(chosen, first_ci(wanted, order.last()).unwrap(), wanted);
        }
    }
}

/// A text copy keeps the best spelling of plain text first, then at most
/// `MAX_EXTRA_FLAVORS` other flavours, none of them a spelling of plain
/// text; each is a flavour the source offered, spelled as offered.
pub proof fn a_text_copy_keeps_plain_text_first(offered: Seq<Seq<char>>, capture_images: bool)
    requires
        choice(offered, capture_images) matches Some((kind, _)) && kind == EntryKind::Text,
    ensures
        ({
            let mimes = choice(offered, capture_images).unwrap().1;
            &&& 1 <= mimes.len() <= 1 + MAX_EXTRA_FLAVORS
            &&& is_plain_text(mimes[0])
            &&& forall|k: int| 0 <= k < mimes.len() ==> offered.contains(#[trigger] mimes[k])
            &&& forall|k: int| 1 <= k < mimes.len() ==> !is_plain_text(#[trigger] mimes[k])
        }),
{
    let text = first_of(offered, text_mimes()).unwrap();
    lemma_first_of_found(offered, text_mimes());
    let wanted = extra_candidates(offered, text);
    lemma_candidates(offered, text);
    assert forall|k: int| 0 <= k < wanted.len() implies wanted.contains(#[trigger] wanted[k]) by {}
    lemma_rich_first(wanted, rich_order());
    lemma_push_all_once(rich_first(wanted, rich_order()), wanted, wanted);
    let chosen = push_all_once(rich_first(wanted, rich_order()), wanted);
    let kept = extras(offered, text);
    assert forall|k: int| 0 <= k < kept.len() implies wanted.contains(#[trigger] kept[k]) by {
        assert(kept[k] == chosen[k]);
    }
    let mimes = seq![text] + kept;
    assert(mimes == choice(offered, capture_images).unwrap().1);
    assert forall|k: int| 0 <= k < mimes.len() implies offered.contains(#[trigger] mimes[k]) by {
        if k > 0 {
            assert(mimes[k] == kept[k - 1]);
            assert(wanted.contains(kept[k - 1]));
            let j = choose|j: int| 0 <= j < wanted.len() && wanted[j] == kept[k - 1];
            assert(offered.contains(wanted[j]));
        }
    }
    assert forall|k: int| 1 <= k < mimes.len() implies !is_plain_text(#[trigger] mimes[k]) by {
        assert(mimes[k] == kept[k - 1]);
        assert(wanted.contains(kept[k - 1]));
        let j = choose|j: int| 0 <= j < wanted.len() && wanted[j] == kept[k - 1];
        assert(is_extra_text(wanted[j], text));
    }
}

/// The index of the first item of `list` equal to `m` ignoring ASCII case.
pub(crate) fn find_ci(list: &[Vec<char>], m: &[char]) -> (r: Option<usize>)
    ensures
        match r {
            Some(i) => is_first_ci(cv(list@), m@, i as int) && first_ci(cv(list@), m@) == Some(
                list@[i as int]@,
            ),
            None => !any_ci(cv(list@), m@) && first_ci(cv(list@), m@) is None,
        },
{
    let mut i: usize = 0;
    while i < list.len()
        invariant
            i <= list.len(),
            forall|j: int| 0 <= j < i ==> !#[trigger] eq_ci(cv(list@)[j], m@),
        decreases list.len() - i,
    {
        if eq_ignore_case(list[i].as_slice(), m) {
            proof {
                assert(cv(list@)[i as int] == list@[i as int]@);
                assert(is_first_ci(cv(list@), m@, i as int));
                let k = choose|k: int| is_first_ci(cv(list@), m@, k);
                lemma_first_unique(cv(list@), m@, i as int, k);
            }
            return Some(i);
        }
        assert(cv(list@)[i as int] == list@[i as int]@);
        i += 1;
    }
    None
}

/// Whether some item of `list` equals `m` exactly.
fn holds(list: &[Vec<char>], m: &[char]) -> (r: bool)
    ensures
        r == cv(list@).contains(m@),
{
    let mut i: usize = 0;
    while i < list.len()
        invariant
            i <= list.len(),
            forall|j: int| 0 <= j < i ==> cv(list@)[j] != m@,
        decreases list.len() - i,
    {
        if equal(list[i].as_slice(), m) {
            assert(cv(list@)[i as int] == m@);
            return true;
        }
        i += 1;
    }
    false
}

/// Adds `m` to `chosen` unless some spelling of it is already there.
fn add_once(chosen: &mut Vec<Vec<char>>, m: &[char])
    ensures
        cv(final(chosen)@) == push_once(cv(old(chosen)@), m@),
{
    let found = find_ci(chosen.as_slice(), m);
    if found.is_none() {
        let ghost before = chosen@;
        chosen.push(slice_range(m, 0, m.len()));
        proof {
            assert(m@.subrange(0, m@.len() as int) =~= m@);
            assert(cv(chosen@) =~= cv(before).push(m@));
        }
    }
}

/// Of the `candidates` in order, the first that is offered, spelled as offered.
fn first_offered(offered: &[Vec<char>], candidates: &[Vec<char>]) -> (r: Option<Vec<char>>)
    ensures
        match r {
            Some(m) => first_of(cv(offered@), cv(candidates@)) == Some(m@),
            None => first_of(cv(offered@), cv(candidates@)) is None,
        },
{
    let mut k: usize = 0;
    assert(cv(candidates@).skip(0) =~= cv(candidates@));
    while k < candidates.len()
        invariant
            k <= candidates.len(),
            first_of(cv(offered@), cv(candidates@)) == first_of(
                cv(offered@),
                cv(candidates@).skip(k as int),
            ),
        decreases candidates.len() - k,
    {
        let ghost rest = cv(candidates@).skip(k as int);
        assert(rest[0] == candidates@[k as int]@);
        assert(rest.drop_first() =~= cv(candidates@).skip(k + 1));
        match find_ci(offered, candidates[k].as_slice()) {
            Some(i) => {
                proof {
                    assert(any_ci(cv(offered@), rest[0]));
                }
                return Some(offered[i].clone());
            },
            None => {},
        }
        k += 1;
    }
    None
}

fn text_slice(mime: &[char]) -> (r: Option<Vec<char>>)
    ensures
        match r {
            Some(s) => text_subtype(mime@) == Some(s@),
            None => text_subtype(mime@) is None,
        },
{
    if mime.len() < 5 {
        return None;
    }
    let head = slice_range(mime, 0, 5);
    assert(head@ =~= mime@.take(5));
    if eq_ignore_case(head.as_slice(), chars_of("text/").as_slice()) {
        let tail = slice_range(mime, 5, mime.len());
        assert(tail@ =~= mime@.skip(5));
        Some(tail)
    } else {
        None
    }
}

fn private_subtype(subtype: &[char]) -> (r: bool)
    ensures
        r == is_private_subtype(subtype@),
{
    if subtype.len() > 0 && subtype[0] == '_' {
        return true;
    }
    if subtype.len() < 6 {
        return false;
    }
    let head = slice_range(subtype, 0, 6);
    assert(head@ =~= subtype@.take(6));
    eq_ignore_case(head.as_slice(), chars_of("x-moz-").as_slice())
}

fn plain_text(mime: &[char]) -> (r: bool)
    ensures
        r == is_plain_text(mime@),
{
    let names = text_mimes_exec();
    if find_ci(names.as_slice(), mime).is_some() {
        return true;
    }
    let base = base_of(mime);
    eq_ignore_case(base.as_slice(), chars_of("text/plain").as_slice())
}

fn extra_text(mime: &[char], primary: &[char]) -> (r: bool)
    ensures
        r == is_extra_text(mime@, primary@),
{
    if eq_ignore_case(mime, primary) || plain_text(mime) {
        return false;
    }
    let base = base_of(mime);
    if eq_ignore_case(base.as_slice(), chars_of("application/rtf").as_slice()) {
        return true;
    }
    match text_slice(base.as_slice()) {
        Some(subtype) => !private_subtype(subtype.as_slice()),
        None => false,
    }
}

fn extras_exec(offered: &[Vec<char>], primary: &[char]) -> (r: Vec<Vec<char>>)
    ensures
        cv(r@) == extras(cv(offered@), primary@),
{
    let mut wanted: Vec<Vec<char>> = Vec::new();
    let mut i: usize = 0;
    while i < offered.len()
        invariant
            i <= offered.len(),
            cv(wanted@) == extra_candidates(cv(offered@).take(i as int), primary@),
        decreases offered.len() - i,
    {
        proof {
            assert(cv(offered@).take(i + 1).drop_last() =~= cv(offered@).take(i as int));
            assert(cv(offered@).take(i + 1).last() == offered@[i as int]@);
        }
        if extra_text(offered[i].as_slice(), primary) {
            let ghost before = wanted@;
            wanted.push(offered[i].clone());
            assert(cv(wanted@) =~= cv(before).push(offered@[i as int]@));
        }
        i += 1;
    }
    assert(cv(offered@).take(i as int) =~= cv(offered@));

    let order = rich_order_exec();
    let mut chosen: Vec<Vec<char>> = Vec::new();
    let mut k: usize = 0;
    while k < order.len()
        invariant
            k <= order.len(),
            cv(order@) == rich_order(),
            cv(wanted@) == extra_candidates(cv(offered@), primary@),
            cv(chosen@) == rich_first(cv(wanted@), cv(order@).take(k as int)),
        decreases order.len() - k,
    {
        proof {
            assert(cv(order@).take(k + 1).drop_last() =~= cv(order@).take(k as int));
            assert(cv(order@).take(k + 1).last() == order@[k as int]@);
        }
        match find_ci(wanted.as_slice(), order[k].as_slice()) {
            Some(j) => {
                let m = wanted[j].clone();
                add_once(&mut chosen, m.as_slice());
            },
            None => {},
        }
        k += 1;
    }
    assert(cv(order@).take(k as int) =~= cv(order@));

    let ghost rich = cv(chosen@);
    let mut j: usize = 0;
    while j < wanted.len()
        invariant
            j <= wanted.len(),
            cv(chosen@) == push_all_once(rich, cv(wanted@).take(j as int)),
        decreases wanted.len() - j,
    {
        proof {
            assert(cv(wanted@).take(j + 1).drop_last() =~= cv(wanted@).take(j as int));
            assert(cv(wanted@).take(j + 1).last() == wanted@[j as int]@);
        }
        add_once(&mut chosen, wanted[j].as_slice());
        j += 1;
    }
    assert(cv(wanted@).take(j as int) =~= cv(wanted@));
    if chosen.len() > MAX_EXTRA_FLAVORS {
        chosen.truncate(MAX_EXTRA_FLAVORS);
        assert(cv(chosen@) =~= push_all_once(rich, cv(wanted@)).take(MAX_EXTRA_FLAVORS as int));
    }
    chosen
}

/// The view of a `Wanted`: its kind and the flavours it names.
pub open spec fn wanted_view(w: Wanted) -> (EntryKind, Seq<Seq<char>>) {
    (w.kind, views(w.mimes@))
}

/// Picks the flavours worth reading from what a selection offers.
///
/// An image wins over anything offered beside it, and is skipped entirely
/// when images are not kept; a file list wins over the paths offered as
/// text; otherwise the best spelling of plain text is read with up to
/// `MAX_EXTRA_FLAVORS` other text flavours. Names are matched ignoring ASCII
/// case and kept as offered. The password hint is noted whatever is chosen.
pub fn choose_mimes(offered: &[String], capture_images: bool) -> (r: Option<Wanted>)
    ensures
        match r {
            Some(w) => choice(views(offered@), capture_images) == Some(wanted_view(w))
                && w.password_hint == views(offered@).contains(PASSWORD_HINT@),
            None => choice(views(offered@), capture_images) is None,
        },
{
    let list = chars_of_all(offered);
    let hint = holds(list.as_slice(), chars_of(PASSWORD_HINT).as_slice());
    let images = image_mimes_exec();
    match first_offered(list.as_slice(), images.as_slice()) {
        Some(image) => {
            if capture_images {
                let picked = vec![image];
                let mimes = strings_of_all(picked.as_slice());
                assert(cv(picked@) =~= seq![image@]);
                return Some(Wanted { kind: EntryKind::Image, mimes, password_hint: hint });
            } else {
                return None;
            }
        },
        None => {},
    }
    let files = file_mimes_exec();
    match first_offered(list.as_slice(), files.as_slice()) {
        Some(file) => {
            let picked = vec![file];
            let mimes = strings_of_all(picked.as_slice());
            assert(cv(picked@) =~= seq![file@]);
            return Some(Wanted { kind: EntryKind::Files, mimes, password_hint: hint });
        },
        None => {},
    }
    let texts = text_mimes_exec();
    match first_offered(list.as_slice(), texts.as_slice()) {
        Some(text) => {
            let more = extras_exec(list.as_slice(), text.as_slice());
            let mut picked = vec![text];
            let ghost first = picked@;
            let mut more = more;
            picked.append(&mut more);
            assert(cv(picked@) =~= seq![text@] + extras(views(offered@), text@));
            let mimes = strings_of_all(picked.as_slice());
            Some(Wanted { kind: EntryKind::Text, mimes, password_hint: hint })
        },
        None => None,
    }
}

/// The spellings of plain text a restored entry should also answer to: those
/// a destination may ask for that the entry's flavours lack, when its first
/// flavour is plain text, and none otherwise.
pub fn text_aliases(offered: &[String]) -> (r: Vec<String>)
    ensures
        views(r@) == aliases(views(offered@)),
{
    let list = chars_of_all(offered);
    if list.len() == 0 {
        let r: Vec<String> = Vec::new();
        assert(views(r@) =~= seq![]);
        return r;
    }
    if !plain_text(list[0].as_slice()) {
        let r: Vec<String> = Vec::new();
        assert(views(r@) =~= seq![]);
        return r;
    }
    let names = text_mimes_exec();
    let mut chosen: Vec<Vec<char>> = Vec::new();
    let mut k: usize = 0;
    while k < names.len()
        invariant
            k <= names.len(),
            cv(names@) == text_mimes(),
            cv(list@) == views(offered@),
            cv(chosen@) == missing_aliases(cv(list@), cv(names@).take(k as int)),
        decreases names.len() - k,
    {
        proof {
            assert(cv(names@).take(k + 1).drop_last() =~= cv(names@).take(k as int));
            assert(cv(names@).take(k + 1).last() == names@[k as int]@);
        }
        if find_ci(list.as_slice(), names[k].as_slice()).is_none() {
            add_once(&mut chosen, names[k].as_slice());
        }
        k += 1;
    }
    assert(cv(names@).take(k as int) =~= cv(names@));
    strings_of_all(chosen.as_slice())
}

/// The most bytes read for one flavour of an entry of `kind`.
pub open spec fn limit_of(kind: EntryKind) -> nat {
    match kind {
        EntryKind::Text | EntryKind::Files => 5 * 1024 * 1024,
        EntryKind::Image => 20 * 1024 * 1024,
    }
}

/// How many bytes one flavour of an entry of `kind` may hold: images are
/// allowed more room than text.
pub fn size_limit(kind: EntryKind) -> (r: usize)
    ensures
        r == limit_of(kind),
{
    match kind {
        EntryKind::Text | EntryKind::Files => 5 * 1024 * 1024,
        EntryKind::Image => 20 * 1024 * 1024,
    }
}

} // verus!
