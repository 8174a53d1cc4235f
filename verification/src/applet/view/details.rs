//! The words the details page shows: the names of an entry's formats, the
//! name of the application it came from, its size, and its text cut to
//! fit the page.

use vstd::prelude::*;

use crate::clip::mime::{any_ci, file_mimes, file_mimes_exec, find_ci, text_mimes, text_mimes_exec};
use crate::applet::thumbs::Thumbs;
use crate::clip::model::{truncate_chars, EntryKind, EntryMeta, Timestamp};
use crate::text::{
    base_of, before, chars_of, cv, eq_ci, eq_ignore_case, find, mime_base, slice_range, string_of,
    views,
};

verus! {

/// The most characters of an entry's text the page shows.
pub const DETAILS_CHARS: usize = 400;

/// The formats a reader knows by a name of their own, with that name.
pub open spec fn named_formats() -> Seq<(Seq<char>, Seq<char>)> {
    seq![
        ("text/html"@, "HTML"@),
        ("text/rtf"@, "RTF"@),
        ("application/rtf"@, "RTF"@),
        ("text/richtext"@, "RTF"@),
        ("text/markdown"@, "Markdown"@),
        ("text/csv"@, "CSV"@),
        ("image/png"@, "PNG"@),
        ("image/jpeg"@, "JPEG"@),
        ("image/gif"@, "GIF"@),
        ("image/bmp"@, "BMP"@),
    ]
}

/// The name of the first format in `table` that `base` spells, ignoring
/// ASCII case.
pub open spec fn name_in(table: Seq<(Seq<char>, Seq<char>)>, base: Seq<char>) -> Option<Seq<char>>
    decreases table.len(),
{
    if table.len() == 0 {
        None
    } else if eq_ci(base, table[0].0) {
        Some(table[0].1)
    } else {
        name_in(table.drop_first(), base)
    }
}

/// The spellings of plain text without their parameters.
pub open spec fn plain_bases() -> Seq<Seq<char>> {
    text_mimes().map_values(|m: Seq<char>| before(m, ';'))
}

/// The name a format is shown by: its own name where it has one, `files`
/// for a file list, `plain` for any spelling of plain text, and otherwise
/// the type itself without its parameters.
pub open spec fn format_label(mime: Seq<char>, files: Seq<char>, plain: Seq<char>) -> Seq<char> {
    let base = mime_base(mime);
    match name_in(named_formats(), base) {
        Some(name) => name,
        None => if any_ci(file_mimes(), base) {
            files
        } else if any_ci(plain_bases(), base) {
            plain
        } else {
            base
        },
    }
}

/// The name a format is shown by; `files` and `plain` are the words the
/// page uses for a file list and for plain text.
pub fn format_name(mime: &str, files: &str, plain: &str) -> (r: String)
    ensures
        r@ == format_label(mime@, files@, plain@),
{
    let base = base_of(chars_of(mime).as_slice());
    let table: [(&str, &str); 10] = [
        ("text/html", "HTML"),
        ("text/rtf", "RTF"),
        ("application/rtf", "RTF"),
        ("text/richtext", "RTF"),
        ("text/markdown", "Markdown"),
        ("text/csv", "CSV"),
        ("image/png", "PNG"),
        ("image/jpeg", "JPEG"),
        ("image/gif", "GIF"),
        ("image/bmp", "BMP"),
    ];
    let ghost all = table@.map_values(|p: (&str, &str)| (p.0@, p.1@));
    assert(all =~= named_formats());
    let mut i: usize = 0;
    assert(all.skip(0) =~= all);
    while i < 10
        invariant
            i <= 10,
            all == table@.map_values(|p: (&str, &str)| (p.0@, p.1@)),
            all == named_formats(),
            name_in(all.skip(i as int), base@) == name_in(named_formats(), base@),
            base@ == mime_base(mime@),
        decreases 10 - i,
    {
        let (known, name) = table[i];
        proof {
            assert(all.skip(i as int)[0] == (known@, name@));
            assert(all.skip(i as int).drop_first() =~= all.skip(i + 1));
        }
        if eq_ignore_case(base.as_slice(), chars_of(known).as_slice()) {
            assert(name_in(all.skip(i as int), base@) == Some(name@));
            return string_of(chars_of(name).as_slice());
        }
        i += 1;
    }
    assert(all.skip(10) =~= Seq::<(Seq<char>, Seq<char>)>::empty());
    if find_ci(file_mimes_exec().as_slice(), base.as_slice()).is_some() {
        proof {
            lemma_any_ci_symmetric(file_mimes(), base@);
        }
        return string_of(chars_of(files).as_slice());
    }
    proof {
        lemma_any_ci_symmetric(file_mimes(), base@);
    }
    let spellings = text_mimes_exec();
    let mut bases: Vec<Vec<char>> = Vec::new();
    let mut k: usize = 0;
    while k < spellings.len()
        invariant
            k <= spellings@.len(),
            cv(spellings@) == text_mimes(),
            cv(bases@) == cv(spellings@).take(k as int).map_values(|m: Seq<char>| before(m, ';')),
            bases@.len() == k,
        decreases spellings@.len() - k,
    {
        let cut = find(spellings[k].as_slice(), ';');
        proof {
            crate::text::lemma_find_char_bound(spellings@[k as int]@, ';');
        }
        let head = slice_range(spellings[k].as_slice(), 0, cut);
        let ghost prev = bases@;
        bases.push(head);
        proof {
            assert(head@ =~= before(spellings@[k as int]@, ';'));
            assert forall|j: int| 0 <= j <= k implies #[trigger] cv(bases@)[j] == cv(spellings@).take(
                k + 1,
            ).map_values(|m: Seq<char>| before(m, ';'))[j] by {
                if j < k {
                    assert(cv(prev)[j] == cv(spellings@).take(k as int).map_values(
                        |m: Seq<char>| before(m, ';'),
                    )[j]);
                }
            }
        }
        k += 1;
        assert(cv(bases@) =~= cv(spellings@).take(k as int).map_values(|m: Seq<char>| before(m, ';')));
    }
    assert(cv(spellings@).take(k as int) =~= cv(spellings@));
    assert(cv(bases@) =~= plain_bases());
    let plain_found = find_ci(bases.as_slice(), base.as_slice()).is_some();
    proof {
        lemma_any_ci_symmetric(plain_bases(), base@);
    }
    if plain_found {
        return string_of(chars_of(plain).as_slice());
    }
    string_of(base.as_slice())
}

/// Case-blind equality reads the same both ways round.
proof fn lemma_any_ci_symmetric(list: Seq<Seq<char>>, m: Seq<char>)
    ensures
        any_ci(list, m) <==> exists|i: int| 0 <= i < list.len() && #[trigger] eq_ci(m, list[i]),
{
    if any_ci(list, m) {
        let i = choose|i: int| 0 <= i < list.len() && #[trigger] eq_ci(list[i], m);
        assert(eq_ci(m, list[i]));
    }
    if exists|i: int| 0 <= i < list.len() && #[trigger] eq_ci(m, list[i]) {
        let i = choose|i: int| 0 <= i < list.len() && #[trigger] eq_ci(m, list[i]);
        assert(eq_ci(list[i], m));
    }
}

/// The names of `mimes`, each once, in the order first met.
pub open spec fn format_labels(mimes: Seq<Seq<char>>, files: Seq<char>, plain: Seq<char>) -> Seq<
    Seq<char>,
>
    decreases mimes.len(),
{
    if mimes.len() == 0 {
        seq![]
    } else {
        let earlier = format_labels(mimes.drop_last(), files, plain);
        let name = format_label(mimes.last(), files, plain);
        if earlier.contains(name) {
            earlier
        } else {
            earlier.push(name)
        }
    }
}

/// The names an entry's formats are shown by, each once.
pub fn format_names(mimes: &[String], files: &str, plain: &str) -> (r: Vec<String>)
    ensures
        views(r@) == format_labels(views(mimes@), files@, plain@),
{
    let mut names: Vec<String> = Vec::new();
    let mut i: usize = 0;
    while i < mimes.len()
        invariant
            i <= mimes@.len(),
            views(names@) == format_labels(views(mimes@).take(i as int), files@, plain@),
        decreases mimes@.len() - i,
    {
        proof {
            assert(views(mimes@).take(i + 1).drop_last() =~= views(mimes@).take(i as int));
            assert(views(mimes@).take(i + 1).last() == mimes@[i as int]@);
        }
        let name = format_name(mimes[i].as_str(), files, plain);
        let mut seen = false;
        let mut j: usize = 0;
        while j < names.len()
            invariant
                j <= names@.len(),
                seen == views(names@).take(j as int).contains(name@),
            decreases names@.len() - j,
        {
            proof {
                assert(views(names@).take(j + 1) =~= views(names@).take(j as int).push(names@[j as int]@));
                lemma_push_contains(views(names@).take(j as int), names@[j as int]@, name@);
            }
            if crate::text::equal(chars_of(names[j].as_str()).as_slice(), chars_of(name.as_str()).as_slice()) {
                seen = true;
            }
            j += 1;
        }
        assert(views(names@).take(j as int) =~= views(names@));
        if !seen {
            let ghost prev = names@;
            names.push(name);
            assert(views(names@) =~= views(prev).push(name@));
        }
        i += 1;
    }
    assert(views(mimes@).take(i as int) =~= views(mimes@));
    names
}

/// The text of an entry as the page shows it: whole where it is at most
/// `DETAILS_CHARS` characters, otherwise cut to leave room for an
/// ellipsis that makes it exactly that long.
pub open spec fn details_spec(text: Seq<char>) -> Seq<char> {
    if text.len() <= DETAILS_CHARS {
        text
    } else {
        text.take(DETAILS_CHARS - 3) + "..."@
    }
}

/// An entry's text cut to fit the page.
pub fn details_text(text: &str) -> (r: String)
    ensures
        r@ == details_spec(text@),
{
    let chars = chars_of(text);
    if chars.len() <= DETAILS_CHARS {
        return string_of(chars.as_slice());
    }
    let cut = truncate_chars(text, DETAILS_CHARS - 3);
    let mut kept = chars_of(cut.as_str());
    let mut dots = chars_of("...");
    kept.append(&mut dots);
    string_of(kept.as_slice())
}

/// The text shown never runs past the page: a long text is cut to exactly
/// `DETAILS_CHARS` characters, its ellipsis included.
pub proof fn details_fit_the_page(text: Seq<char>)
    ensures
        details_spec(text).len() <= DETAILS_CHARS,
        text.len() > DETAILS_CHARS ==> details_spec(text).len() == DETAILS_CHARS,
        text.len() <= DETAILS_CHARS ==> details_spec(text) == text,
{
    reveal_strlit("...");
}

/// Each format name is listed once.
pub proof fn format_names_are_distinct(mimes: Seq<Seq<char>>, files: Seq<char>, plain: Seq<char>)
    ensures
        forall|a: int, b: int|
            0 <= a < b < format_labels(mimes, files, plain).len() ==> #[trigger] format_labels(mimes, files, plain)[a]
                != #[trigger] format_labels(mimes, files, plain)[b],
    decreases mimes.len(),
{
    if mimes.len() > 0 {
        format_names_are_distinct(mimes.drop_last(), files, plain);
        let earlier = format_labels(mimes.drop_last(), files, plain);
        let name = format_label(mimes.last(), files, plain);
        if !earlier.contains(name) {
            let all = earlier.push(name);
            assert forall|a: int, b: int| 0 <= a < b < all.len() implies #[trigger] all[a] != #[trigger] all[b] by {
                if b == earlier.len() {
                    assert(all[a] == earlier[a]);
                    assert(earlier.contains(earlier[a]));
                } else {
                    assert(all[a] == earlier[a] && all[b] == earlier[b]);
                }
            }
        }
    }
}

/// The units sizes climb through.
pub open spec fn units() -> Seq<Seq<char>> {
    seq!["B"@, "kB"@, "MB"@, "GB"@]
}

/// The decimal digits of `n`.
pub open spec fn decimal(n: nat) -> Seq<char>
    decreases n,
{
    if n < 10 {
        seq![(('0' as u32) + n) as char]
    } else {
        decimal(n / 10).push((('0' as u32) + (n % 10)) as char)
    }
}

/// How a size is scaled: the whole part, the remainder of the last
/// division by 1024 and the unit reached, dividing while the size is at
/// least 1024 and a larger unit is left.
pub open spec fn scaled(whole: nat, remainder: nat, unit: nat) -> (nat, nat, nat)
    decreases 3 - unit,
{
    if whole >= 1024 && unit + 1 < 4 {
        scaled(whole / 1024, whole % 1024, unit + 1)
    } else {
        (whole, remainder, unit)
    }
}

/// A size as the page shows it: bytes as they are, larger sizes with one
/// decimal (cut, not rounded) in the largest unit that keeps the whole part
/// under 1024, up to gigabytes.
pub open spec fn size_label(size: nat) -> Seq<char> {
    let (whole, remainder, unit) = scaled(size, 0, 0);
    if unit == 0 {
        decimal(whole) + " "@ + units()[0]
    } else {
        decimal(whole) + "."@ + decimal(remainder * 10 / 1024) + " "@ + units()[unit as int]
    }
}

/// The decimal digits of `n`.
pub fn digits(n: u64) -> (r: Vec<char>)
    ensures
        r@ == decimal(n as nat),
    decreases n,
{
    if n < 10 {
        let c = char_of_digit(n as u32);
        let mut r = Vec::new();
        r.push(c);
        assert(r@ =~= decimal(n as nat));
        r
    } else {
        let mut r = digits(n / 10);
        r.push(char_of_digit((n % 10) as u32));
        r
    }
}

/// The character of a decimal digit.
fn char_of_digit(d: u32) -> (c: char)
    requires
        d < 10,
    ensures
        c == (('0' as u32) + d) as char,
{
    match d {
        0 => '0',
        1 => '1',
        2 => '2',
        3 => '3',
        4 => '4',
        5 => '5',
        6 => '6',
        7 => '7',
        8 => '8',
        _ => '9',
    }
}

/// A size as the page shows it.
pub fn bytes(size: u64) -> (r: String)
    ensures
        r@ == size_label(size as nat),
{
    let names: [&str; 4] = ["B", "kB", "MB", "GB"];
    assert(names@.map_values(|u: &str| u@) =~= units());
    let mut whole = size;
    let mut remainder: u64 = 0;
    let mut unit: usize = 0;
    while whole >= 1024 && unit + 1 < 4
        invariant
            unit < 4,
            remainder < 1024,
            scaled(whole as nat, remainder as nat, unit as nat) == scaled(size as nat, 0, 0),
        decreases 3 - unit,
    {
        remainder = whole % 1024;
        whole = whole / 1024;
        unit += 1;
    }
    let mut text = digits(whole);
    proof {
        assert(names@.map_values(|u: &str| u@)[unit as int] == names@[unit as int]@);
    }
    if unit == 0 {
        let mut tail = chars_of(" ");
        text.append(&mut tail);
        let mut name = chars_of(names[0]);
        text.append(&mut name);
    } else {
        let mut dot = chars_of(".");
        text.append(&mut dot);
        let mut tenths = digits(remainder * 10 / 1024);
        text.append(&mut tenths);
        let mut tail = chars_of(" ");
        text.append(&mut tail);
        let mut name = chars_of(names[unit]);
        text.append(&mut name);
    }
    string_of(text.as_slice())
}

proof fn lemma_push_contains<A>(s: Seq<A>, x: A, y: A)
    ensures
        s.push(x).contains(y) == (s.contains(y) || x == y),
{
    if s.contains(y) {
        let k = s.index_of(y);
        assert(s.push(x)[k] == y);
    }
    if x == y {
        assert(s.push(x)[s.len() as int] == y);
    }
    if s.push(x).contains(y) {
        let k = s.push(x).index_of(y);
        if k < s.len() {
            assert(s[k] == y);
        }
    }
}

/// The name an application id reads as: its last dotted component, the
/// first letter in upper case and a space before each later upper-case
/// letter that does not already follow one.
pub open spec fn app_name(id: Seq<char>) -> Seq<char> {
    let parts = crate::text::pieces(id, '.');
    spaced(parts.last())
}

/// What `char::to_uppercase` yields for `c`.
pub uninterp spec fn uppercase_of(c: char) -> Seq<char>;

/// What `char::is_uppercase` says of `c`.
pub uninterp spec fn is_upper(c: char) -> bool;

/// `char::to_uppercase`, collected.
#[verifier::external_body]
fn uppercase(c: char) -> (r: Vec<char>)
    ensures
        r@ == uppercase_of(c),
{
    c.to_uppercase().collect()
}

/// `char::is_uppercase`.
#[verifier::external_body]
fn upper(c: char) -> (r: bool)
    ensures
        r == is_upper(c),
{
    c.is_uppercase()
}

/// The characters of `tail` with the first one upper-cased and spaces
/// before the later capitals.
pub open spec fn spaced(tail: Seq<char>) -> Seq<char>
    decreases tail.len(),
{
    if tail.len() == 0 {
        seq![]
    } else if tail.len() == 1 {
        uppercase_of(tail[0])
    } else {
        let earlier = spaced(tail.drop_last());
        let c = tail.last();
        if is_upper(c) && !(earlier.len() > 0 && earlier.last() == ' ') {
            earlier.push(' ').push(c)
        } else {
            earlier.push(c)
        }
    }
}

/// The name an application id reads as.
pub fn application(id: &str) -> (r: String)
    ensures
        r@ == app_name(id@),
{
    let parts = crate::text::split_on(chars_of(id).as_slice(), '.');
    proof {
        lemma_pieces_nonempty(id@, '.');
    }
    let last = parts.len() - 1;
    let tail = &parts[last];
    assert(tail@ == crate::text::pieces(id@, '.').last());
    let mut name: Vec<char> = Vec::new();
    let mut i: usize = 0;
    while i < tail.len()
        invariant
            i <= tail@.len(),
            name@ == spaced(tail@.take(i as int)),
        decreases tail@.len() - i,
    {
        proof {
            assert(tail@.take(i + 1).drop_last() =~= tail@.take(i as int));
            assert(tail@.take(i + 1).last() == tail@[i as int]);
        }
        let c = tail[i];
        if i == 0 {
            name = uppercase(c);
            assert(tail@.take(1)[0] == c);
        } else {
            if upper(c) && !(name.len() > 0 && name[name.len() - 1] == ' ') {
                name.push(' ');
            }
            name.push(c);
        }
        i += 1;
    }
    assert(tail@.take(i as int) =~= tail@);
    string_of(name.as_slice())
}

proof fn lemma_pieces_nonempty(s: Seq<char>, c: char)
    ensures
        crate::text::pieces(s, c).len() > 0,
    decreases s.len(),
{
    let i = crate::text::find_char(s, c) as int;
    if i < s.len() {
        crate::text::lemma_find_char_bound(s, c);
        lemma_pieces_nonempty(s.skip(i + 1), c);
    }
}


/// What stands at the top of the details page.
#[derive(Debug)]
pub enum Summary<'a, H> {
    /// The image's thumbnail, drawn within the page at the image's size.
    Picture(&'a H, (u32, u32)),
    /// The entry's text, cut to fit the page.
    Excerpt(String),
    /// Nothing yet: an image whose thumbnail has not arrived.
    Nothing,
}

/// Whether the page draws `entry` as a picture: an image whose size is
/// known.
pub open spec fn pictured(entry: EntryMeta) -> bool {
    entry.kind == EntryKind::Image && entry.image_size is Some
}

/// What the top of the details page shows of `entry`, whose thumbnail is
/// `thumb` (as `Thumbs::thumb` says): a picture is drawn once its thumbnail
/// is there, and shows nothing until then; anything else, an image whose
/// size is not known too, is shown by its text.
pub fn summary<'a, H>(entry: &EntryMeta, thumbs: &'a Thumbs<H>) -> (r: Summary<'a, H>)
    ensures
        pictured(*entry) ==> match thumbs.thumb(entry.id) {
            Some(Some(h)) => r == Summary::Picture(&h, entry.image_size.unwrap()),
            _ => r is Nothing,
        },
        !pictured(*entry) ==> (r matches Summary::Excerpt(text) && text@ == details_spec(entry.preview@)),
{
    let is_image = entry.kind == EntryKind::Image;
    match (is_image, entry.image_size) {
        (true, Some(size)) => match thumbs.get(entry.id) {
            Some(h) => Summary::Picture(h, size),
            None => Summary::Nothing,
        },
        _ => Summary::Excerpt(details_text(entry.label())),
    }
}

/// One fact the details page lists, with what it says.
#[derive(Clone, Debug, PartialEq, Eq)]
pub enum Fact {
    /// The application the copy came from, by name.
    Source(String),
    /// When it was first copied, for the page to put in the reader's time.
    Copied(Timestamp),
    /// When it was last used.
    Used(Timestamp),
    /// How many times it was copied or used.
    Copies(String),
    /// How large it is.
    Bytes(String),
    /// The image's width and height.
    Size(String),
}

/// What a fact says.
pub enum FactView {
    Source(Seq<char>),
    Copied(Timestamp),
    Used(Timestamp),
    Copies(Seq<char>),
    Bytes(Seq<char>),
    Size(Seq<char>),
}

/// What `fact` says.
pub open spec fn fact_view(fact: Fact) -> FactView {
    match fact {
        Fact::Source(name) => FactView::Source(name@),
        Fact::Copied(at) => FactView::Copied(at),
        Fact::Used(at) => FactView::Used(at),
        Fact::Copies(n) => FactView::Copies(n@),
        Fact::Bytes(size) => FactView::Bytes(size@),
        Fact::Size(dims) => FactView::Size(dims@),
    }
}

/// Width and height as the page writes them.
pub open spec fn dimensions(width: u32, height: u32) -> Seq<char> {
    decimal(width as nat) + " × "@ + decimal(height as nat)
}

/// The facts the details page lists about `entry`, in order: the
/// application it came from (where known), when it was first copied and
/// last used, how many times, how large it is, and an image's size (where
/// known).
pub open spec fn facts_spec(entry: EntryMeta) -> Seq<FactView> {
    let source = match entry.source_app {
        Some(id) => seq![FactView::Source(app_name(id@))],
        None => seq![],
    };
    let size = match entry.image_size {
        Some((w, h)) => if entry.kind == EntryKind::Image {
            seq![FactView::Size(dimensions(w, h))]
        } else {
            seq![]
        },
        None => seq![],
    };
    source + seq![
        FactView::Copied(entry.created_at),
        FactView::Used(entry.last_used_at),
        FactView::Copies(decimal(entry.use_count as nat)),
        FactView::Bytes(size_label(entry.byte_size as nat)),
    ] + size
}

/// Width and height as the page writes them.
fn dimensions_text(width: u32, height: u32) -> (r: String)
    ensures
        r@ == dimensions(width, height),
{
    let mut text = digits(width as u64);
    let mut by = chars_of(" × ");
    text.append(&mut by);
    let mut tall = digits(height as u64);
    text.append(&mut tall);
    string_of(text.as_slice())
}

/// The facts the details page lists; see `facts_spec`.
pub fn facts(entry: &EntryMeta) -> (r: Vec<Fact>)
    ensures
        r@.map_values(|f: Fact| fact_view(f)) == facts_spec(*entry),
{
    let mut out: Vec<Fact> = Vec::new();
    if let Some(id) = &entry.source_app {
        out.push(Fact::Source(application(id.as_str())));
    }
    out.push(Fact::Copied(entry.created_at));
    out.push(Fact::Used(entry.last_used_at));
    out.push(Fact::Copies(string_of(digits(entry.use_count as u64).as_slice())));
    out.push(Fact::Bytes(bytes(entry.byte_size)));
    if entry.kind == EntryKind::Image {
        if let Some((w, h)) = entry.image_size {
            out.push(Fact::Size(dimensions_text(w, h)));
        }
    }
    assert(out@.map_values(|f: Fact| fact_view(f)) =~= facts_spec(*entry));
    out
}

} // verus!
